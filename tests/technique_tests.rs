use logic_proof_trainer_lib::formula::Formula;
use logic_proof_trainer_lib::rules::technique::{is_contradiction, ProofTechnique};

#[test]
fn test_conditional_proof() {
    let assumption = Formula::parse("P").unwrap();
    let derived = Formula::parse("Q").unwrap();
    let expected = Formula::parse("P -> Q").unwrap();

    let conclusion = ProofTechnique::ConditionalProof
        .get_conclusion(&assumption, &derived)
        .unwrap();
    assert_eq!(conclusion, expected);
}

#[test]
fn test_indirect_proof_with_contradiction_symbol() {
    // Assume ~P, derive ⊥ → conclude P
    let assumption = Formula::parse("~P").unwrap();
    let derived = Formula::Contradiction;
    let expected = Formula::parse("P").unwrap();

    let conclusion = ProofTechnique::IndirectProof
        .get_conclusion(&assumption, &derived)
        .unwrap();
    assert_eq!(conclusion, expected);
}

#[test]
fn test_indirect_proof_with_p_and_not_p() {
    // Assume ~P, derive A · ~A → conclude P
    let assumption = Formula::parse("~P").unwrap();
    let derived = Formula::parse("A & ~A").unwrap();
    let expected = Formula::parse("P").unwrap();

    let conclusion = ProofTechnique::IndirectProof
        .get_conclusion(&assumption, &derived)
        .unwrap();
    assert_eq!(conclusion, expected);
}

#[test]
fn test_indirect_proof_with_not_p_and_p() {
    // Assume ~P, derive ~A · A → conclude P (order reversed)
    let assumption = Formula::parse("~P").unwrap();
    let derived = Formula::parse("~A & A").unwrap();
    let expected = Formula::parse("P").unwrap();

    let conclusion = ProofTechnique::IndirectProof
        .get_conclusion(&assumption, &derived)
        .unwrap();
    assert_eq!(conclusion, expected);
}

#[test]
fn test_indirect_proof_requires_contradiction() {
    let assumption = Formula::parse("~P").unwrap();
    let derived = Formula::parse("Q").unwrap(); // Not a contradiction

    let conclusion = ProofTechnique::IndirectProof.get_conclusion(&assumption, &derived);
    assert!(conclusion.is_none());
}

#[test]
fn test_indirect_proof_non_negated_assumption() {
    // IP can also handle: Assume P, derive ⊥ → conclude ~P
    let assumption = Formula::parse("P").unwrap();
    let derived = Formula::Contradiction;
    let expected = Formula::parse("~P").unwrap();

    let conclusion = ProofTechnique::IndirectProof
        .get_conclusion(&assumption, &derived)
        .unwrap();
    assert_eq!(conclusion, expected);
}

#[test]
fn test_indirect_proof_complex_formula() {
    // Test with complex formula: Assume (P ∨ Q) . R, derive ⊥ → conclude ~[(P ∨ Q) . R]
    let assumption = Formula::parse("(P | Q) & R").unwrap();
    let derived = Formula::Contradiction;

    let conclusion = ProofTechnique::IndirectProof
        .get_conclusion(&assumption, &derived)
        .unwrap();

    // Should be ~[(P ∨ Q) . R]
    if let Formula::Not(inner) = &conclusion {
        assert_eq!(**inner, assumption);
    } else {
        panic!("Expected negation");
    }
}

#[test]
fn test_is_contradiction() {
    // ⊥ is a contradiction
    assert!(is_contradiction(&Formula::Contradiction));

    // P · ~P is a contradiction
    let p_and_not_p = Formula::parse("P & ~P").unwrap();
    assert!(is_contradiction(&p_and_not_p));

    // ~P · P is a contradiction
    let not_p_and_p = Formula::parse("~P & P").unwrap();
    assert!(is_contradiction(&not_p_and_p));

    // Complex: (A ⊃ B) · ~(A ⊃ B)
    let complex = Formula::parse("(A > B) & ~(A > B)").unwrap();
    assert!(is_contradiction(&complex));

    // User's exact case: ~(R ∨ S) · (R ∨ S)
    let user_case = Formula::parse("~(R | S) & (R | S)").unwrap();
    assert!(is_contradiction(&user_case), "~(R | S) & (R | S) should be a contradiction");

    // P · Q is NOT a contradiction
    let p_and_q = Formula::parse("P & Q").unwrap();
    assert!(!is_contradiction(&p_and_q));

    // P · ~Q is NOT a contradiction (different formulas)
    let p_and_not_q = Formula::parse("P & ~Q").unwrap();
    assert!(!is_contradiction(&p_and_not_q));

    // Just P is NOT a contradiction
    let just_p = Formula::parse("P").unwrap();
    assert!(!is_contradiction(&just_p));
}
