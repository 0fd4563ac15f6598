use logic_proof_trainer_lib::dyn_table::{compute_truth_table_dynamic, is_tautology_dynamic};
use logic_proof_trainer_lib::formula::Formula;
use logic_proof_trainer_lib::oracle::{
    can_derive_directly, entails, forces_case_split, forces_cp, forces_ip, single_premise_entails,
    validate_theorem, DegenerateProofError,
};
use logic_proof_trainer_lib::truth_table::{are_equivalent, compute_truth_table, is_contradiction, is_tautology};

fn atom(name: &str) -> Formula {
    Formula::Atom(name.to_string())
}

fn not(f: Formula) -> Formula {
    Formula::Not(Box::new(f))
}

fn and(a: Formula, b: Formula) -> Formula {
    Formula::And(Box::new(a), Box::new(b))
}

fn or(a: Formula, b: Formula) -> Formula {
    Formula::Or(Box::new(a), Box::new(b))
}

fn implies(a: Formula, b: Formula) -> Formula {
    Formula::Implies(Box::new(a), Box::new(b))
}

// === Truth Table Tests ===

#[test]
fn test_atom_truth_tables() {
    assert_eq!(compute_truth_table(&atom("P")), 0xFFFF0000);
    assert_eq!(compute_truth_table(&atom("Q")), 0xFF00FF00);
    assert_eq!(compute_truth_table(&atom("R")), 0xF0F0F0F0);
}

#[test]
fn test_negation_truth_table() {
    // ~P should flip all bits of P
    let p_tt = compute_truth_table(&atom("P"));
    let not_p_tt = compute_truth_table(&not(atom("P")));
    assert_eq!(not_p_tt, !p_tt & 0xFFFF_FFFFu32);
}

#[test]
fn test_double_negation_equivalence() {
    // ~~P should be equivalent to P
    let p = atom("P");
    let not_not_p = not(not(atom("P")));
    assert!(are_equivalent(&p, &not_not_p));
}

#[test]
fn test_demorgan() {
    // ~(P & Q) should be equivalent to ~P | ~Q
    let left = not(and(atom("P"), atom("Q")));
    let right = or(not(atom("P")), not(atom("Q")));
    assert!(are_equivalent(&left, &right));
}

#[test]
fn test_implication_equivalence() {
    // P -> Q should be equivalent to ~P | Q
    let impl_form = implies(atom("P"), atom("Q"));
    let disj_form = or(not(atom("P")), atom("Q"));
    assert!(are_equivalent(&impl_form, &disj_form));
}

// === Tautology Tests ===

#[test]
fn test_lem_is_tautology() {
    // P | ~P is a tautology
    let lem = or(atom("P"), not(atom("P")));
    assert!(is_tautology(&lem));
}

#[test]
fn test_self_implication_is_tautology() {
    // P -> P is a tautology
    let self_impl = implies(atom("P"), atom("P"));
    assert!(is_tautology(&self_impl));
}

#[test]
fn test_atom_not_tautology() {
    assert!(!is_tautology(&atom("P")));
}

// === Contradiction Tests ===

#[test]
fn test_contradiction_constant() {
    assert!(is_contradiction(&Formula::Contradiction));
}

#[test]
fn test_p_and_not_p_is_contradiction() {
    let contra = and(atom("P"), not(atom("P")));
    assert!(is_contradiction(&contra));
}

// === Semantic Entailment Tests ===

#[test]
fn test_mp_entailment() {
    // P, P -> Q entails Q
    let premises = vec![atom("P"), implies(atom("P"), atom("Q"))];
    let conclusion = atom("Q");
    assert!(entails(&premises, &conclusion));
}

#[test]
fn test_single_premise_entails_disjunction() {
    // P single-handedly entails P | Q
    let premises = vec![atom("P")];
    let conclusion = or(atom("P"), atom("Q"));
    assert!(single_premise_entails(&premises, &conclusion));
}

#[test]
fn test_single_premise_entails_double_negation() {
    // P single-handedly entails ~~P
    let premises = vec![atom("P")];
    let conclusion = not(not(atom("P")));
    assert!(single_premise_entails(&premises, &conclusion));
}

// === Degenerate Proof Tests ===

#[test]
fn test_reject_contradictory_premises() {
    // P, ~P |- Q should be rejected
    let premises = vec![atom("P"), not(atom("P"))];
    let conclusion = atom("Q");
    assert!(matches!(
        validate_theorem(&premises, &conclusion),
        Err(DegenerateProofError::ContradictoryPremises)
    ));
}

#[test]
fn test_reject_tautological_conclusion() {
    // ... |- P | ~P should be rejected
    let premises = vec![atom("Q")];
    let conclusion = or(atom("P"), not(atom("P")));
    assert!(matches!(
        validate_theorem(&premises, &conclusion),
        Err(DegenerateProofError::TautologicalConclusion)
    ));
}

#[test]
fn test_reject_single_premise_entails() {
    // P |- P should be rejected (begging the question)
    let premises = vec![atom("P")];
    let conclusion = atom("P");
    assert!(matches!(
        validate_theorem(&premises, &conclusion),
        Err(DegenerateProofError::SinglePremiseEntails)
    ));
}

#[test]
fn test_reject_semantic_single_premise_entails() {
    // P |- ~~P should be rejected (semantically the same)
    let premises = vec![atom("P")];
    let conclusion = not(not(atom("P")));
    assert!(matches!(
        validate_theorem(&premises, &conclusion),
        Err(DegenerateProofError::SinglePremiseEntails)
    ));
}

#[test]
fn test_reject_conjunction_entails_conjunct() {
    // P & Q |- P should be rejected
    let premises = vec![and(atom("P"), atom("Q"))];
    let conclusion = atom("P");
    assert!(matches!(
        validate_theorem(&premises, &conclusion),
        Err(DegenerateProofError::SinglePremiseEntails)
    ));
}

#[test]
fn test_reject_disjunction_via_add() {
    // P |- P | Q should be rejected
    let premises = vec![atom("P")];
    let conclusion = or(atom("P"), atom("Q"));
    assert!(matches!(
        validate_theorem(&premises, &conclusion),
        Err(DegenerateProofError::SinglePremiseEntails)
    ));
}

#[test]
fn test_reject_semantic_contradiction() {
    // T | T, ~T |- Q should be rejected (T|T is equivalent to T)
    let premises = vec![or(atom("T"), atom("T")), not(atom("T"))];
    let conclusion = atom("Q");
    assert!(matches!(
        validate_theorem(&premises, &conclusion),
        Err(DegenerateProofError::ContradictoryPremises)
    ));
}

#[test]
fn test_reject_explosion_conditional() {
    // ~P |- P -> Q should be rejected
    // Note: This gets caught by SinglePremiseEntails first, because ~P semantically
    // entails P -> Q (since P -> Q is ~P | Q, and if ~P is true, so is ~P | Q)
    let premises = vec![not(atom("P"))];
    let conclusion = implies(atom("P"), atom("Q"));
    let result = validate_theorem(&premises, &conclusion);
    assert!(result.is_err());
    // Either SinglePremiseEntails or ConditionalTrivialViaExplosion is valid
    assert!(matches!(
        result.unwrap_err(),
        DegenerateProofError::SinglePremiseEntails | DegenerateProofError::ConditionalTrivialViaExplosion
    ));
}

#[test]
fn test_reject_redundant_premises() {
    // P, P, Q |- P & Q should be rejected (redundant P)
    let premises = vec![atom("P"), atom("P"), atom("Q")];
    let conclusion = and(atom("P"), atom("Q"));
    assert!(matches!(
        validate_theorem(&premises, &conclusion),
        Err(DegenerateProofError::RedundantPremises)
    ));
}

#[test]
fn test_reject_unnecessary_premise() {
    // P, Q, R |- P & Q should be rejected (R unnecessary)
    let premises = vec![atom("P"), atom("Q"), atom("R")];
    let conclusion = and(atom("P"), atom("Q"));
    assert!(matches!(
        validate_theorem(&premises, &conclusion),
        Err(DegenerateProofError::UnnecessaryPremise)
    ));
}

#[test]
fn test_valid_mp_theorem() {
    // P, P -> Q |- Q is valid and non-degenerate
    let premises = vec![atom("P"), implies(atom("P"), atom("Q"))];
    let conclusion = atom("Q");
    assert!(validate_theorem(&premises, &conclusion).is_ok());
}

#[test]
fn test_valid_hs_theorem() {
    // P -> Q, Q -> R |- P -> R is valid and non-degenerate
    let premises = vec![
        implies(atom("P"), atom("Q")),
        implies(atom("Q"), atom("R")),
    ];
    let conclusion = implies(atom("P"), atom("R"));
    assert!(validate_theorem(&premises, &conclusion).is_ok());
}

// === Forcing Check Tests ===

#[test]
fn test_forces_cp_true() {
    // A⊃B, C⊃D ⊢ (A∧C)⊃(B∧D) - premises don't entail B∧D
    let a = atom("P");
    let b = atom("Q");
    let c = atom("R");
    let d = atom("S");
    let premises = vec![implies(a.clone(), b.clone()), implies(c.clone(), d.clone())];
    let conclusion = implies(and(a, c), and(b, d));
    assert!(forces_cp(&premises, &conclusion));
}

#[test]
fn test_forces_cp_false() {
    // A, B ⊢ C⊃(A∧B) - premises DO entail A∧B, so CP is trivial
    let a = atom("P");
    let b = atom("Q");
    let c = atom("R");
    let premises = vec![a.clone(), b.clone()];
    let conclusion = implies(c, and(a, b));
    assert!(!forces_cp(&premises, &conclusion));
}

#[test]
fn test_forces_cp_not_conditional() {
    // P, P⊃Q ⊢ Q - conclusion is not conditional, so CP not forced
    let premises = vec![atom("P"), implies(atom("P"), atom("Q"))];
    let conclusion = atom("Q");
    assert!(!forces_cp(&premises, &conclusion));
}

#[test]
fn test_forces_case_split_true() {
    // A∨B, A⊃C, B⊃C ⊢ C - no ~A or ~B available
    let a = atom("P");
    let b = atom("Q");
    let c = atom("R");
    let premises = vec![or(a.clone(), b.clone()), implies(a, c.clone()), implies(b, c)];
    assert!(forces_case_split(&premises));
}

#[test]
fn test_forces_case_split_false() {
    // A∨B, ~A ⊢ B - DS works, no case split needed
    let a = atom("P");
    let b = atom("Q");
    let premises = vec![or(a.clone(), b), not(a)];
    assert!(!forces_case_split(&premises));
}

#[test]
fn test_forces_case_split_no_disjunction() {
    // P, P⊃Q ⊢ Q - no disjunction in premises
    let premises = vec![atom("P"), implies(atom("P"), atom("Q"))];
    assert!(!forces_case_split(&premises));
}

#[test]
fn test_rejects_tautological_premise() {
    // P⊃P, Q ⊢ Q - P⊃P is tautology
    let premises = vec![implies(atom("P"), atom("P")), atom("Q")];
    let conclusion = atom("Q");
    assert!(matches!(
        validate_theorem(&premises, &conclusion),
        Err(DegenerateProofError::TautologicalPremise)
    ));
}

#[test]
fn test_rejects_lem_premise() {
    // P∨~P, Q ⊢ Q - P∨~P is tautology
    let premises = vec![or(atom("P"), not(atom("P"))), atom("Q")];
    let conclusion = atom("Q");
    assert!(matches!(
        validate_theorem(&premises, &conclusion),
        Err(DegenerateProofError::TautologicalPremise)
    ));
}

#[test]
fn test_forces_ip_atom_not_directly_derivable() {
    // P⊃Q, Q⊃R ⊢ P (hypothetically - this is invalid but tests the function)
    // forces_ip checks structure, not validity
    let premises = vec![implies(atom("P"), atom("Q")), implies(atom("Q"), atom("R"))];
    let conclusion = atom("P");
    // P is not directly derivable from these premises via basic rules
    assert!(forces_ip(&premises, &conclusion));
}

#[test]
fn test_forces_ip_atom_directly_derivable() {
    // P, P⊃Q ⊢ Q - Q is derivable via MP
    let premises = vec![atom("P"), implies(atom("P"), atom("Q"))];
    let conclusion = atom("Q");
    // Q is directly derivable via MP
    assert!(!forces_ip(&premises, &conclusion));
}

#[test]
fn test_forces_ip_conditional_conclusion() {
    // ... ⊢ P⊃Q - conditionals use CP, not IP
    let premises = vec![atom("P")];
    let conclusion = implies(atom("P"), atom("Q"));
    assert!(!forces_ip(&premises, &conclusion));
}

#[test]
fn test_can_derive_directly_via_simp() {
    // P∧Q ⊢ P - derivable via Simp
    let premises = vec![and(atom("P"), atom("Q"))];
    let conclusion = atom("P");
    assert!(can_derive_directly(&premises, &conclusion));
}

#[test]
fn test_can_derive_directly_via_ds() {
    // P∨Q, ~P ⊢ Q - derivable via DS
    let premises = vec![or(atom("P"), atom("Q")), not(atom("P"))];
    let conclusion = atom("Q");
    assert!(can_derive_directly(&premises, &conclusion));
}

#[test]
fn test_can_derive_directly_via_mt() {
    // P⊃Q, ~Q ⊢ ~P - derivable via MT
    let premises = vec![implies(atom("P"), atom("Q")), not(atom("Q"))];
    let conclusion = not(atom("P"));
    assert!(can_derive_directly(&premises, &conclusion));
}

// === New Edge Case Tests ===

#[test]
fn test_forces_ip_with_negation_conclusion() {
    // For a negation conclusion like ~P, check forces_ip behavior
    // If ~P is not directly derivable, IP might be needed

    // P⊃Q ⊢ ~P (hypothetically invalid but tests structure)
    let premises = vec![implies(atom("P"), atom("Q"))];
    let conclusion = not(atom("P"));

    // ~P is not directly available via MT (need ~Q), so IP might be forced
    let result = forces_ip(&premises, &conclusion);
    // Since ~P can't be derived via basic rules from P⊃Q alone, should return true
    assert!(result, "forces_ip should return true when negation can't be directly derived");
}

#[test]
fn test_forces_case_split_multiple_disjunctions() {
    // Test with multiple disjunctions in premises
    // P∨Q, R∨S ⊢ X
    // Both disjunctions lack their negations, so case split is forced

    let p = atom("P");
    let q = atom("Q");
    let r = atom("R");
    let s = atom("S");

    let premises = vec![or(p, q), or(r, s)];

    // Should force case split because neither ~P/~Q nor ~R/~S is available
    assert!(forces_case_split(&premises));
}

#[test]
fn test_can_derive_directly_via_dn_elimination() {
    // ~~P ⊢ P - should be derivable via DN (recognized as direct availability)
    let premises = vec![not(not(atom("P")))];
    let conclusion = atom("P");

    // Note: can_derive_directly checks for DN in conclusion form (~~A where A is conclusion)
    // but here we have ~~P as premise and P as conclusion
    // This tests semantic equivalence - ~~P and P have the same truth table
    assert!(can_derive_directly(&premises, &conclusion),
        "P should be derivable from ~~P via semantic equivalence");
}

#[test]
fn test_biconditional_truth_table_computation() {
    // P ≡ Q should be equivalent to (P ⊃ Q) & (Q ⊃ P)
    let p = atom("P");
    let q = atom("Q");

    let biconditional = Formula::Biconditional(Box::new(p.clone()), Box::new(q.clone()));
    let expanded = and(
        implies(p.clone(), q.clone()),
        implies(q, p),
    );

    // Both should have the same truth table
    let bicon_tt = compute_truth_table(&biconditional);
    let expanded_tt = compute_truth_table(&expanded);

    assert_eq!(bicon_tt, expanded_tt,
        "P≡Q should have same truth table as (P⊃Q)&(Q⊃P)");

    // Also verify they are semantically equivalent
    assert!(are_equivalent(&biconditional, &expanded));
}

// === Dynamic Truth Table Tests ===

#[test]
fn test_dyn_tautology_simple() {
    // P | ~P is a tautology
    let lem = or(atom("P"), not(atom("P")));
    assert!(is_tautology_dynamic(&lem));
}

#[test]
fn test_dyn_not_tautology() {
    assert!(!is_tautology_dynamic(&atom("P")));
}

#[test]
fn test_dyn_agrees_with_u32() {
    // Test that dynamic engine agrees with u32 for standard atoms
    let formulas = vec![
        implies(atom("P"), atom("P")),
        implies(and(atom("P"), implies(atom("P"), atom("Q"))), atom("Q")),
        or(atom("P"), not(atom("P"))),
        and(atom("P"), not(atom("P"))),
    ];
    for f in &formulas {
        assert_eq!(
            is_tautology(f),
            compute_truth_table_dynamic(f).unwrap().is_tautology(),
            "Disagreement on: {:?}",
            f
        );
    }
}

#[test]
fn test_dyn_six_variables() {
    // A | ~A with a non-standard atom name should work dynamically
    let a = Formula::Atom("A".to_string());
    let b = Formula::Atom("B".to_string());
    let c = Formula::Atom("C".to_string());
    let d = Formula::Atom("D".to_string());
    let e = Formula::Atom("E".to_string());
    let f = Formula::Atom("F".to_string());

    // (A | ~A) is a tautology regardless of other atoms in a larger formula
    let taut = or(a.clone(), not(a.clone()));
    assert!(is_tautology_dynamic(&taut));

    // A & B & C & D & E & F is NOT a tautology
    let big_and = Formula::And(
        Box::new(Formula::And(
            Box::new(Formula::And(Box::new(a), Box::new(b))),
            Box::new(Formula::And(Box::new(c), Box::new(d))),
        )),
        Box::new(Formula::And(Box::new(e), Box::new(f))),
    );
    assert!(!is_tautology_dynamic(&big_and));
}

#[test]
fn test_dyn_modus_ponens_wrapped() {
    // (A & (A -> B)) -> B is a tautology for any atom names
    let a = Formula::Atom("X".to_string());
    let b = Formula::Atom("Y".to_string());
    let wrapped = implies(
        and(a.clone(), implies(a, b.clone())),
        b,
    );
    assert!(is_tautology_dynamic(&wrapped));
}
