use logic_proof_trainer_lib::checker::{ProofVerifier, VerificationResult};
use logic_proof_trainer_lib::deduction::{Justification, Proof, ProofLine};
use logic_proof_trainer_lib::formula::Formula;
use logic_proof_trainer_lib::rules::equivalence::EquivalenceRule;
use logic_proof_trainer_lib::rules::inference::InferenceRule;
use logic_proof_trainer_lib::rules::technique::ProofTechnique;
use logic_proof_trainer_lib::theorem::{Difficulty, Theorem};

// Helper functions
fn atom(name: &str) -> Formula {
    Formula::Atom(name.to_string())
}

fn not(f: Formula) -> Formula {
    Formula::Not(Box::new(f))
}

#[allow(dead_code)]
fn and(a: Formula, b: Formula) -> Formula {
    Formula::And(Box::new(a), Box::new(b))
}

fn or(a: Formula, b: Formula) -> Formula {
    Formula::Or(Box::new(a), Box::new(b))
}

fn implies(a: Formula, b: Formula) -> Formula {
    Formula::Implies(Box::new(a), Box::new(b))
}

fn make_mp_theorem() -> Theorem {
    Theorem::new(
        vec![
            Formula::parse("P -> Q").unwrap(),
            Formula::parse("P").unwrap(),
        ],
        Formula::parse("Q").unwrap(),
        Difficulty::Easy,
        None,
        Some("Test MP".to_string()),
    )
}

fn make_cd_theorem() -> Theorem {
    // Constructive Dilemma: (P -> Q) & (R -> S), P | R ⊢ Q | S
    Theorem::new(
        vec![
            Formula::parse("(P -> Q) & (R -> S)").unwrap(),
            Formula::parse("P | R").unwrap(),
        ],
        Formula::parse("Q | S").unwrap(),
        Difficulty::Medium,
        None,
        Some("Test CD".to_string()),
    )
}

// === VerificationResult Construction Tests ===

#[test]
fn test_verification_result_valid_has_no_message() {
    let result = VerificationResult::valid();
    assert!(result.is_valid);
    assert!(result.message.is_none());
}

#[test]
fn test_verification_result_invalid_captures_message() {
    let result = VerificationResult::invalid("Test error message".to_string());
    assert!(!result.is_valid);
    assert_eq!(result.message, Some("Test error message".to_string()));
}

// === Line Reference Error Tests ===

#[test]
fn test_verify_inference_forward_reference_rejected() {
    let theorem = make_mp_theorem();
    let mut proof = Proof::new(theorem);

    // Try to reference line 4 from line 3 (forward reference)
    proof.add_line(
        atom("Q"),
        Justification::Inference {
            rule: InferenceRule::ModusPonens,
            lines: vec![1, 4], // line 4 doesn't exist yet
        },
    );

    let result = ProofVerifier::verify_line(&proof.lines[2], &proof);
    assert!(!result.is_valid);
    assert!(result.message.as_ref().unwrap().contains("must reference earlier lines"));
}

#[test]
fn test_verify_inference_nonexistent_line_rejected() {
    let theorem = make_mp_theorem();
    let mut proof = Proof::new(theorem);

    // Try to reference line 100 which doesn't exist
    proof.add_line(
        atom("Q"),
        Justification::Inference {
            rule: InferenceRule::ModusPonens,
            lines: vec![1, 100],
        },
    );

    let result = ProofVerifier::verify_line(&proof.lines[2], &proof);
    assert!(!result.is_valid);
    // Either "must reference earlier lines" or "does not exist"
    let msg = result.message.as_ref().unwrap();
    assert!(msg.contains(&"earlier".to_string()) || msg.contains(&"exist".to_string()));
}

#[test]
fn test_verify_inference_inaccessible_scope_rejected() {
    let theorem = make_mp_theorem();
    let mut proof = Proof::new(theorem);

    // Open a subproof
    proof.open_subproof(atom("R"), ProofTechnique::ConditionalProof);

    // Add a line inside the subproof
    proof.add_line(
        atom("Q"),
        Justification::Inference {
            rule: InferenceRule::ModusPonens,
            lines: vec![1, 2],
        },
    );

    // Close the subproof
    proof.close_subproof(
        implies(atom("R"), atom("Q")),
        ProofTechnique::ConditionalProof,
    );

    // Try to reference line 4 (inside closed subproof) from line 6
    proof.add_line(
        atom("Q"),
        Justification::Inference {
            rule: InferenceRule::ModusPonens,
            lines: vec![1, 4], // line 4 is inside closed subproof
        },
    );

    let result = ProofVerifier::verify_line(proof.lines.last().unwrap(), &proof);
    assert!(!result.is_valid);
    assert!(result.message.as_ref().unwrap().contains("not accessible") ||
            result.message.as_ref().unwrap().contains(&"scope".to_string()));
}

#[test]
fn test_verify_inference_invalid_referenced_line_rejected() {
    let theorem = make_mp_theorem();
    let mut proof = Proof::new(theorem);

    // Add an invalid line first
    proof.add_line(
        atom("R"), // R doesn't follow from premises
        Justification::Inference {
            rule: InferenceRule::ModusPonens,
            lines: vec![1, 2],
        },
    );

    // Mark it as invalid
    proof.lines[2].is_valid = false;

    // Try to use the invalid line
    proof.add_line(
        or(atom("R"), atom("S")),
        Justification::Inference {
            rule: InferenceRule::Addition,
            lines: vec![3],
        },
    );

    let result = ProofVerifier::verify_line(&proof.lines[3], &proof);
    assert!(!result.is_valid);
    assert!(result.message.as_ref().unwrap().contains(&"invalid".to_string()));
}

// === Premise Count Validation Tests ===

#[test]
fn test_verify_inference_wrong_premise_count_mp() {
    let theorem = make_mp_theorem();
    let mut proof = Proof::new(theorem);

    // MP requires 2 premises, provide only 1
    proof.add_line(
        atom("Q"),
        Justification::Inference {
            rule: InferenceRule::ModusPonens,
            lines: vec![1], // only 1 line, MP needs 2
        },
    );

    let result = ProofVerifier::verify_line(&proof.lines[2], &proof);
    assert!(!result.is_valid);
    assert!(result.message.as_ref().unwrap().contains(&"requires".to_string()));
    assert!(result.message.as_ref().unwrap().contains(&"premise".to_string()));
}

#[test]
fn test_verify_inference_wrong_premise_count_cd() {
    let theorem = make_cd_theorem();
    let mut proof = Proof::new(theorem);

    // CD requires 4 premises, provide only 2
    proof.add_line(
        or(atom("Q"), atom("S")),
        Justification::Inference {
            rule: InferenceRule::ConstructiveDilemma,
            lines: vec![1, 2], // only 2 lines, CD needs 4
        },
    );

    let result = ProofVerifier::verify_line(&proof.lines[2], &proof);
    assert!(!result.is_valid);
    assert!(result.message.as_ref().unwrap().contains(&"requires".to_string()));
}

// === Equivalence Rule Verification Tests ===

#[test]
fn test_verify_equivalence_forward_reference_rejected() {
    let theorem = Theorem::new(
        vec![atom("P")],
        not(not(atom("P"))),
        Difficulty::Easy,
        None,
        None,
    );
    let mut proof = Proof::new(theorem);

    // Try to reference line 5 from line 2 (forward reference)
    proof.add_line(
        not(not(atom("P"))),
        Justification::Equivalence {
            rule: EquivalenceRule::DoubleNegation,
            line: 5, // doesn't exist
        },
    );

    let result = ProofVerifier::verify_line(&proof.lines[1], &proof);
    assert!(!result.is_valid);
    assert!(result.message.as_ref().unwrap().contains(&"earlier".to_string()));
}

#[test]
fn test_verify_equivalence_case_sensitivity_hint() {
    let theorem = Theorem::new(
        vec![atom("P")],
        atom("p"), // lowercase p - different from P
        Difficulty::Easy,
        None,
        None,
    );
    let mut proof = Proof::new(theorem);

    // Try to derive 'p' from 'P' using DN (should fail with case sensitivity hint)
    proof.add_line(
        atom("p"),
        Justification::Equivalence {
            rule: EquivalenceRule::DoubleNegation,
            line: 1,
        },
    );

    let result = ProofVerifier::verify_line(&proof.lines[1], &proof);
    assert!(!result.is_valid);
    // Should provide helpful case-sensitivity message
    let msg = result.message.as_ref().unwrap();
    assert!(msg.contains(&"case".to_string()) || msg.contains("Cannot derive"));
}

// === Subproof Conclusion Verification Tests ===

#[test]
fn test_verify_subproof_conclusion_technique_mismatch() {
    let theorem = make_mp_theorem();
    let mut proof = Proof::new(theorem);

    // Open a CP subproof
    proof.open_subproof(atom("R"), ProofTechnique::ConditionalProof);

    // Add a line inside
    proof.add_line(
        atom("Q"),
        Justification::Inference {
            rule: InferenceRule::ModusPonens,
            lines: vec![1, 2],
        },
    );

    // Close with wrong technique (IP instead of CP)
    let line_number = proof.next_line_number();
    let depth = proof.current_depth() - 1;

    proof.lines.push(ProofLine::new(
        line_number,
        not(atom("R")), // IP conclusion format
        Justification::SubproofConclusion {
            technique: ProofTechnique::IndirectProof, // Wrong technique!
            subproof_start: 3,
            subproof_end: 4,
        },
        depth,
        None,
    ));

    let result = ProofVerifier::verify_line(proof.lines.last().unwrap(), &proof);
    assert!(!result.is_valid);
    assert!(result.message.as_ref().unwrap().contains(&"technique".to_string()) ||
            result.message.as_ref().unwrap().contains(&"match".to_string()));
}

#[test]
fn test_verify_subproof_conclusion_inaccessible_subproof() {
    let theorem = make_mp_theorem();
    let mut proof = Proof::new(theorem);

    // Open a subproof
    proof.open_subproof(atom("R"), ProofTechnique::ConditionalProof);
    proof.add_line(
        atom("Q"),
        Justification::Inference {
            rule: InferenceRule::ModusPonens,
            lines: vec![1, 2],
        },
    );
    proof.close_subproof(
        implies(atom("R"), atom("Q")),
        ProofTechnique::ConditionalProof,
    );

    // Try to close a non-existent subproof range
    let line_number = proof.next_line_number();
    proof.lines.push(ProofLine::new(
        line_number,
        implies(atom("X"), atom("Y")),
        Justification::SubproofConclusion {
            technique: ProofTechnique::ConditionalProof,
            subproof_start: 100, // doesn't exist
            subproof_end: 101,
        },
        0,
        None,
    ));

    let result = ProofVerifier::verify_line(proof.lines.last().unwrap(), &proof);
    assert!(!result.is_valid);
    assert!(result.message.as_ref().unwrap().contains("does not exist") ||
            result.message.as_ref().unwrap().contains("not accessible"));
}

// === Full Proof Verification Tests ===

#[test]
fn test_verify_proof_marks_all_lines_valid_or_invalid() {
    let theorem = make_mp_theorem();
    let mut proof = Proof::new(theorem);

    // Add valid MP conclusion
    proof.add_line(
        atom("Q"),
        Justification::Inference {
            rule: InferenceRule::ModusPonens,
            lines: vec![1, 2],
        },
    );

    // Add invalid line
    proof.add_line(
        atom("R"), // R doesn't follow
        Justification::Inference {
            rule: InferenceRule::ModusPonens,
            lines: vec![1, 2],
        },
    );

    ProofVerifier::verify_proof(&mut proof);

    // Check all lines have been validated
    assert!(proof.lines[0].is_valid); // Premise
    assert!(proof.lines[1].is_valid); // Premise
    assert!(proof.lines[2].is_valid); // Valid MP
    assert!(!proof.lines[3].is_valid); // Invalid - R doesn't follow
    assert!(proof.lines[3].validation_message.is_some());
}

#[test]
fn test_verify_premise() {
    let theorem = make_mp_theorem();
    let proof = Proof::new(theorem);

    let result = ProofVerifier::verify_line(&proof.lines[0], &proof);
    assert!(result.is_valid);
}

#[test]
fn test_verify_modus_ponens() {
    let theorem = make_mp_theorem();
    let mut proof = Proof::new(theorem);

    // Add MP conclusion
    proof.add_line(
        Formula::parse("Q").unwrap(),
        Justification::Inference {
            rule: InferenceRule::ModusPonens,
            lines: vec![1, 2],
        },
    );

    let result = ProofVerifier::verify_line(&proof.lines[2], &proof);
    assert!(result.is_valid);
}

#[test]
fn test_verify_invalid_mp() {
    let theorem = make_mp_theorem();
    let mut proof = Proof::new(theorem);

    // Try to derive R (which doesn't follow)
    proof.add_line(
        Formula::parse("R").unwrap(),
        Justification::Inference {
            rule: InferenceRule::ModusPonens,
            lines: vec![1, 2],
        },
    );

    let result = ProofVerifier::verify_line(&proof.lines[2], &proof);
    assert!(!result.is_valid);
}

#[test]
fn test_verify_double_negation_equiv() {
    let theorem = Theorem::new(
        vec![Formula::parse("P").unwrap()],
        Formula::parse("~~P").unwrap(),
        Difficulty::Easy,
        None,
        None,
    );
    let mut proof = Proof::new(theorem);

    proof.add_line(
        Formula::parse("~~P").unwrap(),
        Justification::Equivalence {
            rule: EquivalenceRule::DoubleNegation,
            line: 1,
        },
    );

    let result = ProofVerifier::verify_line(&proof.lines[1], &proof);
    assert!(result.is_valid);
}

#[test]
fn test_verify_ip_close_with_contradiction_symbol() {
    // Simulates user's scenario:
    // 1. P ⊃ Q           Premise
    // 2. P               Premise
    //    3. ~(R ∨ S) · (R ∨ S)  Assumption (IP)
    //       4. Q               MP 1, 2
    //       5. R ∨ S           Simp 3
    //       6. ~(R ∨ S)        Simp 3
    //       7. ⊥               NegE 5, 6
    // 8. ~[~(R ∨ S) · (R ∨ S)] IP 3-7

    let theorem = make_mp_theorem();
    let mut proof = Proof::new(theorem);

    // Open IP subproof with assumption ~(R | S) & (R | S)
    let assumption = Formula::parse("~(R | S) & (R | S)").unwrap();
    proof.open_subproof(assumption.clone(), ProofTechnique::IndirectProof);

    // Line 4: Q via MP 1, 2
    proof.add_line(
        Formula::parse("Q").unwrap(),
        Justification::Inference {
            rule: InferenceRule::ModusPonens,
            lines: vec![1, 2],
        },
    );

    // Line 5: R | S via Simp 3
    proof.add_line(
        Formula::parse("R | S").unwrap(),
        Justification::Inference {
            rule: InferenceRule::Simplification,
            lines: vec![3],
        },
    );

    // Line 6: ~(R | S) via Simp 3
    proof.add_line(
        Formula::parse("~(R | S)").unwrap(),
        Justification::Inference {
            rule: InferenceRule::Simplification,
            lines: vec![3],
        },
    );

    // Line 7: ⊥ via NegE 5, 6
    proof.add_line(
        Formula::Contradiction,
        Justification::Inference {
            rule: InferenceRule::Contradiction,
            lines: vec![5, 6],
        },
    );

    // Close subproof with conclusion ~[~(R | S) & (R | S)]
    let conclusion = Formula::parse("~[~(R | S) & (R | S)]").unwrap();
    proof.close_subproof(conclusion.clone(), ProofTechnique::IndirectProof);

    // Verify the conclusion line (last line)
    let last_idx = proof.lines.len() - 1;
    let result = ProofVerifier::verify_line(&proof.lines[last_idx], &proof);
    
    if !result.is_valid {
        println!("Verification failed: {:?}", result.message);
        println!("Last line: {:?}", proof.lines[last_idx]);
        println!("Scope manager: {:?}", proof.scope_manager);
    }
    
    assert!(result.is_valid, "IP close verification should succeed. Error: {:?}", result.message);
}
