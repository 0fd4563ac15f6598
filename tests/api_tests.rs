use logic_proof_trainer_lib::deduction::{Justification, Proof};
use logic_proof_trainer_lib::formula::Formula;
use logic_proof_trainer_lib::oracle::{validate_theorem_with_difficulty, DegenerateProofError};
use logic_proof_trainer_lib::parser::FormulaParser;
use logic_proof_trainer_lib::proof_search::{meets_difficulty, DifficultyRequirements};
use logic_proof_trainer_lib::rules::equivalence::EquivalenceRule;
use logic_proof_trainer_lib::rules::inference::InferenceRule;
use logic_proof_trainer_lib::rules::technique::{AssumptionType, ProofTechnique};
use logic_proof_trainer_lib::scope::ScopeManager;
use logic_proof_trainer_lib::theorem::{Difficulty, Theorem};

fn f(s: &str) -> Formula {
    Formula::parse(s).unwrap()
}

fn mp_theorem() -> Theorem {
    Theorem::new(vec![f("P -> Q"), f("P")], f("Q"), Difficulty::Easy, None, None)
}

#[test]
fn formula_accessors() {
    let g = f("~(P & Q)");
    assert!(g.is_negation());
    assert_eq!(g.negated_inner(), Some(&f("P & Q")));
    assert_eq!(f("P").negated_inner(), None);
    assert_eq!(f("P").negate(), f("~P"));
    assert_eq!(g.main_connective(), Some("~"));
    assert_eq!(f("P -> Q").main_connective(), Some("⊃"));
    assert_eq!(f("P").main_connective(), None);
    let shared = g.clone().shared();
    assert_eq!(Formula::from_shared(&shared), g);
    assert_eq!(f("(P & Q) -> ~R").depth(), 2);
    assert_eq!(f("P & Q").substitute("P", &f("R | S")), f("(R | S) & Q"));
    assert_eq!(f("(P & Q) -> R").ascii_string(), "P & Q -> R");
    assert_eq!(f("P -> (Q -> R)").ascii_string(), "P -> (Q -> R)");
    assert_eq!(f("~(P | Q)").ascii_string(), "~(P | Q)");
    assert_eq!(f("~~(P & Q)").display_string(), "~~(P . Q)");
    assert_eq!(f("P").truth_table(), 0xFFFF_0000);
}

#[test]
fn parser_object() {
    let mut p = FormulaParser::new("  P   <=> Q ");
    assert_eq!(p.parse().unwrap(), Formula::Biconditional(Box::new(f("P")), Box::new(f("Q"))));
    let mut p = FormulaParser::new("P )");
    let e = p.parse().unwrap_err();
    assert_eq!(e.position, 2);
    assert_eq!(e.describe(), "Parse error at position 2: Unexpected character: ')'");
}

#[test]
fn proof_line_bookkeeping() {
    let mut proof = Proof::new(mp_theorem());
    assert_eq!(proof.current_line_number(), 2);
    assert_eq!(proof.next_line_number(), 3);
    assert!(proof.remove_last_line().is_none());
    proof.open_subproof(f("R"), ProofTechnique::ConditionalProof);
    proof.add_line(f("Q"), Justification::Inference { rule: InferenceRule::ModusPonens, lines: vec![1, 2] });
    assert_eq!(proof.accessible_lines(), vec![1, 2, 3, 4]);
    proof.get_line_mut(4).unwrap().set_valid(false, Some("checked".to_string()));
    assert!(!proof.get_line(4).unwrap().is_valid);
    assert!(proof.get_line_mut(9).is_none());
    assert_eq!(proof.remove_last_line().unwrap().line_number, 4);
    assert_eq!(proof.remove_last_line().unwrap().line_number, 3);
    assert_eq!(proof.current_depth(), 0);
    assert!(!proof.scope_manager.has_open_scopes());
    assert_eq!(proof.lines[0].justification.display_string(), "Premise");
    let j = Justification::Inference { rule: InferenceRule::ModusPonens, lines: vec![1, 2] };
    assert_eq!(j.display_string(), "MP 1, 2");
    assert_eq!(j.referenced_lines(), vec![1, 2]);
    let c = Justification::SubproofConclusion { technique: ProofTechnique::IndirectProof, subproof_start: 3, subproof_end: 7 };
    assert_eq!(c.display_string(), "IP 3-7");
    assert_eq!(Justification::Assumption { technique: ProofTechnique::ConditionalProof }.display_string(), "Assumption (CP)");
}

#[test]
fn scope_manager_reset() {
    let mut m = ScopeManager::new();
    let id = m.open_scope(3, f("P"), ProofTechnique::ConditionalProof);
    assert_eq!(id, "scope-1");
    assert_eq!(m.get_scope("scope-1").unwrap().start_line, 3);
    assert_eq!(m.all_scopes().len(), 1);
    assert!(m.pop_scope(3).is_some());
    m.open_scope(4, f("Q"), ProofTechnique::IndirectProof);
    m.reset();
    assert!(m.all_scopes().is_empty());
    assert_eq!(m.open_scope(1, f("R"), ProofTechnique::ConditionalProof), "scope-1");
}

#[test]
fn rule_texts() {
    assert_eq!(InferenceRule::ConstructiveDilemma.abbreviation(), "CD");
    assert_eq!(EquivalenceRule::DeMorgan.name(), "DeMorgan's Theorem");
    assert!(ProofTechnique::IndirectProof.description().contains("contradiction"));
    assert_eq!(ProofTechnique::ConditionalProof.expected_assumption_type(), AssumptionType::Any);
    assert!(ProofTechnique::IndirectProof.requires_contradiction());
}

#[test]
fn apply_to_subformula_replaces_all_occurrences() {
    let g = f("(P -> Q) & (P -> Q)");
    let r = EquivalenceRule::Implication.apply_to_subformula(&g, &f("P -> Q"), &f("~P | Q"));
    assert_eq!(r, Some(f("(~P | Q) & (~P | Q)")));
    assert!(EquivalenceRule::Implication.apply_to_subformula(&g, &f("P -> Q"), &f("Q")).is_none());
}

#[test]
fn theorem_requirements() {
    let premises = vec![f("P -> Q"), f("Q -> R")];
    let c = f("P -> R");
    assert_eq!(validate_theorem_with_difficulty(&premises, &c, None, false, false, false), Ok(()));
    assert_eq!(
        validate_theorem_with_difficulty(&premises, &c, Some(5), false, false, false),
        Err(DegenerateProofError::TooEasy { min_steps: 5, actual_steps: 1 })
    );
    assert_eq!(validate_theorem_with_difficulty(&premises, &c, None, true, false, false), Ok(()));
    assert_eq!(
        validate_theorem_with_difficulty(&premises, &c, None, false, true, false),
        Err(DegenerateProofError::DoesNotForceCaseSplit)
    );
    assert_eq!(
        validate_theorem_with_difficulty(&premises, &c, None, false, false, true),
        Err(DegenerateProofError::DoesNotForceIP)
    );
    assert!(DegenerateProofError::TooEasy { min_steps: 5, actual_steps: 1 }.describe().contains("solvable in 1 steps"));
    assert!(!meets_difficulty(&premises, &c, &DifficultyRequirements::for_level("hard")));
}

#[test]
fn theorem_display() {
    assert_eq!(mp_theorem().display_string(), "P ⊃ Q, P ⊢ Q");
    let t = Theorem::new(vec![], f("P -> P"), Difficulty::Hard, None, None);
    assert_eq!(t.display_string(), "⊢ P ⊃ P");
    assert_eq!(t.difficulty_value, 58);
}
