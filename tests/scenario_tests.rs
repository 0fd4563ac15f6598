use logic_proof_trainer_lib::checker::ProofVerifier;
use logic_proof_trainer_lib::deduction::{Justification, Proof};
use logic_proof_trainer_lib::dyn_table::{compute_truth_table_dynamic, is_tautology_dynamic, DynTruthTable};
use logic_proof_trainer_lib::formula::Formula;
use logic_proof_trainer_lib::obfuscate::ObfuscateGenerator;
use logic_proof_trainer_lib::oracle::{entails, validate_theorem, DegenerateProofError};
use logic_proof_trainer_lib::rules::equivalence::EquivalenceRule;
use logic_proof_trainer_lib::rules::inference::InferenceRule;
use logic_proof_trainer_lib::rules::technique::ProofTechnique;
use logic_proof_trainer_lib::scope::ScopeManager;
use logic_proof_trainer_lib::theorem::{
    difficulty_label, BaseComplexity, Difficulty, DifficultySpec, DifficultyTier, Theorem,
};
use logic_proof_trainer_lib::truth_table::{are_equivalent, compute_truth_table, is_tautology};
use logic_proof_trainer_lib::wire::{parse_justification, validate_proof, ProofInput};

fn f(s: &str) -> Formula {
    Formula::parse(s).unwrap()
}

fn theorem(premises: &[&str], conclusion: &str) -> Theorem {
    Theorem::new(
        premises.iter().map(|p| f(p)).collect(),
        f(conclusion),
        Difficulty::Easy,
        None,
        None,
    )
}

#[test]
fn mp_round_trip() {
    let premises = vec![f("P -> Q"), f("P")];
    assert!(validate_theorem(&premises, &f("Q")).is_ok());
    let mut proof = Proof::new(theorem(&["P -> Q", "P"], "Q"));
    proof.add_line(f("Q"), Justification::Inference { rule: InferenceRule::ModusPonens, lines: vec![1, 2] });
    ProofVerifier::verify_proof(&mut proof);
    assert!(proof.lines[2].is_valid);
    assert!(proof.check_complete());
}

#[test]
fn degenerate_premises_rejected() {
    let premises = vec![f("P"), f("~P")];
    assert_eq!(validate_theorem(&premises, &f("Q")), Err(DegenerateProofError::ContradictoryPremises));
}

#[test]
fn single_premise_trivial_rejected() {
    let premises = vec![f("P"), f("Q")];
    assert_eq!(validate_theorem(&premises, &f("P")), Err(DegenerateProofError::SinglePremiseEntails));
}

#[test]
fn semantic_double_negation_rejected() {
    let premises = vec![f("P")];
    assert_eq!(validate_theorem(&premises, &f("~~P")), Err(DegenerateProofError::SinglePremiseEntails));
}

#[test]
fn other_degeneracies_each_reported() {
    assert_eq!(validate_theorem(&[f("P | ~P"), f("Q")], &f("R")), Err(DegenerateProofError::TautologicalPremise));
    assert_eq!(validate_theorem(&[f("P")], &f("Q | ~Q")), Err(DegenerateProofError::TautologicalConclusion));
    assert_eq!(validate_theorem(&[f("P & Q"), f("~R")], &f("R -> S")), Err(DegenerateProofError::SinglePremiseEntails));
    assert_eq!(validate_theorem(&[f("P -> Q"), f("Q -> R"), f("P -> R")], &f("~P | R")), Err(DegenerateProofError::SinglePremiseEntails));
    assert_eq!(validate_theorem(&[f("P -> Q"), f("~P | Q"), f("P")], &f("Q")), Err(DegenerateProofError::RedundantPremises));
    assert_eq!(validate_theorem(&[f("P"), f("Q")], &f("R")), Err(DegenerateProofError::UnnecessaryPremise));
    assert_eq!(validate_theorem(&[f("P -> Q"), f("P"), f("R")], &f("Q")), Err(DegenerateProofError::UnnecessaryPremise));
}

#[test]
fn obfuscation_preserves_truth() {
    let spec = DifficultySpec {
        variables: 5,
        passes: 1,
        transforms_per_pass: 10,
        base_complexity: BaseComplexity::Complex,
        substitution_depth: 2,
        max_formula_nodes: None,
        max_formula_depth: None,
        bridge_atoms: Some(0),
        gnarly_combos: None,
    };
    for _ in 0..5 {
        let t = ObfuscateGenerator::generate_with_spec(&spec);
        assert!(t.premises.is_empty());
        assert!(is_tautology_dynamic(&t.conclusion));
        assert!(t.conclusion.atoms().len() >= 3);
    }
}

#[test]
fn generated_tier_theorems_are_tautologies() {
    for tier in [DifficultyTier::Baby, DifficultyTier::Easy, DifficultyTier::Medium, DifficultyTier::Hard, DifficultyTier::Expert] {
        let t = ObfuscateGenerator::generate_with_tier(tier);
        assert!(is_tautology_dynamic(&t.conclusion));
        assert_eq!(t.tier, Some(tier));
    }
}

#[test]
fn generated_theorem_is_rejected_as_tautological_conclusion() {
    let t = ObfuscateGenerator::generate_with_tier(DifficultyTier::Medium);
    assert_eq!(validate_theorem(&t.premises, &t.conclusion), Err(DegenerateProofError::TautologicalConclusion));
}

#[test]
fn ip_close_with_contradiction() {
    let mut proof = Proof::new(theorem(&["P -> Q", "P"], "Q"));
    proof.open_subproof(f("~(R | S) & (R | S)"), ProofTechnique::IndirectProof);
    proof.add_line(f("R | S"), Justification::Inference { rule: InferenceRule::Simplification, lines: vec![3] });
    proof.add_line(f("~(R | S)"), Justification::Inference { rule: InferenceRule::Simplification, lines: vec![3] });
    proof.add_line(f("(R | S) & ~(R | S)"), Justification::Inference { rule: InferenceRule::Conjunction, lines: vec![4, 5] });
    let auto = proof.get_auto_close_conclusion().unwrap();
    assert_eq!(auto.1, f("~[~(R | S) & (R | S)]"));
    proof.close_subproof(f("~[~(R | S) & (R | S)]"), ProofTechnique::IndirectProof).unwrap();
    let last = proof.lines.len() - 1;
    let result = ProofVerifier::verify_line(&proof.lines[last], &proof);
    assert!(result.is_valid, "{:?}", result.message);
}

#[test]
fn forward_reference_rejected() {
    let mut proof = Proof::new(theorem(&["P -> Q", "P"], "Q"));
    proof.add_line(f("Q"), Justification::Inference { rule: InferenceRule::ModusPonens, lines: vec![1, 4] });
    let result = ProofVerifier::verify_line(&proof.lines[2], &proof);
    assert!(!result.is_valid);
    assert!(result.message.unwrap().contains("must reference earlier lines"));
}

#[test]
fn bracketed_form_parses_back() {
    for s in [
        "P", "~P", "~~P", "_|_", "P & Q", "(P | Q) & ((~R -> ~P) & R)", "((P | Q) & R) -> S",
        "P -> (Q -> R)", "(P -> Q) -> R", "~[~(R | S) & (R | S)]",
        "(((P & Q) | R) -> S) & ~T", "~~(A1 & ~B_2) | C'",
    ] {
        let g = f(s);
        assert_eq!(Formula::parse(&g.ascii_string_bracketed()).unwrap(), g, "{}", s);
    }
}

#[test]
fn bracketed_biconditional_is_read_back() {
    for s in ["P <-> Q", "~(P & Q) <-> (~P | ~Q)", "(((P & Q) | R) -> S) <-> ~T", "(P <-> Q) <-> R"] {
        let g = f(s);
        assert_eq!(Formula::parse(&g.ascii_string_bracketed()).unwrap(), g, "{}", s);
    }
    assert_eq!(f("P <-> Q").ascii_string_bracketed(), "P <> Q");
}

#[test]
fn entailment_over_any_atoms() {
    assert!(!entails(&[f("A")], &f("B")));
    assert!(entails(&[f("A"), f("A -> B")], &f("B")));
    assert!(!entails(&[f("P")], &f("X")));
    assert!(!are_equivalent(&f("A"), &f("P")));
    assert!(is_tautology(&f("X1 | ~X1")));
}

#[test]
fn parentless_subproof_reachable_from_later_lines() {
    let mut m = ScopeManager::new();
    m.open_scope(3, f("P"), ProofTechnique::ConditionalProof);
    m.close_scope(6);
    m.open_scope(7, f("Q"), ProofTechnique::ConditionalProof);
    assert!(m.is_subproof_accessible(8, 3, 6));
}

#[test]
fn blank_input_is_rejected() {
    assert!(Formula::parse("").is_err());
    assert!(Formula::parse("   \t ").is_err());
}

#[test]
fn replace_at_own_path_is_identity() {
    let g = f("(P | Q) & ((~R -> ~P) & (P | Q))");
    let paths = g.subformulas_with_paths();
    assert_eq!(paths.len(), 13);
    for (path, node) in &paths {
        assert_eq!(g.replace_at_path(path, node), g);
    }
    let (path, _) = &paths[1];
    let replaced = g.replace_at_path(path, &f("T"));
    assert_eq!(replaced, f("T & ((~R -> ~P) & (P | Q))"));
}

#[test]
fn equivalence_forms_keep_truth_tables() {
    let samples = [
        "P", "~~P", "~(P & Q)", "~P | ~Q", "(P & Q) & R", "P | (Q & R)", "(P & Q) | (P & R)",
        "P -> Q", "~Q -> ~P", "(P & Q) -> R", "P -> (Q -> R)", "P <-> Q", "(P -> Q) & (Q -> P)",
        "P & P", "(P | Q) & (P | R)", "~(P | Q)", "~P & ~Q",
    ];
    for s in samples {
        let g = f(s);
        for rule in EquivalenceRule::all() {
            for h in rule.equivalent_forms(&g) {
                assert!(are_equivalent(&g, &h), "{:?} on {}", rule, s);
            }
        }
    }
}

#[test]
fn dynamic_table_agrees_with_words() {
    for s in ["P -> P", "P & ~P", "(P & (P -> Q)) -> Q", "P | Q", "(P -> Q) | (Q -> R)", "((P <-> Q) & (Q <-> R)) -> (P <-> R)", "S & T -> S"] {
        let g = f(s);
        let dynamic = compute_truth_table_dynamic(&g).unwrap();
        assert_eq!(is_tautology(&g), dynamic.is_tautology(), "{}", s);
        assert_eq!(compute_truth_table(&g) == 0, dynamic.is_contradiction(), "{}", s);
    }
}

#[test]
fn dynamic_table_columns() {
    let a = DynTruthTable::new_var(0, 2);
    let b = DynTruthTable::new_var(1, 2);
    assert!(!a.and(&b).is_tautology());
    assert!(a.or(&a.not()).is_tautology());
    assert!(a.and(&a.not()).is_contradiction());
    assert!(a.implies(&a.or(&b)).is_tautology());
    assert!(a.biconditional(&a).is_tautology());
    assert!(DynTruthTable::tautology(7).is_tautology());
    assert!(DynTruthTable::contradiction(7).is_contradiction());
    assert!(a.eq(&DynTruthTable::new_var(0, 2)));
    assert!(!a.eq(&b));
    let many = DynTruthTable::new_var(6, 7);
    assert!(!many.is_tautology() && !many.is_contradiction());
}

#[test]
fn more_than_twenty_atoms_refused() {
    let mut g = Formula::Atom("A0".to_string());
    for i in 1..21 {
        g = Formula::Or(Box::new(g), Box::new(Formula::Atom(format!("A{}", i))));
    }
    assert!(compute_truth_table_dynamic(&g).is_none());
    assert!(!is_tautology_dynamic(&g));
}

#[test]
fn verify_matches_all_conclusions() {
    let p = f("P");
    let pq = f("P -> Q");
    let candidates = [f("Q"), f("P"), f("~P"), f("P & Q"), f("_|_")];
    for rule in InferenceRule::all() {
        let all = rule.all_conclusions(&[&pq, &p], None);
        for c in &candidates {
            assert_eq!(rule.verify(&[&pq, &p], c, None), all.contains(c));
        }
    }
}

#[test]
fn accessible_lines_respect_closed_scopes() {
    let mut m = ScopeManager::new();
    m.open_scope(2, f("P"), ProofTechnique::ConditionalProof);
    m.open_scope(3, f("Q"), ProofTechnique::ConditionalProof);
    m.close_scope(4);
    assert!(m.is_accessible(5, 2));
    assert!(!m.is_accessible(5, 3));
    assert!(!m.is_accessible(5, 4));
    assert!(!m.is_accessible(2, 2));
    assert!(!m.is_accessible(2, 5));
    assert_eq!(m.depth_at_line(3), 2);
    assert!(m.is_subproof_accessible(5, 3, 4));
    assert!(!m.is_subproof_accessible(5, 2, 4));
}

#[test]
fn case_sensitivity_hint() {
    let mut proof = Proof::new(theorem(&["P -> Q"], "~Q -> ~P"));
    proof.add_line(f("~q -> ~p"), Justification::Equivalence { rule: EquivalenceRule::Contraposition, line: 1 });
    let result = ProofVerifier::verify_line(&proof.lines[1], &proof);
    assert!(!result.is_valid);
    assert!(result.message.unwrap().contains("case-sensitive"));
}

#[test]
fn fresh_ids_differ() {
    let a = theorem(&["P"], "P");
    let b = theorem(&["P"], "P");
    assert_ne!(a.id, b.id);
    assert_eq!(a.id.len(), 36);
}

#[test]
fn justification_strings() {
    assert!(matches!(parse_justification("Premise"), Ok(Justification::Premise)));
    assert!(matches!(parse_justification("  pr "), Ok(Justification::Premise)));
    assert!(matches!(parse_justification("Assumption (IP)"), Ok(Justification::Assumption { technique: ProofTechnique::IndirectProof })));
    assert!(matches!(parse_justification("Assumption (CP)"), Ok(Justification::Assumption { technique: ProofTechnique::ConditionalProof })));
    assert!(matches!(parse_justification("CP 2-5"), Ok(Justification::SubproofConclusion { technique: ProofTechnique::ConditionalProof, subproof_start: 2, subproof_end: 5 })));
    assert!(matches!(parse_justification("ip 3 - 7"), Ok(Justification::SubproofConclusion { technique: ProofTechnique::IndirectProof, subproof_start: 3, subproof_end: 7 })));
    match parse_justification("MP 1,2") {
        Ok(Justification::Inference { rule, lines }) => {
            assert_eq!(rule, InferenceRule::ModusPonens);
            assert_eq!(lines, vec![1, 2]);
        }
        _ => panic!("MP 1,2"),
    }
    match parse_justification("simp3") {
        Ok(Justification::Inference { rule, lines }) => {
            assert_eq!(rule, InferenceRule::Simplification);
            assert_eq!(lines, vec![3]);
        }
        _ => panic!("simp3"),
    }
    assert!(matches!(parse_justification("DeM 5"), Ok(Justification::Equivalence { rule: EquivalenceRule::DeMorgan, line: 5 })));
    assert_eq!(parse_justification("Simp").unwrap_err(), "Missing line numbers for Simp");
    assert_eq!(parse_justification("DN x").unwrap_err(), "Invalid line number for DN: 'x'");
    assert_eq!(parse_justification("MP 1,a").unwrap_err(), "Invalid line number: 'a'");
    assert_eq!(parse_justification("Foo 1").unwrap_err(), "Unrecognized justification: 'Foo 1'");
    assert!(parse_justification("MPX 1").is_err());
    assert!(parse_justification("DN 99999999999999999999999").is_err());
}

#[test]
fn justification_written_then_read() {
    let all = vec![
        Justification::Premise,
        Justification::Assumption { technique: ProofTechnique::ConditionalProof },
        Justification::Assumption { technique: ProofTechnique::IndirectProof },
        Justification::Inference { rule: InferenceRule::ConstructiveDilemma, lines: vec![4, 12, 7] },
        Justification::Inference { rule: InferenceRule::Conjunction, lines: vec![1] },
        Justification::Equivalence { rule: EquivalenceRule::Contraposition, line: 10 },
        Justification::SubproofConclusion { technique: ProofTechnique::IndirectProof, subproof_start: 3, subproof_end: 21 },
    ];
    for j in all {
        let text = j.display_string();
        let back = parse_justification(&text).unwrap();
        assert_eq!(back.display_string(), text);
    }
    match parse_justification(&Justification::Inference { rule: InferenceRule::ConstructiveDilemma, lines: vec![4, 12, 7] }.display_string()) {
        Ok(Justification::Inference { rule, lines }) => {
            assert_eq!(rule, InferenceRule::ConstructiveDilemma);
            assert_eq!(lines, vec![4, 12, 7]);
        }
        _ => panic!("CD 4, 12, 7"),
    }
}

#[test]
fn replayed_proof_report() {
    let t = theorem(&["P -> Q", "P"], "Q");
    let input = vec![ProofInput { line_number: 3, formula: "Q".to_string(), justification: "MP 1,2".to_string(), depth: 0 }];
    let report = validate_proof(t, &input);
    assert!(report.valid);
    assert_eq!(report.line_count, 1);
    assert!(report.errors.is_empty());

    let t = theorem(&["P -> Q", "P"], "Q");
    let input = vec![ProofInput { line_number: 3, formula: "Q".to_string(), justification: "MT 1,2".to_string(), depth: 0 }];
    let report = validate_proof(t, &input);
    assert!(!report.valid);
    assert!(report.errors[0].starts_with("Line 3: "));
}

#[test]
fn parse_limits() {
    let long = "P".repeat(10001);
    let e = Formula::parse(&long).unwrap_err();
    assert_eq!(e.position, 0);
    let deep = format!("{}P{}", "(".repeat(150), ")".repeat(150));
    assert!(Formula::parse(&deep).is_err());
    assert!(Formula::parse("P &").is_err());
    assert!(Formula::parse("(P").is_err());
    assert!(Formula::parse("P Q").is_err());
}

#[test]
fn labels_and_tiers() {
    assert_eq!(difficulty_label(10), "Easy");
    assert_eq!(difficulty_label(90), "Nightmare");
    assert_eq!(difficulty_label(100), "Marathon");
    assert_eq!(DifficultyTier::from_str("NightMare"), Some(DifficultyTier::Nightmare));
    assert_eq!(DifficultyTier::from_str("nope"), None);
    let s = DifficultySpec::from_difficulty_value(90);
    assert_eq!((s.variables, s.transforms_per_pass, s.substitution_depth), (5, 17, 2));
}

#[test]
fn dynamic_table_orders_variables_by_code_point() {
    let g = f("Q & ~B");
    let t = compute_truth_table_dynamic(&g).unwrap();
    let expected = DynTruthTable::new_var(1, 2).and(&DynTruthTable::new_var(0, 2).not());
    let swapped = DynTruthTable::new_var(0, 2).and(&DynTruthTable::new_var(1, 2).not());
    assert!(t.eq(&expected));
    assert!(!t.eq(&swapped));
}
