use logic_proof_trainer_lib::formula::Formula;
use logic_proof_trainer_lib::obfuscate::{
    build_atom_pool, count_leading_negations, simplify_negations, ObfuscateConfig,
    ObfuscateGenerator,
};
use logic_proof_trainer_lib::theorem::{Difficulty, DifficultySpec, DifficultyTier};
use logic_proof_trainer_lib::truth_table::is_tautology;

#[test]
fn test_config_easy() {
    let config = ObfuscateConfig::for_difficulty_value(10);
    assert_eq!(config.difficulty, Difficulty::Easy);
    assert!(config.transform_count <= 3, "Easy should have 1-3 transforms, got {}", config.transform_count);
    assert_eq!(config.atom_pool.len(), 2);
}

#[test]
fn test_config_expert() {
    let config = ObfuscateConfig::for_difficulty_value(80);
    assert_eq!(config.difficulty, Difficulty::Expert);
    assert!(config.transform_count >= 11, "Expert should have 11+ transforms, got {}", config.transform_count);
    assert!(config.atom_pool.len() >= 4, "Expert (80) should have 4 atoms");
}

#[test]
fn test_config_nightmare() {
    let config = ObfuscateConfig::for_difficulty_value(90);
    assert_eq!(config.difficulty, Difficulty::Expert); // Still maps to Expert preset
    assert!(config.transform_count >= 16, "Nightmare should have 16+ transforms, got {}", config.transform_count);
    assert_eq!(config.atom_pool.len(), 5, "Nightmare (90) should have 5 atoms");
}

#[test]
fn test_config_marathon() {
    let config = ObfuscateConfig::for_difficulty_value(98);
    assert_eq!(config.difficulty, Difficulty::Expert); // Still maps to Expert preset
    assert!(config.transform_count >= 20, "Marathon should have 20+ transforms, got {}", config.transform_count);
    assert_eq!(config.atom_pool.len(), 5, "Marathon should have 5 atoms");
}

#[test]
fn test_difficulty_scaling_progression() {
    // Verify transform counts increase with difficulty
    let configs: Vec<_> = [10, 30, 50, 75, 90, 98]
        .iter()
        .map(|&d| (d, ObfuscateConfig::for_difficulty_value(d)))
        .collect();

    for window in configs.windows(2) {
        let (d1, c1) = &window[0];
        let (d2, c2) = &window[1];
        assert!(
            c2.transform_count >= c1.transform_count,
            "Transforms should increase: d={} has {}, d={} has {}",
            d1, c1.transform_count, d2, c2.transform_count
        );
    }
}

#[test]
fn test_wrap_as_conditional() {
    let config = ObfuscateConfig::for_difficulty_value(50);
    let gen = ObfuscateGenerator::new(config);

    let p = Formula::Atom("P".to_string());
    let q = Formula::Atom("Q".to_string());

    // P, P→Q ⊢ Q becomes (P ∧ (P→Q)) → Q
    let premises = vec![
        p.clone(),
        Formula::Implies(Box::new(p.clone()), Box::new(q.clone())),
    ];
    let wrapped = gen.wrap_as_conditional(&premises, &q);

    // The wrapped formula should be a tautology
    assert!(is_tautology(&wrapped));
}

#[test]
fn test_simplify_negations() {
    let p = Formula::Atom("P".to_string());

    // ~~P → P
    let double_neg = Formula::Not(Box::new(Formula::Not(Box::new(p.clone()))));
    let simplified = simplify_negations(double_neg);
    assert_eq!(simplified, p);

    // ~~~~P → P
    let quad_neg = Formula::Not(Box::new(Formula::Not(Box::new(
        Formula::Not(Box::new(Formula::Not(Box::new(p.clone()))))
    ))));
    let simplified = simplify_negations(quad_neg);
    assert_eq!(simplified, p);

    // ~~~P → ~P
    let triple_neg = Formula::Not(Box::new(Formula::Not(Box::new(
        Formula::Not(Box::new(p.clone()))
    ))));
    let simplified = simplify_negations(triple_neg);
    assert_eq!(simplified, Formula::Not(Box::new(p.clone())));

    // Nested: ~~(P ∧ ~~Q) → (P ∧ Q)
    let q = Formula::Atom("Q".to_string());
    let nested = Formula::Not(Box::new(Formula::Not(Box::new(
        Formula::And(
            Box::new(p.clone()),
            Box::new(Formula::Not(Box::new(Formula::Not(Box::new(q.clone())))))
        )
    ))));
    let simplified = simplify_negations(nested);
    assert_eq!(simplified, Formula::And(Box::new(p), Box::new(q)));
}

#[test]
fn test_count_leading_negations() {
    let p = Formula::Atom("P".to_string());
    assert_eq!(count_leading_negations(&p), 0);

    let neg_p = Formula::Not(Box::new(p.clone()));
    assert_eq!(count_leading_negations(&neg_p), 1);

    let double_neg = Formula::Not(Box::new(Formula::Not(Box::new(p.clone()))));
    assert_eq!(count_leading_negations(&double_neg), 2);

    let triple_neg = Formula::Not(Box::new(Formula::Not(Box::new(
        Formula::Not(Box::new(p.clone()))
    ))));
    assert_eq!(count_leading_negations(&triple_neg), 3);
}

#[test]
fn test_substitution_config_scaling() {
    // Low difficulty: no substitution
    let low_config = ObfuscateConfig::for_difficulty_value(50);
    assert_eq!(low_config.substitution_depth, 0, "Low difficulty should have no substitution");

    // Medium-high difficulty: simple substitution
    let mid_config = ObfuscateConfig::for_difficulty_value(75);
    assert_eq!(mid_config.substitution_depth, 1, "Difficulty 75 should have depth 1 substitution");

    // High difficulty: complex substitution
    let high_config = ObfuscateConfig::for_difficulty_value(90);
    assert_eq!(high_config.substitution_depth, 2, "High difficulty should have depth 2 substitution");
}

// === DifficultySpec-based generation tests ===

#[test]
fn test_build_atom_pool() {
    assert_eq!(build_atom_pool(2), vec!["P", "Q"]);
    assert_eq!(build_atom_pool(5), vec!["P", "Q", "R", "S", "T"]);
    let pool8 = build_atom_pool(8);
    assert_eq!(pool8.len(), 8);
    assert_eq!(&pool8[0..5], &["P", "Q", "R", "S", "T"]);
    assert_eq!(&pool8[5..8], &["A", "B", "C"]);
}

#[test]
fn test_from_difficulty_value_bridge() {

    // Verify bridge produces valid specs
    for d in [10, 30, 50, 75, 90, 100] {
        let spec = DifficultySpec::from_difficulty_value(d);
        assert!(spec.variables >= 2 && spec.variables <= 5);
        assert!(spec.passes >= 1);
        assert!(spec.transforms_per_pass >= 1);
    }
}

#[test]
fn test_tier_bridge_atom_defaults() {

    assert_eq!(DifficultySpec::from_tier(DifficultyTier::Easy).bridge_atoms, Some(0));
    assert_eq!(DifficultySpec::from_tier(DifficultyTier::Expert).bridge_atoms, Some(0));
    assert_eq!(DifficultySpec::from_tier(DifficultyTier::Nightmare).bridge_atoms, Some(1));
    assert_eq!(DifficultySpec::from_tier(DifficultyTier::Marathon).bridge_atoms, Some(1));
    assert_eq!(DifficultySpec::from_tier(DifficultyTier::Cosmic).bridge_atoms, Some(2));
    assert_eq!(DifficultySpec::from_tier(DifficultyTier::Mind).bridge_atoms, Some(2));
}
