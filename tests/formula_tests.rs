use logic_proof_trainer_lib::formula::{Formula, PathStep};

#[test]
fn test_parse_atom() {
    let f = Formula::parse("P").unwrap();
    assert_eq!(f, Formula::Atom("P".to_string()));
}

#[test]
fn test_parse_negation() {
    let f = Formula::parse("~P").unwrap();
    assert_eq!(f, Formula::Not(Box::new(Formula::Atom("P".to_string()))));
}

#[test]
fn test_parse_conjunction() {
    let f = Formula::parse("P & Q").unwrap();
    assert_eq!(
        f,
        Formula::And(
            Box::new(Formula::Atom("P".to_string())),
            Box::new(Formula::Atom("Q".to_string()))
        )
    );
}

#[test]
fn test_parse_implication() {
    let f = Formula::parse("P -> Q").unwrap();
    assert_eq!(
        f,
        Formula::Implies(
            Box::new(Formula::Atom("P".to_string())),
            Box::new(Formula::Atom("Q".to_string()))
        )
    );
}

#[test]
fn formula_test_display_string() {
    let f = Formula::Implies(
        Box::new(Formula::And(
            Box::new(Formula::Atom("P".to_string())),
            Box::new(Formula::Atom("Q".to_string())),
        )),
        Box::new(Formula::Atom("R".to_string())),
    );
    // Compound formulas are wrapped with brackets for clarity
    assert_eq!(f.display_string(), "(P . Q) ⊃ R");
}

#[test]
fn test_atoms() {
    let f = Formula::parse("P & Q -> R").unwrap();
    let atoms = f.atoms();
    assert!(atoms.contains(&"P".to_string()));
    assert!(atoms.contains(&"Q".to_string()));
    assert!(atoms.contains(&"R".to_string()));
    assert_eq!(atoms.len(), 3);
}

#[test]
fn test_depth() {
    let f = Formula::parse("P").unwrap();
    assert_eq!(f.depth(), 0);

    let f = Formula::parse("~P").unwrap();
    assert_eq!(f.depth(), 1);

    let f = Formula::parse("P & Q").unwrap();
    assert_eq!(f.depth(), 1);

    let f = Formula::parse("(P & Q) -> R").unwrap();
    assert_eq!(f.depth(), 2);
}

#[test]
fn test_bracket_hierarchy_local_depth() {
    // Bug fix: {[P ∨ Q] . [(~R ⊃ ~P) . R]} was wrong
    // P ∨ Q should use () because its local depth is 0 (atoms don't need brackets)
    // The fix ensures we use LOCAL depth, not global position
    let f = Formula::parse("(P | Q) & ((~R -> ~P) & R)").unwrap();
    let display = f.display_string();

    // P ∨ Q is atomic disjunction → should use ()
    // (~R ⊃ ~P) . R has depth 1 → should use []
    // The outer formula at top level doesn't need extra wrapping
    // Expected: (P ∨ Q) . [(~R ⊃ ~P) . R]
    assert!(display.contains("(P ∨ Q)"), "P ∨ Q should use () not []: {}", display);
    assert!(display.contains("[(~R ⊃ ~P) . R]"), "Nested conjunction should use []: {}", display);
    assert_eq!(display, "(P ∨ Q) . [(~R ⊃ ~P) . R]");
}

#[test]
fn test_simple_subformula_brackets() {
    // Simple case: (P ∨ Q) . R
    // P ∨ Q has local depth 0, so should use ()
    let f = Formula::parse("(P | Q) & R").unwrap();
    let display = f.display_string();
    assert_eq!(display, "(P ∨ Q) . R");
}

// ── ascii_string_bracketed tests ──

#[test]
fn test_ascii_bracketed_atom() {
    let f = Formula::parse("P").unwrap();
    assert_eq!(f.ascii_string_bracketed(), "P");
}

#[test]
fn test_ascii_bracketed_negation_atom() {
    // ~P should NOT get brackets around the atom
    let f = Formula::parse("~P").unwrap();
    assert_eq!(f.ascii_string_bracketed(), "~P");
}

#[test]
fn test_ascii_bracketed_negation_compound() {
    // ~(P & Q) should bracket the compound
    let f = Formula::parse("~(P & Q)").unwrap();
    assert_eq!(f.ascii_string_bracketed(), "~(P . Q)");
}

#[test]
fn test_ascii_bracketed_simple_binary() {
    // P & Q — outermost not wrapped
    let f = Formula::parse("P & Q").unwrap();
    assert_eq!(f.ascii_string_bracketed(), "P . Q");
}

#[test]
fn test_ascii_bracketed_nested_one_level() {
    // (P | Q) & R — the Or is compound, local depth 0 → ()
    let f = Formula::parse("(P | Q) & R").unwrap();
    assert_eq!(f.ascii_string_bracketed(), "(P v Q) . R");
}

#[test]
fn test_ascii_bracketed_implies_with_and() {
    // (P & Q) -> R — And is compound, local depth 0 → ()
    let f = Formula::parse("(P & Q) -> R").unwrap();
    assert_eq!(f.ascii_string_bracketed(), "(P . Q) > R");
}

#[test]
fn test_ascii_bracketed_two_levels() {
    // ((P | Q) & R) -> S
    // Inner: P v Q wrapped in () (local depth 0)
    // (P v Q) . R is a compound with local depth 1 → [] wrapping
    let f = Formula::parse("((P | Q) & R) -> S").unwrap();
    assert_eq!(f.ascii_string_bracketed(), "[(P v Q) . R] > S");
}

#[test]
fn test_ascii_bracketed_contradiction() {
    let f = Formula::parse("_|_").unwrap();
    assert_eq!(f.ascii_string_bracketed(), "#");
}

#[test]
fn test_ascii_bracketed_biconditional() {
    let f = Formula::parse("P <-> Q").unwrap();
    assert_eq!(f.ascii_string_bracketed(), "P <> Q");
}

#[test]
fn test_ascii_bracketed_local_depth_hierarchy() {
    // (P | Q) & ((~R -> ~P) & R)
    // P v Q: local depth 0 → ()
    // (~R > ~P) . R: local depth 1 → []
    let f = Formula::parse("(P | Q) & ((~R -> ~P) & R)").unwrap();
    let result = f.ascii_string_bracketed();
    assert_eq!(result, "(P v Q) . [(~R > ~P) . R]");
}

#[test]
fn test_ascii_bracketed_double_negation() {
    // ~~P — no brackets needed around negation of negation of atom
    let f = Formula::parse("~~P").unwrap();
    assert_eq!(f.ascii_string_bracketed(), "~~P");
}
