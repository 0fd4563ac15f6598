use logic_proof_trainer_lib::formula::Formula;
use logic_proof_trainer_lib::rules::inference::InferenceRule;

#[test]
fn test_modus_ponens() {
    let p_implies_q = Formula::parse("P -> Q").unwrap();
    let p = Formula::parse("P").unwrap();
    let q = Formula::parse("Q").unwrap();

    let result = InferenceRule::ModusPonens.apply(&[&p_implies_q, &p], None);
    assert_eq!(result, Some(q.clone()));

    // Order shouldn't matter
    let result = InferenceRule::ModusPonens.apply(&[&p, &p_implies_q], None);
    assert_eq!(result, Some(q));
}

#[test]
fn test_modus_tollens() {
    let p_implies_q = Formula::parse("P -> Q").unwrap();
    let not_q = Formula::parse("~Q").unwrap();
    let not_p = Formula::parse("~P").unwrap();

    let result = InferenceRule::ModusTollens.apply(&[&p_implies_q, &not_q], None);
    assert_eq!(result, Some(not_p));
}

#[test]
fn test_disjunctive_syllogism() {
    let p_or_q = Formula::parse("P | Q").unwrap();
    let not_p = Formula::parse("~P").unwrap();
    let q = Formula::parse("Q").unwrap();

    let result = InferenceRule::DisjunctiveSyllogism.apply(&[&p_or_q, &not_p], None);
    assert_eq!(result, Some(q));
}

#[test]
fn inference_test_simplification() {
    let p_and_q = Formula::parse("P & Q").unwrap();
    let p = Formula::parse("P").unwrap();
    let q = Formula::parse("Q").unwrap();

    // Should return both possible conclusions
    let conclusions = InferenceRule::Simplification.all_conclusions(&[&p_and_q], None);
    assert!(conclusions.contains(&p));
    assert!(conclusions.contains(&q));

    // Verify works with either
    assert!(InferenceRule::Simplification.verify(&[&p_and_q], &p, None));
    assert!(InferenceRule::Simplification.verify(&[&p_and_q], &q, None));
}

#[test]
fn inference_test_conjunction() {
    let p = Formula::parse("P").unwrap();
    let q = Formula::parse("Q").unwrap();
    let p_and_q = Formula::parse("P & Q").unwrap();

    let result = InferenceRule::Conjunction.apply(&[&p, &q], None);
    assert_eq!(result, Some(p_and_q));
}

#[test]
fn test_hypothetical_syllogism() {
    let p_implies_q = Formula::parse("P -> Q").unwrap();
    let q_implies_r = Formula::parse("Q -> R").unwrap();
    let p_implies_r = Formula::parse("P -> R").unwrap();

    let result = InferenceRule::HypotheticalSyllogism.apply(&[&p_implies_q, &q_implies_r], None);
    assert_eq!(result, Some(p_implies_r));
}

#[test]
fn test_addition() {
    let p = Formula::parse("P").unwrap();
    let q = Formula::parse("Q").unwrap();
    let p_or_q = Formula::parse("P | Q").unwrap();
    let q_or_p = Formula::parse("Q | P").unwrap();

    // Both placements should work
    assert!(InferenceRule::Addition.verify(&[&p], &p_or_q, Some(&q)));
    assert!(InferenceRule::Addition.verify(&[&p], &q_or_p, Some(&q)));
}

#[test]
fn test_contradiction() {
    let p = Formula::parse("P").unwrap();
    let not_p = Formula::parse("~P").unwrap();
    let contra = Formula::Contradiction;

    let result = InferenceRule::Contradiction.apply(&[&p, &not_p], None);
    assert_eq!(result, Some(contra));
}
