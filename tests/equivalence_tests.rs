use logic_proof_trainer_lib::formula::Formula;
use logic_proof_trainer_lib::rules::equivalence::EquivalenceRule;

#[test]
fn test_demorgan_and() {
    let formula = Formula::parse("~(P & Q)").unwrap();
    let expected = Formula::parse("~P | ~Q").unwrap();

    let forms = EquivalenceRule::DeMorgan.equivalent_forms(&formula);
    assert!(forms.contains(&expected));
}

#[test]
fn test_demorgan_or() {
    let formula = Formula::parse("~(P | Q)").unwrap();
    let expected = Formula::parse("~P & ~Q").unwrap();

    let forms = EquivalenceRule::DeMorgan.equivalent_forms(&formula);
    assert!(forms.contains(&expected));
}

#[test]
fn test_commutation() {
    let formula = Formula::parse("P & Q").unwrap();
    let expected = Formula::parse("Q & P").unwrap();

    let forms = EquivalenceRule::Commutation.equivalent_forms(&formula);
    assert!(forms.contains(&expected));
}

#[test]
fn test_implication() {
    let formula = Formula::parse("P -> Q").unwrap();
    let expected = Formula::parse("~P | Q").unwrap();

    let forms = EquivalenceRule::Implication.equivalent_forms(&formula);
    assert!(forms.contains(&expected));
}

#[test]
fn test_contraposition() {
    let formula = Formula::parse("P -> Q").unwrap();
    let expected = Formula::parse("~Q -> ~P").unwrap();

    let forms = EquivalenceRule::Contraposition.equivalent_forms(&formula);
    assert!(forms.contains(&expected));
}

#[test]
fn test_double_negation() {
    let formula = Formula::parse("P").unwrap();
    let expected = Formula::parse("~~P").unwrap();

    let forms = EquivalenceRule::DoubleNegation.equivalent_forms(&formula);
    assert!(forms.contains(&expected));

    // And the reverse
    let forms = EquivalenceRule::DoubleNegation.equivalent_forms(&expected);
    assert!(forms.contains(&formula));
}

#[test]
fn test_exportation() {
    let formula = Formula::parse("(P & Q) -> R").unwrap();
    let expected = Formula::parse("P -> (Q -> R)").unwrap();

    let forms = EquivalenceRule::Exportation.equivalent_forms(&formula);
    assert!(forms.contains(&expected));
}
#[test]
fn test_implication_subformula() {
    let formula = Formula::parse("~(P -> Q)").unwrap();
    let target = Formula::parse("~(~P | Q)").unwrap();

    let mut found = false;
    for sub in formula.subformulas() {
        for equiv in EquivalenceRule::Implication.equivalent_forms(&sub) {
            let transformed = EquivalenceRule::replace_subformula(&formula, &sub, &equiv);
            if transformed == target {
                found = true;
                break;
            }
        }
    }
    assert!(found);
}
