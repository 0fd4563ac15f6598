//! Subproof techniques: conditional proof and indirect proof.

use crate::formula::{fimp, fnot, Formula, FormulaView};
use vstd::prelude::*;

verus! {

/// How a subproof discharges its assumption.
#[derive(Debug, Clone, Copy, PartialEq, Eq, Hash, Structural)]
pub enum ProofTechnique {
    /// Assume the antecedent, derive the consequent, conclude the conditional.
    ConditionalProof,
    /// Assume a formula, derive a contradiction, conclude its opposite.
    IndirectProof,
}

/// What kind of formula a technique accepts as its assumption.
#[derive(Debug, Clone, Copy, PartialEq, Eq, Structural)]
pub enum AssumptionType {
    Any,
}

/// A syntactic contradiction: the constant, or a conjunction of a formula
/// and its negation in either order.
pub open spec fn is_contradiction_spec(f: FormulaView) -> bool {
    match f {
        FormulaView::Contradiction => true,
        FormulaView::And(l, r) => *l == fnot(*r) || *r == fnot(*l),
        _ => false,
    }
}

/// The opposite of an assumption: the operand of a negation, else the
/// negation.
pub open spec fn toggle_negation(f: FormulaView) -> FormulaView {
    match f {
        FormulaView::Not(a) => *a,
        _ => fnot(f),
    }
}

/// What a subproof with this assumption and last derived formula concludes.
pub open spec fn technique_conclusion(
    t: ProofTechnique,
    assumption: FormulaView,
    derived: FormulaView,
) -> Option<FormulaView> {
    match t {
        ProofTechnique::ConditionalProof => Some(fimp(assumption, derived)),
        ProofTechnique::IndirectProof => if is_contradiction_spec(derived) {
            Some(toggle_negation(assumption))
        } else {
            None
        },
    }
}

/// Is the formula a syntactic contradiction?
pub fn is_contradiction(formula: &Formula) -> (r: bool)
    ensures
        r == is_contradiction_spec(formula@),
{
    proof {
        reveal_with_fuel(crate::formula::view_of, 2);
    }
    match formula {
        Formula::Contradiction => true,
        Formula::And(l, r) => {
            let left_denies = match &**l {
                Formula::Not(inner) => inner.equals(r),
                _ => false,
            };
            let right_denies = match &**r {
                Formula::Not(inner) => inner.equals(l),
                _ => false,
            };
            left_denies || right_denies
        },
        _ => false,
    }
}

/// The full name of a rule.
pub open spec fn technique_name(rule: ProofTechnique) -> Seq<char> {
    match rule {
        ProofTechnique::ConditionalProof => "Conditional Proof"@,
        ProofTechnique::IndirectProof => "Indirect Proof"@,
    }
}

/// The abbreviation of a rule, as written in justifications.
pub open spec fn technique_abbreviation(rule: ProofTechnique) -> Seq<char> {
    match rule {
        ProofTechnique::ConditionalProof => "CP"@,
        ProofTechnique::IndirectProof => "IP"@,
    }
}

impl ProofTechnique {
    /// The technique's full name.
    pub fn name(&self) -> (r: &'static str)
        ensures
            r@ == technique_name(*self),
    {
        match self {
            ProofTechnique::ConditionalProof => "Conditional Proof",
            ProofTechnique::IndirectProof => "Indirect Proof",
        }
    }

    /// The technique's abbreviation, as written in proof justifications.
    pub fn abbreviation(&self) -> (r: &'static str)
        ensures
            r@ == technique_abbreviation(*self),
    {
        match self {
            ProofTechnique::ConditionalProof => "CP",
            ProofTechnique::IndirectProof => "IP",
        }
    }

    /// A sentence on how the technique is used.
    pub fn description(&self) -> (r: &'static str)
        ensures
            r@ == match *self {
                ProofTechnique::ConditionalProof => "Assume the antecedent P, derive the consequent Q within the subproof, then conclude P → Q outside the subproof."@,
                ProofTechnique::IndirectProof => "Assume P or ~P, derive a contradiction (⊥ or Q · ~Q), then conclude the opposite of your assumption."@,
            },
    {
        match self {
            ProofTechnique::ConditionalProof => {
                "Assume the antecedent P, derive the consequent Q within the subproof, then conclude P → Q outside the subproof."
            },
            ProofTechnique::IndirectProof => {
                "Assume P or ~P, derive a contradiction (⊥ or Q · ~Q), then conclude the opposite of your assumption."
            },
        }
    }

    /// The conclusion of a subproof with this assumption whose last
    /// derived formula is `derived`.
    pub fn get_conclusion(&self, assumption: &Formula, derived: &Formula) -> (r: Option<Formula>)
        ensures
            match technique_conclusion(*self, assumption@, derived@) {
                Some(c) => r is Some && r->0@ == c,
                None => r is None,
            },
    {
        match self {
            ProofTechnique::ConditionalProof => Some(
                Formula::Implies(Box::new(assumption.clone()), Box::new(derived.clone())),
            ),
            ProofTechnique::IndirectProof => {
                if !is_contradiction(derived) {
                    return None;
                }
                match assumption {
                    Formula::Not(inner) => Some((**inner).clone()),
                    _ => Some(Formula::Not(Box::new(assumption.clone()))),
                }
            },
        }
    }

    /// Is `conclusion` what the subproof concludes?
    pub fn verify_conclusion(&self, assumption: &Formula, derived: &Formula, conclusion: &Formula) -> (r:
        bool)
        ensures
            r == (technique_conclusion(*self, assumption@, derived@) == Some(conclusion@)),
    {
        match self.get_conclusion(assumption, derived) {
            Some(expected) => expected.equals(conclusion),
            None => false,
        }
    }

    /// Both techniques.
    pub fn all() -> (r: Vec<ProofTechnique>)
        ensures
            r@ == seq![ProofTechnique::ConditionalProof, ProofTechnique::IndirectProof],
    {
        let r = vec![ProofTechnique::ConditionalProof, ProofTechnique::IndirectProof];
        proof {
            assert(r@ =~= seq![ProofTechnique::ConditionalProof, ProofTechnique::IndirectProof]);
        }
        r
    }

    /// Must the subproof end in a contradiction?
    pub fn requires_contradiction(&self) -> (r: bool)
        ensures
            r == (*self is IndirectProof),
    {
        match self {
            ProofTechnique::IndirectProof => true,
            ProofTechnique::ConditionalProof => false,
        }
    }

    /// The assumptions the technique accepts: any formula.
    pub fn expected_assumption_type(&self) -> (r: AssumptionType)
        ensures
            r == AssumptionType::Any,
    {
        AssumptionType::Any
    }
}

} // verus!
