//! Inference rules: the classical argument forms.

use crate::formula::{f_or, fand, fimp, fnot, Formula, FormulaView};
use crate::rules::equivalence::{concat, conj, contains_formula, disj, imp, neg, none, one, only_if};
use crate::truth_table::views;
use vstd::prelude::*;

verus! {

/// The nine argument forms.
#[derive(Debug, Clone, Copy, PartialEq, Eq, Hash, Structural)]
pub enum InferenceRule {
    ModusPonens,
    ModusTollens,
    DisjunctiveSyllogism,
    Simplification,
    Conjunction,
    HypotheticalSyllogism,
    Addition,
    ConstructiveDilemma,
    Contradiction,
}

/// The views of a sequence of formula references.
pub open spec fn ref_views(s: Seq<&Formula>) -> Seq<FormulaView> {
    s.map_values(|f: &Formula| f@)
}

/// Modus ponens with `a` as the conditional and `b` as its antecedent.
pub open spec fn mp_pair(a: FormulaView, b: FormulaView) -> Seq<FormulaView> {
    match a {
        FormulaView::Implies(x, y) => only_if(*x == b, *y),
        _ => Seq::empty(),
    }
}

/// Modus tollens with `a` as the conditional and `b` as the denied consequent.
pub open spec fn mt_pair(a: FormulaView, b: FormulaView) -> Seq<FormulaView> {
    match (a, b) {
        (FormulaView::Implies(x, y), FormulaView::Not(z)) => only_if(*y == *z, fnot(*x)),
        _ => Seq::empty(),
    }
}

/// Disjunctive syllogism with `a` as the disjunction and `b` as a denied disjunct.
pub open spec fn ds_pair(a: FormulaView, b: FormulaView) -> Seq<FormulaView> {
    match (a, b) {
        (FormulaView::Or(l, r), FormulaView::Not(n)) => only_if(*n == *l, *r) + only_if(*n == *r, *l),
        _ => Seq::empty(),
    }
}

/// Hypothetical syllogism chaining `a` into `b`.
pub open spec fn hs_pair(a: FormulaView, b: FormulaView) -> Seq<FormulaView> {
    match (a, b) {
        (FormulaView::Implies(p, q1), FormulaView::Implies(q2, r)) => only_if(q1 == q2, fimp(*p, *r)),
        _ => Seq::empty(),
    }
}

/// Constructive dilemma with `a` the disjunction, `b` and `c` the conditionals.
pub open spec fn cd_triple(a: FormulaView, b: FormulaView, c: FormulaView) -> Seq<FormulaView> {
    match (a, b, c) {
        (FormulaView::Or(p, q), FormulaView::Implies(p2, r), FormulaView::Implies(q2, s)) => only_if(
            p == p2 && q == q2,
            f_or(*r, *s),
        ),
        _ => Seq::empty(),
    }
}

/// Contradiction introduction with `a` the negation of `b`.
pub open spec fn neg_pair(a: FormulaView, b: FormulaView) -> Seq<FormulaView> {
    match a {
        FormulaView::Not(x) => only_if(*x == b, FormulaView::Contradiction),
        _ => Seq::empty(),
    }
}

/// Every conclusion that the rule draws from the premises, trying every
/// assignment of roles to them; `additional` is the other disjunct for
/// addition.
pub open spec fn conclusions(
    rule: InferenceRule,
    ps: Seq<FormulaView>,
    additional: Option<FormulaView>,
) -> Seq<FormulaView> {
    match rule {
        InferenceRule::ModusPonens => if ps.len() == 2 {
            mp_pair(ps[0], ps[1]) + mp_pair(ps[1], ps[0])
        } else {
            Seq::empty()
        },
        InferenceRule::ModusTollens => if ps.len() == 2 {
            mt_pair(ps[0], ps[1]) + mt_pair(ps[1], ps[0])
        } else {
            Seq::empty()
        },
        InferenceRule::DisjunctiveSyllogism => if ps.len() == 2 {
            ds_pair(ps[0], ps[1]) + ds_pair(ps[1], ps[0])
        } else {
            Seq::empty()
        },
        InferenceRule::Simplification => if ps.len() == 1 {
            match ps[0] {
                FormulaView::And(l, r) => seq![*l, *r],
                _ => Seq::empty(),
            }
        } else {
            Seq::empty()
        },
        InferenceRule::Conjunction => if ps.len() == 2 {
            seq![fand(ps[0], ps[1])]
        } else {
            Seq::empty()
        },
        InferenceRule::HypotheticalSyllogism => if ps.len() == 2 {
            hs_pair(ps[0], ps[1]) + hs_pair(ps[1], ps[0])
        } else {
            Seq::empty()
        },
        InferenceRule::Addition => if ps.len() == 1 && additional is Some {
            seq![f_or(ps[0], additional->0), f_or(additional->0, ps[0])]
        } else {
            Seq::empty()
        },
        InferenceRule::ConstructiveDilemma => if ps.len() == 3 {
            cd_triple(ps[0], ps[1], ps[2]) + cd_triple(ps[0], ps[2], ps[1]) + cd_triple(
                ps[1],
                ps[0],
                ps[2],
            ) + cd_triple(ps[1], ps[2], ps[0]) + cd_triple(ps[2], ps[0], ps[1]) + cd_triple(
                ps[2],
                ps[1],
                ps[0],
            )
        } else {
            Seq::empty()
        },
        InferenceRule::Contradiction => if ps.len() == 2 {
            neg_pair(ps[0], ps[1]) + neg_pair(ps[1], ps[0])
        } else {
            Seq::empty()
        },
    }
}

fn mp(a: &Formula, b: &Formula) -> (r: Vec<Formula>)
    ensures
        views(r@) == mp_pair(a@, b@),
{
    match a {
        Formula::Implies(x, y) => if x.equals(b) {
            one((**y).clone())
        } else {
            none()
        },
        _ => none(),
    }
}

fn mt(a: &Formula, b: &Formula) -> (r: Vec<Formula>)
    ensures
        views(r@) == mt_pair(a@, b@),
{
    match (a, b) {
        (Formula::Implies(x, y), Formula::Not(z)) => if y.equals(z) {
            one(neg(x))
        } else {
            none()
        },
        _ => none(),
    }
}

fn ds(a: &Formula, b: &Formula) -> (r: Vec<Formula>)
    ensures
        views(r@) == ds_pair(a@, b@),
{
    match (a, b) {
        (Formula::Or(l, r), Formula::Not(n)) => {
            let first = if n.equals(l) {
                one((**r).clone())
            } else {
                none()
            };
            let second = if n.equals(r) {
                one((**l).clone())
            } else {
                none()
            };
            concat(first, second)
        },
        _ => none(),
    }
}

fn hs(a: &Formula, b: &Formula) -> (r: Vec<Formula>)
    ensures
        views(r@) == hs_pair(a@, b@),
{
    match (a, b) {
        (Formula::Implies(p, q1), Formula::Implies(q2, r)) => if q1.equals(q2) {
            one(imp(p, r))
        } else {
            none()
        },
        _ => none(),
    }
}

fn cd(a: &Formula, b: &Formula, c: &Formula) -> (r: Vec<Formula>)
    ensures
        views(r@) == cd_triple(a@, b@, c@),
{
    match (a, b, c) {
        (Formula::Or(p, q), Formula::Implies(p2, r), Formula::Implies(q2, s)) => {
            if p.equals(p2) && q.equals(q2) {
                one(disj(r, s))
            } else {
                none()
            }
        },
        _ => none(),
    }
}

fn contra(a: &Formula, b: &Formula) -> (r: Vec<Formula>)
    ensures
        views(r@) == neg_pair(a@, b@),
{
    match a {
        Formula::Not(x) => if x.equals(b) {
            one(Formula::Contradiction)
        } else {
            none()
        },
        _ => none(),
    }
}

/// The full name of a rule.
pub open spec fn inference_name(rule: InferenceRule) -> Seq<char> {
    match rule {
        InferenceRule::ModusPonens => "Modus Ponens"@,
        InferenceRule::ModusTollens => "Modus Tollens"@,
        InferenceRule::DisjunctiveSyllogism => "Disjunctive Syllogism"@,
        InferenceRule::Simplification => "Simplification"@,
        InferenceRule::Conjunction => "Conjunction"@,
        InferenceRule::HypotheticalSyllogism => "Hypothetical Syllogism"@,
        InferenceRule::Addition => "Addition"@,
        InferenceRule::ConstructiveDilemma => "Constructive Dilemma"@,
        InferenceRule::Contradiction => "Contradiction Introduction"@,
    }
}

/// The abbreviation of a rule, as written in justifications.
pub open spec fn inference_abbreviation(rule: InferenceRule) -> Seq<char> {
    match rule {
        InferenceRule::ModusPonens => "MP"@,
        InferenceRule::ModusTollens => "MT"@,
        InferenceRule::DisjunctiveSyllogism => "DS"@,
        InferenceRule::Simplification => "Simp"@,
        InferenceRule::Conjunction => "Conj"@,
        InferenceRule::HypotheticalSyllogism => "HS"@,
        InferenceRule::Addition => "Add"@,
        InferenceRule::ConstructiveDilemma => "CD"@,
        InferenceRule::Contradiction => "NegE"@,
    }
}

impl InferenceRule {
    /// The rule's full name.
    pub fn name(&self) -> (r: &'static str)
        ensures
            r@ == inference_name(*self),
    {
        match self {
            InferenceRule::ModusPonens => "Modus Ponens",
            InferenceRule::ModusTollens => "Modus Tollens",
            InferenceRule::DisjunctiveSyllogism => "Disjunctive Syllogism",
            InferenceRule::Simplification => "Simplification",
            InferenceRule::Conjunction => "Conjunction",
            InferenceRule::HypotheticalSyllogism => "Hypothetical Syllogism",
            InferenceRule::Addition => "Addition",
            InferenceRule::ConstructiveDilemma => "Constructive Dilemma",
            InferenceRule::Contradiction => "Contradiction Introduction",
        }
    }

    /// The rule's abbreviation, as written in proof justifications.
    pub fn abbreviation(&self) -> (r: &'static str)
        ensures
            r@ == inference_abbreviation(*self),
    {
        match self {
            InferenceRule::ModusPonens => "MP",
            InferenceRule::ModusTollens => "MT",
            InferenceRule::DisjunctiveSyllogism => "DS",
            InferenceRule::Simplification => "Simp",
            InferenceRule::Conjunction => "Conj",
            InferenceRule::HypotheticalSyllogism => "HS",
            InferenceRule::Addition => "Add",
            InferenceRule::ConstructiveDilemma => "CD",
            InferenceRule::Contradiction => "NegE",
        }
    }

    /// How many premises the rule takes.
    pub fn premise_count(&self) -> (r: usize)
        ensures
            r == arity(*self),
    {
        match self {
            InferenceRule::Simplification | InferenceRule::Addition => 1,
            InferenceRule::ConstructiveDilemma => 3,
            _ => 2,
        }
    }

    /// Does the rule need a formula besides its premises (the other disjunct
    /// of addition)?
    pub fn requires_formula_input(&self) -> (r: bool)
        ensures
            r == (*self is Addition),
    {
        match self {
            InferenceRule::Addition => true,
            _ => false,
        }
    }

    /// Every conclusion the rule draws from the premises, under every
    /// assignment of roles to them.
    pub fn all_conclusions(&self, premises: &[&Formula], additional: Option<&Formula>) -> (r: Vec<
        Formula,
    >)
        ensures
            views(r@) == conclusions(
                *self,
                ref_views(premises@),
                match additional {
                    Some(a) => Some(a@),
                    None => None,
                },
            ),
    {
        proof {
            reveal_with_fuel(crate::formula::view_of, 2);
        }
        let ghost ps = ref_views(premises@);
        let n = premises.len();
        match self {
            InferenceRule::ModusPonens => if n == 2 {
                concat(mp(premises[0], premises[1]), mp(premises[1], premises[0]))
            } else {
                none()
            },
            InferenceRule::ModusTollens => if n == 2 {
                concat(mt(premises[0], premises[1]), mt(premises[1], premises[0]))
            } else {
                none()
            },
            InferenceRule::DisjunctiveSyllogism => if n == 2 {
                concat(ds(premises[0], premises[1]), ds(premises[1], premises[0]))
            } else {
                none()
            },
            InferenceRule::Simplification => if n == 1 {
                match premises[0] {
                    Formula::And(l, r) => {
                        let v = concat(one((**l).clone()), one((**r).clone()));
                        proof {
                            assert(seq![l@] + seq![r@] =~= seq![l@, r@]);
                        }
                        v
                    },
                    _ => none(),
                }
            } else {
                none()
            },
            InferenceRule::Conjunction => if n == 2 {
                one(conj(premises[0], premises[1]))
            } else {
                none()
            },
            InferenceRule::HypotheticalSyllogism => if n == 2 {
                concat(hs(premises[0], premises[1]), hs(premises[1], premises[0]))
            } else {
                none()
            },
            InferenceRule::Addition => if n == 1 {
                match additional {
                    Some(a) => {
                        let v = concat(one(disj(premises[0], a)), one(disj(a, premises[0])));
                        proof {
                            assert(seq![f_or(ps[0], a@)] + seq![f_or(a@, ps[0])] =~= seq![
                                f_or(ps[0], a@),
                                f_or(a@, ps[0]),
                            ]);
                        }
                        v
                    },
                    None => none(),
                }
            } else {
                none()
            },
            InferenceRule::ConstructiveDilemma => if n == 3 {
                let (a, b, c) = (premises[0], premises[1], premises[2]);
                let v = concat(cd(a, b, c), cd(a, c, b));
                let v = concat(v, cd(b, a, c));
                let v = concat(v, cd(b, c, a));
                let v = concat(v, cd(c, a, b));
                concat(v, cd(c, b, a))
            } else {
                none()
            },
            InferenceRule::Contradiction => if n == 2 {
                concat(contra(premises[0], premises[1]), contra(premises[1], premises[0]))
            } else {
                none()
            },
        }
    }

    /// The first conclusion the rule draws, if any.
    pub fn apply(&self, premises: &[&Formula], additional: Option<&Formula>) -> (r: Option<
        Formula,
    >)
        ensures
            ({
                let cs = conclusions(
                    *self,
                    ref_views(premises@),
                    match additional {
                        Some(a) => Some(a@),
                        None => None,
                    },
                );
                if cs.len() == 0 {
                    r is None
                } else {
                    r is Some && r->0@ == cs[0]
                }
            }),
    {
        let mut all = self.all_conclusions(premises, additional);
        if all.len() == 0 {
            None
        } else {
            proof {
                assert(views(all@)[0] == all@[0]@);
            }
            Some(all.swap_remove(0))
        }
    }

    /// Does the rule draw `conclusion` from the premises?
    pub fn verify(&self, premises: &[&Formula], conclusion: &Formula, additional: Option<&Formula>) -> (r:
        bool)
        ensures
            r == conclusions(
                *self,
                ref_views(premises@),
                match additional {
                    Some(a) => Some(a@),
                    None => None,
                },
            ).contains(conclusion@),
    {
        let all = self.all_conclusions(premises, additional);
        contains_formula(&all, conclusion)
    }

    /// All nine rules, in their customary order.
    pub fn all() -> (r: Vec<InferenceRule>)
        ensures
            r@.len() == 9,
            forall|rule: InferenceRule| #[trigger] r@.contains(rule),
    {
        let r = vec![
            InferenceRule::ModusPonens,
            InferenceRule::ModusTollens,
            InferenceRule::DisjunctiveSyllogism,
            InferenceRule::Simplification,
            InferenceRule::Conjunction,
            InferenceRule::HypotheticalSyllogism,
            InferenceRule::Addition,
            InferenceRule::ConstructiveDilemma,
            InferenceRule::Contradiction,
        ];
        proof {
            assert forall|rule: InferenceRule| #[trigger] r@.contains(rule) by {
                match rule {
                    InferenceRule::ModusPonens => assert(r@[0] == rule),
                    InferenceRule::ModusTollens => assert(r@[1] == rule),
                    InferenceRule::DisjunctiveSyllogism => assert(r@[2] == rule),
                    InferenceRule::Simplification => assert(r@[3] == rule),
                    InferenceRule::Conjunction => assert(r@[4] == rule),
                    InferenceRule::HypotheticalSyllogism => assert(r@[5] == rule),
                    InferenceRule::Addition => assert(r@[6] == rule),
                    InferenceRule::ConstructiveDilemma => assert(r@[7] == rule),
                    InferenceRule::Contradiction => assert(r@[8] == rule),
                }
            }
        }
        r
    }
}

/// How many premises a rule takes.
pub open spec fn arity(rule: InferenceRule) -> nat {
    match rule {
        InferenceRule::Simplification | InferenceRule::Addition => 1,
        InferenceRule::ConstructiveDilemma => 3,
        _ => 2,
    }
}

} // verus!
