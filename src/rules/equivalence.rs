//! Equivalence rules: rewrites that keep the truth table of a formula.

use crate::formula::{atom_set, f_or, fand, fbicond, fimp, fnot, Formula, FormulaView};
use crate::dyn_table::eval;
use crate::truth_table::{tt32, views};
use vstd::prelude::*;

verus! {

/// The ten families of truth-preserving rewrites.
#[derive(Debug, Clone, Copy, PartialEq, Eq, Hash, Structural)]
pub enum EquivalenceRule {
    DoubleNegation,
    DeMorgan,
    Commutation,
    Association,
    Distribution,
    Contraposition,
    Implication,
    Exportation,
    Tautology,
    Equivalence,
}

/// A one-element sequence when `c` holds, else the empty one.
pub open spec fn only_if(c: bool, f: FormulaView) -> Seq<FormulaView> {
    if c {
        seq![f]
    } else {
        Seq::empty()
    }
}

pub open spec fn de_morgan_forms(f: FormulaView) -> Seq<FormulaView> {
    match f {
        FormulaView::Not(a) => match *a {
            FormulaView::And(p, q) => seq![f_or(fnot(*p), fnot(*q))],
            FormulaView::Or(p, q) => seq![fand(fnot(*p), fnot(*q))],
            _ => Seq::empty(),
        },
        FormulaView::Or(l, r) => match (*l, *r) {
            (FormulaView::Not(p), FormulaView::Not(q)) => seq![fnot(fand(*p, *q))],
            _ => Seq::empty(),
        },
        FormulaView::And(l, r) => match (*l, *r) {
            (FormulaView::Not(p), FormulaView::Not(q)) => seq![fnot(f_or(*p, *q))],
            _ => Seq::empty(),
        },
        _ => Seq::empty(),
    }
}

pub open spec fn commutation_forms(f: FormulaView) -> Seq<FormulaView> {
    match f {
        FormulaView::And(p, q) => seq![fand(*q, *p)],
        FormulaView::Or(p, q) => seq![f_or(*q, *p)],
        _ => Seq::empty(),
    }
}

pub open spec fn association_forms(f: FormulaView) -> Seq<FormulaView> {
    match f {
        FormulaView::And(l, r) => (match *l {
            FormulaView::And(p, q) => seq![fand(*p, fand(*q, *r))],
            _ => Seq::empty(),
        }) + (match *r {
            FormulaView::And(q, s) => seq![fand(fand(*l, *q), *s)],
            _ => Seq::empty(),
        }),
        FormulaView::Or(l, r) => (match *l {
            FormulaView::Or(p, q) => seq![f_or(*p, f_or(*q, *r))],
            _ => Seq::empty(),
        }) + (match *r {
            FormulaView::Or(q, s) => seq![f_or(f_or(*l, *q), *s)],
            _ => Seq::empty(),
        }),
        _ => Seq::empty(),
    }
}

pub open spec fn distribution_forms(f: FormulaView) -> Seq<FormulaView> {
    match f {
        FormulaView::And(l, r) => (match *r {
            FormulaView::Or(q, s) => seq![f_or(fand(*l, *q), fand(*l, *s))],
            _ => Seq::empty(),
        }) + (match (*l, *r) {
            (FormulaView::Or(p1, q), FormulaView::Or(p2, s)) => only_if(
                p1 == p2,
                f_or(*p1, fand(*q, *s)),
            ),
            _ => Seq::empty(),
        }),
        FormulaView::Or(l, r) => (match (*l, *r) {
            (FormulaView::And(p1, q), FormulaView::And(p2, s)) => only_if(
                p1 == p2,
                fand(*p1, f_or(*q, *s)),
            ),
            _ => Seq::empty(),
        }) + (match *r {
            FormulaView::And(q, s) => seq![fand(f_or(*l, *q), f_or(*l, *s))],
            _ => Seq::empty(),
        }),
        _ => Seq::empty(),
    }
}

pub open spec fn contraposition_forms(f: FormulaView) -> Seq<FormulaView> {
    match f {
        FormulaView::Implies(p, q) => seq![fimp(fnot(*q), fnot(*p))] + (match (*p, *q) {
            (FormulaView::Not(a), FormulaView::Not(b)) => seq![fimp(*b, *a)],
            _ => Seq::empty(),
        }),
        _ => Seq::empty(),
    }
}

pub open spec fn implication_forms(f: FormulaView) -> Seq<FormulaView> {
    match f {
        FormulaView::Implies(p, q) => seq![f_or(fnot(*p), *q)],
        FormulaView::Or(l, q) => match *l {
            FormulaView::Not(p) => seq![fimp(*p, *q)],
            _ => Seq::empty(),
        },
        _ => Seq::empty(),
    }
}

pub open spec fn equivalence_forms(f: FormulaView) -> Seq<FormulaView> {
    match f {
        FormulaView::Biconditional(p, q) => seq![fand(fimp(*p, *q), fimp(*q, *p))],
        FormulaView::And(l, r) => match (*l, *r) {
            (FormulaView::Implies(p1, q1), FormulaView::Implies(q2, p2)) => only_if(
                p1 == p2 && q1 == q2,
                fbicond(*p1, *q1),
            ),
            _ => Seq::empty(),
        },
        _ => Seq::empty(),
    }
}

pub open spec fn exportation_forms(f: FormulaView) -> Seq<FormulaView> {
    match f {
        FormulaView::Implies(l, r) => (match *l {
            FormulaView::And(p, q) => seq![fimp(*p, fimp(*q, *r))],
            _ => Seq::empty(),
        }) + (match *r {
            FormulaView::Implies(q, s) => seq![fimp(fand(*l, *q), *s)],
            _ => Seq::empty(),
        }),
        _ => Seq::empty(),
    }
}

pub open spec fn tautology_forms(f: FormulaView) -> Seq<FormulaView> {
    seq![fand(f, f), f_or(f, f)] + match f {
        FormulaView::And(p, q) => only_if(p == q, *p),
        FormulaView::Or(p, q) => only_if(p == q, *p),
        _ => Seq::empty(),
    }
}

pub open spec fn double_negation_forms(f: FormulaView) -> Seq<FormulaView> {
    seq![fnot(fnot(f))] + match f {
        FormulaView::Not(a) => match *a {
            FormulaView::Not(b) => seq![*b],
            _ => Seq::empty(),
        },
        _ => Seq::empty(),
    }
}

/// Every rewrite of the rule at the root of `f`, in a fixed order.
pub open spec fn equiv_forms(rule: EquivalenceRule, f: FormulaView) -> Seq<FormulaView> {
    match rule {
        EquivalenceRule::DoubleNegation => double_negation_forms(f),
        EquivalenceRule::DeMorgan => de_morgan_forms(f),
        EquivalenceRule::Commutation => commutation_forms(f),
        EquivalenceRule::Association => association_forms(f),
        EquivalenceRule::Distribution => distribution_forms(f),
        EquivalenceRule::Contraposition => contraposition_forms(f),
        EquivalenceRule::Implication => implication_forms(f),
        EquivalenceRule::Exportation => exportation_forms(f),
        EquivalenceRule::Tautology => tautology_forms(f),
        EquivalenceRule::Equivalence => equivalence_forms(f),
    }
}

/// Every node of `f` equal to `target` replaced by `replacement`, the
/// outermost first.
pub open spec fn replace_all(f: FormulaView, target: FormulaView, replacement: FormulaView) -> FormulaView
    decreases f,
{
    if f == target {
        replacement
    } else {
        match f {
            FormulaView::Not(a) => fnot(replace_all(*a, target, replacement)),
            FormulaView::And(a, b) => fand(
                replace_all(*a, target, replacement),
                replace_all(*b, target, replacement),
            ),
            FormulaView::Or(a, b) => f_or(
                replace_all(*a, target, replacement),
                replace_all(*b, target, replacement),
            ),
            FormulaView::Implies(a, b) => fimp(
                replace_all(*a, target, replacement),
                replace_all(*b, target, replacement),
            ),
            FormulaView::Biconditional(a, b) => fbicond(
                replace_all(*a, target, replacement),
                replace_all(*b, target, replacement),
            ),
            _ => f,
        }
    }
}

proof fn lemma_bit_identities(a: u32, b: u32, c: u32)
    by (bit_vector)
    ensures
        !!a == a,
        !(a & b) == !a | !b,
        !(a | b) == !a & !b,
        a & b == b & a,
        a | b == b | a,
        (a & b) & c == a & (b & c),
        (a | b) | c == a | (b | c),
        a & (b | c) == (a & b) | (a & c),
        a | (b & c) == (a | b) & (a | c),
        !a | b == !!b | !a,
        !a | b == b | !a,
        !(a & b) | c == !a | (!b | c),
        a & a == a,
        a | a == a,
        !(a ^ b) == (!a | b) & (!b | a),
{
}

/// Each rewrite that an equivalence rule offers agrees with the formula it
/// was made from under every assignment, whatever its atoms.
pub proof fn law_equivalent_forms_agree(rule: EquivalenceRule, f: FormulaView, i: int, env: spec_fn(Seq<char>) -> bool)
    requires
        0 <= i < equiv_forms(rule, f).len(),
    ensures
        eval(equiv_forms(rule, f)[i], env) == eval(f, env),
{
    reveal_with_fuel(eval, 4);
    let g = equiv_forms(rule, f)[i];
}

/// Each rewrite that an equivalence rule offers has the atoms of the formula
/// it was made from.
pub proof fn law_equivalent_forms_keep_atoms(rule: EquivalenceRule, f: FormulaView, i: int)
    requires
        0 <= i < equiv_forms(rule, f).len(),
    ensures
        atom_set(equiv_forms(rule, f)[i]) == atom_set(f),
{
    reveal_with_fuel(atom_set, 4);
    let g = equiv_forms(rule, f)[i];
    assert(atom_set(g) =~= atom_set(f));
}

/// Each rewrite that an equivalence rule offers has the truth table of the
/// formula it was made from.
pub proof fn law_equivalent_forms_preserve_truth(rule: EquivalenceRule, f: FormulaView, i: int)
    requires
        0 <= i < equiv_forms(rule, f).len(),
    ensures
        tt32(equiv_forms(rule, f)[i]) == tt32(f),
{
    let g = equiv_forms(rule, f)[i];
    reveal_with_fuel(tt32, 4);
    match f {
        FormulaView::Not(a) => {
            match *a {
                FormulaView::And(p, q) => lemma_bit_identities(tt32(*p), tt32(*q), 0),
                FormulaView::Or(p, q) => lemma_bit_identities(tt32(*p), tt32(*q), 0),
                FormulaView::Not(b) => lemma_bit_identities(tt32(*b), 0, 0),
                _ => {},
            }
            lemma_bit_identities(tt32(f), 0, 0);
        },
        FormulaView::And(l, r) | FormulaView::Or(l, r) => {
            lemma_bit_identities(tt32(*l), tt32(*r), 0);
            lemma_bit_identities(tt32(f), 0, 0);
            match (*l, *r) {
                (FormulaView::Not(p), FormulaView::Not(q)) => lemma_bit_identities(
                    tt32(*p),
                    tt32(*q),
                    0,
                ),
                (FormulaView::Or(p1, q), FormulaView::Or(p2, s)) => {
                    lemma_bit_identities(tt32(*p1), tt32(*q), tt32(*s));
                    lemma_bit_identities(tt32(*l), tt32(*q), tt32(*s));
                    lemma_bit_identities(tt32(*p1), tt32(*q), tt32(*r));
                },
                (FormulaView::And(p1, q), FormulaView::And(p2, s)) => {
                    lemma_bit_identities(tt32(*p1), tt32(*q), tt32(*s));
                    lemma_bit_identities(tt32(*l), tt32(*q), tt32(*s));
                    lemma_bit_identities(tt32(*p1), tt32(*q), tt32(*r));
                },
                (FormulaView::Implies(p1, q1), FormulaView::Implies(q2, p2)) => {
                    lemma_bit_identities(tt32(*p1), tt32(*q1), 0);
                },
                _ => {},
            }
            match *l {
                FormulaView::And(p, q) | FormulaView::Or(p, q) => lemma_bit_identities(
                    tt32(*p),
                    tt32(*q),
                    tt32(*r),
                ),
                FormulaView::Not(p) => lemma_bit_identities(tt32(*p), tt32(*r), 0),
                _ => {},
            }
            match *r {
                FormulaView::And(q, s) | FormulaView::Or(q, s) => lemma_bit_identities(
                    tt32(*l),
                    tt32(*q),
                    tt32(*s),
                ),
                _ => {},
            }
        },
        FormulaView::Implies(p, q) => {
            lemma_bit_identities(tt32(*p), tt32(*q), 0);
            lemma_bit_identities(tt32(f), 0, 0);
            match (*p, *q) {
                (FormulaView::Not(a), FormulaView::Not(b)) => lemma_bit_identities(
                    tt32(*b),
                    tt32(*a),
                    0,
                ),
                _ => {},
            }
            match *p {
                FormulaView::And(a, b) => lemma_bit_identities(tt32(*a), tt32(*b), tt32(*q)),
                _ => {},
            }
            match *q {
                FormulaView::Implies(a, b) => lemma_bit_identities(tt32(*p), tt32(*a), tt32(*b)),
                _ => {},
            }
        },
        FormulaView::Biconditional(p, q) => {
            lemma_bit_identities(tt32(*p), tt32(*q), 0);
            lemma_bit_identities(tt32(f), 0, 0);
        },
        _ => {
            lemma_bit_identities(tt32(f), 0, 0);
        },
    }
}

pub(crate) fn one(f: Formula) -> (r: Vec<Formula>)
    ensures
        views(r@) == seq![f@],
{
    let r = vec![f];
    proof {
        assert(views(r@) =~= seq![f@]);
    }
    r
}

pub(crate) fn none() -> (r: Vec<Formula>)
    ensures
        views(r@) == Seq::<FormulaView>::empty(),
{
    let r: Vec<Formula> = Vec::new();
    proof {
        assert(views(r@) =~= Seq::<FormulaView>::empty());
    }
    r
}

pub(crate) fn concat(a: Vec<Formula>, b: Vec<Formula>) -> (r: Vec<Formula>)
    ensures
        views(r@) == views(a@) + views(b@),
{
    let mut a = a;
    let mut b = b;
    let ghost va = views(a@);
    let ghost vb = views(b@);
    a.append(&mut b);
    proof {
        assert(views(a@) =~= va + vb);
    }
    a
}

pub(crate) fn neg(f: &Formula) -> (r: Formula)
    ensures
        r@ == fnot(f@),
{
    Formula::Not(Box::new(f.clone()))
}

pub(crate) fn conj(a: &Formula, b: &Formula) -> (r: Formula)
    ensures
        r@ == fand(a@, b@),
{
    Formula::And(Box::new(a.clone()), Box::new(b.clone()))
}

pub(crate) fn disj(a: &Formula, b: &Formula) -> (r: Formula)
    ensures
        r@ == f_or(a@, b@),
{
    Formula::Or(Box::new(a.clone()), Box::new(b.clone()))
}

pub(crate) fn imp(a: &Formula, b: &Formula) -> (r: Formula)
    ensures
        r@ == fimp(a@, b@),
{
    Formula::Implies(Box::new(a.clone()), Box::new(b.clone()))
}

fn de_morgan(f: &Formula) -> (r: Vec<Formula>)
    ensures
        views(r@) == de_morgan_forms(f@),
{
    proof {
        reveal_with_fuel(crate::formula::view_of, 3);
    }
    match f {
        Formula::Not(a) => match &**a {
            Formula::And(p, q) => one(disj(&neg(p), &neg(q))),
            Formula::Or(p, q) => one(conj(&neg(p), &neg(q))),
            _ => none(),
        },
        Formula::Or(l, r) => match (&**l, &**r) {
            (Formula::Not(p), Formula::Not(q)) => one(neg(&conj(p, q))),
            _ => none(),
        },
        Formula::And(l, r) => match (&**l, &**r) {
            (Formula::Not(p), Formula::Not(q)) => one(neg(&disj(p, q))),
            _ => none(),
        },
        _ => none(),
    }
}

fn commutation(f: &Formula) -> (r: Vec<Formula>)
    ensures
        views(r@) == commutation_forms(f@),
{
    proof {
        reveal_with_fuel(crate::formula::view_of, 3);
    }
    match f {
        Formula::And(p, q) => one(conj(q, p)),
        Formula::Or(p, q) => one(disj(q, p)),
        _ => none(),
    }
}

fn association(f: &Formula) -> (r: Vec<Formula>)
    ensures
        views(r@) == association_forms(f@),
{
    proof {
        reveal_with_fuel(crate::formula::view_of, 3);
    }
    match f {
        Formula::And(l, r) => {
            let first = match &**l {
                Formula::And(p, q) => one(conj(p, &conj(q, r))),
                _ => none(),
            };
            let second = match &**r {
                Formula::And(q, s) => one(conj(&conj(l, q), s)),
                _ => none(),
            };
            concat(first, second)
        },
        Formula::Or(l, r) => {
            let first = match &**l {
                Formula::Or(p, q) => one(disj(p, &disj(q, r))),
                _ => none(),
            };
            let second = match &**r {
                Formula::Or(q, s) => one(disj(&disj(l, q), s)),
                _ => none(),
            };
            concat(first, second)
        },
        _ => none(),
    }
}

fn distribution(f: &Formula) -> (r: Vec<Formula>)
    ensures
        views(r@) == distribution_forms(f@),
{
    proof {
        reveal_with_fuel(crate::formula::view_of, 3);
    }
    match f {
        Formula::And(l, r) => {
            let first = match &**r {
                Formula::Or(q, s) => one(disj(&conj(l, q), &conj(l, s))),
                _ => none(),
            };
            let second = match (&**l, &**r) {
                (Formula::Or(p1, q), Formula::Or(p2, s)) => {
                    if p1.equals(p2) {
                        one(disj(p1, &conj(q, s)))
                    } else {
                        none()
                    }
                },
                _ => none(),
            };
            concat(first, second)
        },
        Formula::Or(l, r) => {
            let first = match (&**l, &**r) {
                (Formula::And(p1, q), Formula::And(p2, s)) => {
                    if p1.equals(p2) {
                        one(conj(p1, &disj(q, s)))
                    } else {
                        none()
                    }
                },
                _ => none(),
            };
            let second = match &**r {
                Formula::And(q, s) => one(conj(&disj(l, q), &disj(l, s))),
                _ => none(),
            };
            concat(first, second)
        },
        _ => none(),
    }
}

fn contraposition(f: &Formula) -> (r: Vec<Formula>)
    ensures
        views(r@) == contraposition_forms(f@),
{
    proof {
        reveal_with_fuel(crate::formula::view_of, 3);
    }
    match f {
        Formula::Implies(p, q) => {
            let first = one(imp(&neg(q), &neg(p)));
            let second = match (&**p, &**q) {
                (Formula::Not(a), Formula::Not(b)) => one(imp(b, a)),
                _ => none(),
            };
            concat(first, second)
        },
        _ => none(),
    }
}

fn implication(f: &Formula) -> (r: Vec<Formula>)
    ensures
        views(r@) == implication_forms(f@),
{
    proof {
        reveal_with_fuel(crate::formula::view_of, 3);
    }
    match f {
        Formula::Implies(p, q) => one(disj(&neg(p), q)),
        Formula::Or(l, q) => match &**l {
            Formula::Not(p) => one(imp(p, q)),
            _ => none(),
        },
        _ => none(),
    }
}

fn equivalence(f: &Formula) -> (r: Vec<Formula>)
    ensures
        views(r@) == equivalence_forms(f@),
{
    proof {
        reveal_with_fuel(crate::formula::view_of, 3);
    }
    match f {
        Formula::Biconditional(p, q) => one(conj(&imp(p, q), &imp(q, p))),
        Formula::And(l, r) => match (&**l, &**r) {
            (Formula::Implies(p1, q1), Formula::Implies(q2, p2)) => {
                if p1.equals(p2) && q1.equals(q2) {
                    one(Formula::Biconditional(Box::new((**p1).clone()), Box::new((**q1).clone())))
                } else {
                    none()
                }
            },
            _ => none(),
        },
        _ => none(),
    }
}

fn exportation(f: &Formula) -> (r: Vec<Formula>)
    ensures
        views(r@) == exportation_forms(f@),
{
    proof {
        reveal_with_fuel(crate::formula::view_of, 3);
    }
    match f {
        Formula::Implies(l, r) => {
            let first = match &**l {
                Formula::And(p, q) => one(imp(p, &imp(q, r))),
                _ => none(),
            };
            let second = match &**r {
                Formula::Implies(q, s) => one(imp(&conj(l, q), s)),
                _ => none(),
            };
            concat(first, second)
        },
        _ => none(),
    }
}

fn tautology(f: &Formula) -> (r: Vec<Formula>)
    ensures
        views(r@) == tautology_forms(f@),
{
    proof {
        reveal_with_fuel(crate::formula::view_of, 3);
    }
    let first = concat(one(conj(f, f)), one(disj(f, f)));
    proof {
        assert(seq![fand(f@, f@)] + seq![f_or(f@, f@)] =~= seq![fand(f@, f@), f_or(f@, f@)]);
    }
    let second = match f {
        Formula::And(p, q) => {
            if p.equals(q) {
                one((**p).clone())
            } else {
                none()
            }
        },
        Formula::Or(p, q) => {
            if p.equals(q) {
                one((**p).clone())
            } else {
                none()
            }
        },
        _ => none(),
    };
    concat(first, second)
}

fn double_negation(f: &Formula) -> (r: Vec<Formula>)
    ensures
        views(r@) == double_negation_forms(f@),
{
    proof {
        reveal_with_fuel(crate::formula::view_of, 3);
    }
    let first = one(neg(&neg(f)));
    let second = match f {
        Formula::Not(a) => match &**a {
            Formula::Not(b) => one((**b).clone()),
            _ => none(),
        },
        _ => none(),
    };
    concat(first, second)
}

/// Is `f` among the views of `v`?
pub fn contains_formula(v: &Vec<Formula>, f: &Formula) -> (r: bool)
    ensures
        r == views(v@).contains(f@),
{
    let mut i: usize = 0;
    while i < v.len()
        invariant
            i <= v@.len(),
            forall|j: int| 0 <= j < i ==> v@[j]@ != f@,
        decreases v@.len() - i,
    {
        if v[i].equals(f) {
            proof {
                assert(views(v@)[i as int] == f@);
            }
            return true;
        }
        i = i + 1;
    }
    proof {
        assert forall|j: int| 0 <= j < views(v@).len() implies views(v@)[j] != f@ by {
            assert(views(v@)[j] == v@[j]@);
        }
    }
    false
}

/// The full name of a rule.
pub open spec fn equivalence_name(rule: EquivalenceRule) -> Seq<char> {
    match rule {
        EquivalenceRule::DoubleNegation => "Double Negation"@,
        EquivalenceRule::DeMorgan => "DeMorgan's Theorem"@,
        EquivalenceRule::Commutation => "Commutation"@,
        EquivalenceRule::Association => "Association"@,
        EquivalenceRule::Distribution => "Distribution"@,
        EquivalenceRule::Contraposition => "Contraposition"@,
        EquivalenceRule::Implication => "Implication"@,
        EquivalenceRule::Exportation => "Exportation"@,
        EquivalenceRule::Tautology => "Tautology"@,
        EquivalenceRule::Equivalence => "Equivalence"@,
    }
}

/// The abbreviation of a rule, as written in justifications.
pub open spec fn equivalence_abbreviation(rule: EquivalenceRule) -> Seq<char> {
    match rule {
        EquivalenceRule::DoubleNegation => "DN"@,
        EquivalenceRule::DeMorgan => "DeM"@,
        EquivalenceRule::Commutation => "Comm"@,
        EquivalenceRule::Association => "Assoc"@,
        EquivalenceRule::Distribution => "Dist"@,
        EquivalenceRule::Contraposition => "Contra"@,
        EquivalenceRule::Implication => "Impl"@,
        EquivalenceRule::Exportation => "Exp"@,
        EquivalenceRule::Tautology => "Taut"@,
        EquivalenceRule::Equivalence => "Equiv"@,
    }
}

impl EquivalenceRule {
    /// The rule's full name.
    pub fn name(&self) -> (r: &'static str)
        ensures
            r@ == equivalence_name(*self),
    {
        match self {
            EquivalenceRule::DoubleNegation => "Double Negation",
            EquivalenceRule::DeMorgan => "DeMorgan's Theorem",
            EquivalenceRule::Commutation => "Commutation",
            EquivalenceRule::Association => "Association",
            EquivalenceRule::Distribution => "Distribution",
            EquivalenceRule::Contraposition => "Contraposition",
            EquivalenceRule::Implication => "Implication",
            EquivalenceRule::Exportation => "Exportation",
            EquivalenceRule::Tautology => "Tautology",
            EquivalenceRule::Equivalence => "Equivalence",
        }
    }

    /// The rule's abbreviation, as written in proof justifications.
    pub fn abbreviation(&self) -> (r: &'static str)
        ensures
            r@ == equivalence_abbreviation(*self),
    {
        match self {
            EquivalenceRule::DoubleNegation => "DN",
            EquivalenceRule::DeMorgan => "DeM",
            EquivalenceRule::Commutation => "Comm",
            EquivalenceRule::Association => "Assoc",
            EquivalenceRule::Distribution => "Dist",
            EquivalenceRule::Contraposition => "Contra",
            EquivalenceRule::Implication => "Impl",
            EquivalenceRule::Exportation => "Exp",
            EquivalenceRule::Tautology => "Taut",
            EquivalenceRule::Equivalence => "Equiv",
        }
    }

    /// Every rewrite of this rule at the root of `formula`, both directions
    /// where the rule has two.
    pub fn equivalent_forms(&self, formula: &Formula) -> (r: Vec<Formula>)
        ensures
            views(r@) == equiv_forms(*self, formula@),
    {
        match self {
            EquivalenceRule::DoubleNegation => double_negation(formula),
            EquivalenceRule::DeMorgan => de_morgan(formula),
            EquivalenceRule::Commutation => commutation(formula),
            EquivalenceRule::Association => association(formula),
            EquivalenceRule::Distribution => distribution(formula),
            EquivalenceRule::Contraposition => contraposition(formula),
            EquivalenceRule::Implication => implication(formula),
            EquivalenceRule::Exportation => exportation(formula),
            EquivalenceRule::Tautology => tautology(formula),
            EquivalenceRule::Equivalence => equivalence(formula),
        }
    }

    /// Is `to` one rewrite of `from` at its root?
    pub fn can_transform(&self, from: &Formula, to: &Formula) -> (r: bool)
        ensures
            r == equiv_forms(*self, from@).contains(to@),
    {
        let forms = self.equivalent_forms(from);
        contains_formula(&forms, to)
    }

    /// Where `replacement` is a rewrite of `target_subformula`, the formula
    /// with every occurrence of the target replaced.
    pub fn apply_to_subformula(
        &self,
        formula: &Formula,
        target_subformula: &Formula,
        replacement: &Formula,
    ) -> (r: Option<Formula>)
        ensures
            equiv_forms(*self, target_subformula@).contains(replacement@) ==> r is Some && r->0@
                == replace_all(formula@, target_subformula@, replacement@),
            !equiv_forms(*self, target_subformula@).contains(replacement@) ==> r is None,
    {
        if !self.can_transform(target_subformula, replacement) {
            return None;
        }
        Some(Self::replace_subformula(formula, target_subformula, replacement))
    }

    /// Every occurrence of `target` in `formula` replaced by `replacement`.
    pub fn replace_subformula(formula: &Formula, target: &Formula, replacement: &Formula) -> (r:
        Formula)
        ensures
            r@ == replace_all(formula@, target@, replacement@),
        decreases formula,
    {
        if formula.equals(target) {
            return replacement.clone();
        }
        match formula {
            Formula::Atom(_) | Formula::Contradiction => formula.clone(),
            Formula::Not(a) => Formula::Not(
                Box::new(Self::replace_subformula(a, target, replacement)),
            ),
            Formula::And(a, b) => Formula::And(
                Box::new(Self::replace_subformula(a, target, replacement)),
                Box::new(Self::replace_subformula(b, target, replacement)),
            ),
            Formula::Or(a, b) => Formula::Or(
                Box::new(Self::replace_subformula(a, target, replacement)),
                Box::new(Self::replace_subformula(b, target, replacement)),
            ),
            Formula::Implies(a, b) => Formula::Implies(
                Box::new(Self::replace_subformula(a, target, replacement)),
                Box::new(Self::replace_subformula(b, target, replacement)),
            ),
            Formula::Biconditional(a, b) => Formula::Biconditional(
                Box::new(Self::replace_subformula(a, target, replacement)),
                Box::new(Self::replace_subformula(b, target, replacement)),
            ),
        }
    }

    /// All ten rules, in their customary order.
    pub fn all() -> (r: Vec<EquivalenceRule>)
        ensures
            r@.len() == 10,
            forall|rule: EquivalenceRule| #[trigger] r@.contains(rule),
    {
        let r = vec![
            EquivalenceRule::DoubleNegation,
            EquivalenceRule::DeMorgan,
            EquivalenceRule::Commutation,
            EquivalenceRule::Association,
            EquivalenceRule::Distribution,
            EquivalenceRule::Contraposition,
            EquivalenceRule::Implication,
            EquivalenceRule::Exportation,
            EquivalenceRule::Tautology,
            EquivalenceRule::Equivalence,
        ];
        proof {
            assert forall|rule: EquivalenceRule| #[trigger] r@.contains(rule) by {
                match rule {
                    EquivalenceRule::DoubleNegation => assert(r@[0] == rule),
                    EquivalenceRule::DeMorgan => assert(r@[1] == rule),
                    EquivalenceRule::Commutation => assert(r@[2] == rule),
                    EquivalenceRule::Association => assert(r@[3] == rule),
                    EquivalenceRule::Distribution => assert(r@[4] == rule),
                    EquivalenceRule::Contraposition => assert(r@[5] == rule),
                    EquivalenceRule::Implication => assert(r@[6] == rule),
                    EquivalenceRule::Exportation => assert(r@[7] == rule),
                    EquivalenceRule::Tautology => assert(r@[8] == rule),
                    EquivalenceRule::Equivalence => assert(r@[9] == rule),
                }
            }
        }
        r
    }
}

} // verus!
