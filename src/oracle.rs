//! Semantic checks on premises and conclusions, decided by the two-tier
//! truth-table engine over the atoms of the formulas involved, and the
//! degeneracy check that decides whether a theorem is worth proving.

use crate::dyn_table::{holds, is_tautology_dynamic};
use crate::formula::{fand, fbicond, fimp, fnot, left_of, right_of, Formula, FormulaView};
use crate::text::{push_decimal, push_text, string_of};
use crate::truth_table::views;
use vstd::prelude::*;

verus! {

/// Why a theorem was rejected.
#[derive(Debug, Clone, Copy, PartialEq, Eq, Structural)]
pub enum DegenerateProofError {
    /// No row makes every premise true.
    ContradictoryPremises,
    /// The conclusion is true in every row.
    TautologicalConclusion,
    /// Some premise is true in every row.
    TautologicalPremise,
    /// One premise alone entails the conclusion.
    SinglePremiseEntails,
    /// Some premise has the truth table of the negated conclusion.
    NegationOfConclusionAvailable,
    /// Some antecedent of the conclusion is refuted by a premise.
    ConditionalTrivialViaExplosion,
    /// Two premises have the same truth table.
    RedundantPremises,
    /// Some premise can be dropped without losing the entailment.
    UnnecessaryPremise,
    /// The premises do not entail the conclusion.
    InvalidTheorem,
    /// A proof exists with fewer steps than asked for.
    TooEasy { min_steps: usize, actual_steps: usize },
    /// No subproof is needed.
    NoSubproofRequired,
    /// The conclusion is a conditional whose consequent already follows.
    DoesNotForceCP,
    /// No disjunctive premise needs a case split.
    DoesNotForceCaseSplit,
    /// The conclusion can be had without an indirect proof.
    DoesNotForceIP,
}

/// The formula that is always true: `~#`.
pub open spec fn truth() -> FormulaView {
    fnot(FormulaView::Contradiction)
}

/// The left-nested conjunction of the formulas, `truth()` for none.
pub open spec fn conj_all(ps: Seq<FormulaView>) -> FormulaView
    decreases ps.len(),
{
    if ps.len() == 0 {
        truth()
    } else {
        fand(conj_all(ps.drop_last()), ps.last())
    }
}

/// The premises together entail the conclusion.
pub open spec fn entails_spec(ps: Seq<FormulaView>, c: FormulaView) -> bool {
    holds(fimp(conj_all(ps), c))
}

/// The two formulas agree under every assignment.
pub open spec fn equivalent(f: FormulaView, g: FormulaView) -> bool {
    holds(fbicond(f, g))
}

/// Some formula of `ps` is equivalent to `g`.
pub open spec fn available(ps: Seq<FormulaView>, g: FormulaView) -> bool {
    exists|i: int| 0 <= i < ps.len() && equivalent(ps[i], g)
}

/// The operand of a negation.
pub open spec fn inner_of(f: FormulaView) -> FormulaView {
    match f {
        FormulaView::Not(a) => *a,
        _ => f,
    }
}

/// The antecedents met when walking down the right spine of nested
/// implications.
pub open spec fn antecedents(f: FormulaView) -> Seq<FormulaView>
    decreases f,
{
    match f {
        FormulaView::Implies(a, b) => seq![*a] + antecedents(*b),
        _ => Seq::empty(),
    }
}

/// A one-step derivation of the conclusion exists, up to equivalence: it
/// is a premise, or follows by modus ponens, modus tollens, simplification,
/// disjunctive syllogism or double-negation elimination.
pub open spec fn derivable_directly(ps: Seq<FormulaView>, c: FormulaView) -> bool {
    ||| available(ps, c)
    ||| exists|i: int|
        0 <= i < ps.len() && ps[i] is Implies && equivalent(right_of(ps[i]), c) && available(
            ps,
            left_of(ps[i]),
        )
    ||| c is Not && exists|i: int|
        0 <= i < ps.len() && ps[i] is Implies && equivalent(left_of(ps[i]), inner_of(c))
            && available(ps, fnot(right_of(ps[i])))
    ||| exists|i: int|
        0 <= i < ps.len() && ps[i] is And && (equivalent(left_of(ps[i]), c) || equivalent(
            right_of(ps[i]),
            c,
        ))
    ||| exists|i: int|
        0 <= i < ps.len() && ps[i] is Or && ((equivalent(right_of(ps[i]), c) && available(
            ps,
            fnot(left_of(ps[i])),
        )) || (equivalent(left_of(ps[i]), c) && available(ps, fnot(right_of(ps[i])))))
    ||| c is Not && inner_of(c) is Not && available(ps, inner_of(inner_of(c)))
}

/// Some disjunctive premise has neither disjunct refuted by a premise.
pub open spec fn case_split_forced(ps: Seq<FormulaView>) -> bool {
    exists|i: int|
        0 <= i < ps.len() && ps[i] is Or && !available(ps, fnot(left_of(ps[i]))) && !available(
            ps,
            fnot(right_of(ps[i])),
        )
}

/// Every premise is needed: the premises entail the conclusion and no
/// premise can be left out.
pub open spec fn all_necessary_spec(ps: Seq<FormulaView>, c: FormulaView) -> bool {
    entails_spec(ps, c) && forall|k: int| 0 <= k < ps.len() ==> !entails_spec(#[trigger] ps.remove(k), c)
}

/// The first degeneracy that the theorem shows, in the order in which they
/// are checked; `None` when it shows none.
pub open spec fn degeneracy(ps: Seq<FormulaView>, c: FormulaView) -> Option<DegenerateProofError> {
    if holds(fnot(conj_all(ps))) {
        Some(DegenerateProofError::ContradictoryPremises)
    } else if exists|i: int| 0 <= i < ps.len() && holds(#[trigger] ps[i]) {
        Some(DegenerateProofError::TautologicalPremise)
    } else if holds(c) {
        Some(DegenerateProofError::TautologicalConclusion)
    } else if exists|i: int| 0 <= i < ps.len() && holds(fimp(#[trigger] ps[i], c)) {
        Some(DegenerateProofError::SinglePremiseEntails)
    } else if available(ps, fnot(c)) {
        Some(DegenerateProofError::NegationOfConclusionAvailable)
    } else if exists|j: int|
        0 <= j < antecedents(c).len() && available(ps, fnot(#[trigger] antecedents(c)[j])) {
        Some(DegenerateProofError::ConditionalTrivialViaExplosion)
    } else if exists|i: int, j: int| 0 <= i < j < ps.len() && equivalent(#[trigger] ps[i], #[trigger] ps[j]) {
        Some(DegenerateProofError::RedundantPremises)
    } else if !all_necessary_spec(ps, c) {
        Some(DegenerateProofError::UnnecessaryPremise)
    } else if !entails_spec(ps, c) {
        Some(DegenerateProofError::InvalidTheorem)
    } else {
        None
    }
}

fn neg(f: &Formula) -> (r: Formula)
    ensures
        r@ == fnot(f@),
{
    Formula::Not(Box::new(f.clone()))
}

fn iff(f: &Formula, g: &Formula) -> (r: Formula)
    ensures
        r@ == fbicond(f@, g@),
{
    Formula::Biconditional(Box::new(f.clone()), Box::new(g.clone()))
}

fn imp(f: &Formula, g: &Formula) -> (r: Formula)
    ensures
        r@ == fimp(f@, g@),
{
    Formula::Implies(Box::new(f.clone()), Box::new(g.clone()))
}

/// The conjunction of all the premises (`~#` for none).
fn conjunction(premises: &[Formula]) -> (r: Formula)
    ensures
        r@ == conj_all(views(premises@)),
{
    let mut acc = Formula::Not(Box::new(Formula::Contradiction));
    let mut i: usize = 0;
    proof {
        assert(views(premises@).subrange(0, 0) =~= Seq::<FormulaView>::empty());
        reveal_with_fuel(crate::formula::view_of, 2);
    }
    while i < premises.len()
        invariant
            i <= premises@.len(),
            acc@ == conj_all(views(premises@).subrange(0, i as int)),
        decreases premises@.len() - i,
    {
        proof {
            let s = views(premises@).subrange(0, i + 1);
            assert(s.drop_last() =~= views(premises@).subrange(0, i as int));
        }
        acc = Formula::And(Box::new(acc), Box::new(premises[i].clone()));
        i = i + 1;
    }
    proof {
        assert(views(premises@).subrange(0, i as int) =~= views(premises@));
    }
    acc
}

/// Is some row true for every premise?
pub fn premises_consistent(premises: &[Formula]) -> (r: bool)
    ensures
        r == !holds(fnot(conj_all(views(premises@)))),
{
    !is_tautology_dynamic(&neg(&conjunction(premises)))
}

/// Do the premises entail the conclusion?
pub fn entails(premises: &[Formula], conclusion: &Formula) -> (r: bool)
    ensures
        r == entails_spec(views(premises@), conclusion@),
{
    is_tautology_dynamic(&imp(&conjunction(premises), conclusion))
}

/// Does one premise alone entail the conclusion?
pub fn single_premise_entails(premises: &[Formula], conclusion: &Formula) -> (r: bool)
    ensures
        r == exists|i: int|
            0 <= i < premises@.len() && holds(fimp(#[trigger] views(premises@)[i], conclusion@)),
{
    let mut i: usize = 0;
    while i < premises.len()
        invariant
            i <= premises@.len(),
            forall|j: int| 0 <= j < i ==> !holds(fimp(#[trigger] views(premises@)[j], conclusion@)),
        decreases premises@.len() - i,
    {
        if is_tautology_dynamic(&imp(&premises[i], conclusion)) {
            proof {
                assert(views(premises@)[i as int] == premises@[i as int]@);
            }
            return true;
        }
        i = i + 1;
    }
    false
}

/// Is some premise equivalent to `g`?
pub fn formula_available(premises: &[Formula], g: &Formula) -> (r: bool)
    ensures
        r == available(views(premises@), g@),
{
    let mut i: usize = 0;
    while i < premises.len()
        invariant
            i <= premises@.len(),
            forall|j: int| 0 <= j < i ==> !equivalent(#[trigger] views(premises@)[j], g@),
        decreases premises@.len() - i,
    {
        if is_tautology_dynamic(&iff(&premises[i], g)) {
            proof {
                assert(views(premises@)[i as int] == premises@[i as int]@);
            }
            return true;
        }
        i = i + 1;
    }
    false
}

/// Is some premise equivalent to the negated conclusion?
pub fn conclusion_negation_available(premises: &[Formula], conclusion: &Formula) -> (r: bool)
    ensures
        r == available(views(premises@), fnot(conclusion@)),
{
    formula_available(premises, &neg(conclusion))
}

/// Walking down the conclusion's chain of implications, is the negation of
/// some antecedent equivalent to a premise?
pub fn conditional_trivial_via_explosion(premises: &[Formula], conclusion: &Formula) -> (r: bool)
    ensures
        r == exists|j: int|
            0 <= j < antecedents(conclusion@).len() && available(
                views(premises@),
                fnot(#[trigger] antecedents(conclusion@)[j]),
            ),
{
    let mut current = conclusion;
    let ghost mut seen: int = 0;
    loop
        invariant
            0 <= seen,
            seen + antecedents(current@).len() == antecedents(conclusion@).len(),
            forall|j: int|
                0 <= j < antecedents(current@).len() ==> antecedents(current@)[j] == antecedents(
                    conclusion@,
                )[seen + j],
            forall|j: int|
                0 <= j < seen ==> !available(
                    views(premises@),
                    fnot(#[trigger] antecedents(conclusion@)[j]),
                ),
        decreases antecedents(current@).len(),
    {
        match current {
            Formula::Implies(a, b) => {
                proof {
                    assert(antecedents(current@)[0] == a@);
                    assert forall|j: int| 0 <= j < antecedents(b@).len() implies antecedents(b@)[j] == antecedents(conclusion@)[seen + 1 + j] by {
                        assert(antecedents(current@)[j + 1] == antecedents(b@)[j]);
                    }
                }
                if formula_available(premises, &neg(a)) {
                    proof {
                        assert(antecedents(conclusion@)[seen] == a@);
                    }
                    return true;
                }
                current = b;
                proof {
                    seen = seen + 1;
                }
            },
            _ => {
                return false;
            },
        }
    }
}

/// Does leaving out any one premise lose the entailment?
pub fn all_premises_necessary(premises: &[Formula], conclusion: &Formula) -> (r: bool)
    ensures
        r == all_necessary_spec(views(premises@), conclusion@),
{
    if !entails(premises, conclusion) {
        return false;
    }
    let ghost ps = views(premises@);
    let mut k: usize = 0;
    while k < premises.len()
        invariant
            k <= premises@.len(),
            ps == views(premises@),
            entails_spec(ps, conclusion@),
            forall|m: int| 0 <= m < k ==> !entails_spec(#[trigger] ps.remove(m), conclusion@),
        decreases premises@.len() - k,
    {
        let mut reduced: Vec<Formula> = Vec::new();
        let mut j: usize = 0;
        while j < premises.len()
            invariant
                j <= premises@.len(),
                k < premises@.len(),
                ps == views(premises@),
                views(reduced@) == if j <= k {
                    ps.subrange(0, j as int)
                } else {
                    ps.subrange(0, k as int) + ps.subrange(k + 1, j as int)
                },
            decreases premises@.len() - j,
        {
            if j != k {
                let ghost before = reduced@;
                reduced.push(premises[j].clone());
                proof {
                    assert(views(reduced@) =~= views(before).push(premises@[j as int]@));
                    if j < k {
                        assert(ps.subrange(0, j + 1) =~= ps.subrange(0, j as int).push(ps[j as int]));
                    } else {
                        assert(ps.subrange(k + 1, j + 1) =~= ps.subrange(k + 1, j as int).push(ps[j as int]));
                        assert(ps.subrange(0, k as int) + ps.subrange(k + 1, j + 1) =~= (ps.subrange(0, k as int) + ps.subrange(k + 1, j as int)).push(ps[j as int]));
                    }
                }
            } else {
                proof {
                    assert(ps.subrange(k + 1, k + 1) =~= Seq::<FormulaView>::empty());
                    assert(ps.subrange(0, k as int) + ps.subrange(k + 1, j + 1) =~= ps.subrange(0, k as int));
                }
            }
            j = j + 1;
        }
        proof {
            assert(views(reduced@) =~= ps.remove(k as int));
        }
        if entails(reduced.as_slice(), conclusion) {
            return false;
        }
        k = k + 1;
    }
    true
}

/// Are two premises equivalent?
pub fn has_redundant_premises(premises: &[Formula]) -> (r: bool)
    ensures
        r == exists|i: int, j: int|
            0 <= i < j < premises@.len() && equivalent(#[trigger] views(premises@)[i], #[trigger] views(premises@)[j]),
{
    let ghost ps = views(premises@);
    let mut j: usize = 0;
    while j < premises.len()
        invariant
            j <= premises@.len(),
            ps == views(premises@),
            forall|a: int, b: int| 0 <= a < b < j ==> !equivalent(#[trigger] ps[a], #[trigger] ps[b]),
        decreases premises@.len() - j,
    {
        let mut i: usize = 0;
        while i < j
            invariant
                i <= j < premises@.len(),
                ps == views(premises@),
                forall|a: int, b: int| 0 <= a < b < j ==> !equivalent(#[trigger] ps[a], #[trigger] ps[b]),
                forall|a: int| 0 <= a < i ==> !equivalent(#[trigger] ps[a], ps[j as int]),
            decreases j - i,
        {
            if is_tautology_dynamic(&iff(&premises[i], &premises[j])) {
                proof {
                    assert(equivalent(ps[i as int], ps[j as int]));
                }
                return true;
            }
            i = i + 1;
        }
        j = j + 1;
    }
    false
}

/// Is the conclusion a conditional whose consequent the premises do not
/// already entail?
pub fn forces_cp(premises: &[Formula], conclusion: &Formula) -> (r: bool)
    ensures
        r == (conclusion@ is Implies && !entails_spec(views(premises@), right_of(conclusion@))),
{
    match conclusion {
        Formula::Implies(_, b) => !entails(premises, b),
        _ => false,
    }
}

/// Is there a disjunctive premise neither of whose disjuncts is refuted by a
/// premise?
pub fn forces_case_split(premises: &[Formula]) -> (r: bool)
    ensures
        r == case_split_forced(views(premises@)),
{
    let ghost ps = views(premises@);
    let mut i: usize = 0;
    while i < premises.len()
        invariant
            i <= premises@.len(),
            ps == views(premises@),
            forall|m: int|
                0 <= m < i ==> !(#[trigger] ps[m] is Or && !available(ps, fnot(left_of(ps[m])))
                    && !available(ps, fnot(right_of(ps[m])))),
        decreases premises@.len() - i,
    {
        match &premises[i] {
            Formula::Or(a, b) => {
                let na = formula_available(premises, &neg(a));
                let nb = formula_available(premises, &neg(b));
                if !na && !nb {
                    proof {
                        assert(ps[i as int] == premises@[i as int]@);
                    }
                    return true;
                }
            },
            _ => {},
        }
        i = i + 1;
    }
    false
}

/// Is the conclusion an atom or a negation that no single step reaches?
pub fn forces_ip(premises: &[Formula], conclusion: &Formula) -> (r: bool)
    ensures
        r == ((conclusion@ is Atom || conclusion@ is Not) && !derivable_directly(views(premises@), conclusion@)),
{
    match conclusion {
        Formula::Atom(_) | Formula::Not(_) => !can_derive_directly(premises, conclusion),
        _ => false,
    }
}

fn derive_by_mp(premises: &[Formula], c: &Formula) -> (r: bool)
    ensures
        r == exists|i: int|
            0 <= i < premises@.len() && (#[trigger] views(premises@)[i]) is Implies && equivalent(
                right_of(views(premises@)[i]),
                c@,
            ) && available(views(premises@), left_of(views(premises@)[i])),
{
    let ghost ps = views(premises@);
    let mut i: usize = 0;
    while i < premises.len()
        invariant
            i <= premises@.len(),
            ps == views(premises@),
            forall|m: int|
                0 <= m < i ==> !((#[trigger] ps[m]) is Implies && equivalent(right_of(ps[m]), c@)
                    && available(ps, left_of(ps[m]))),
        decreases premises@.len() - i,
    {
        match &premises[i] {
            Formula::Implies(a, b) => {
                if is_tautology_dynamic(&iff(b, c)) && formula_available(premises, a) {
                    proof {
                        assert(ps[i as int] == premises@[i as int]@);
                    }
                    return true;
                }
            },
            _ => {},
        }
        i = i + 1;
    }
    false
}

fn derive_by_mt(premises: &[Formula], inner: &Formula) -> (r: bool)
    ensures
        r == exists|i: int|
            0 <= i < premises@.len() && (#[trigger] views(premises@)[i]) is Implies && equivalent(
                left_of(views(premises@)[i]),
                inner@,
            ) && available(views(premises@), fnot(right_of(views(premises@)[i]))),
{
    let ghost ps = views(premises@);
    let mut i: usize = 0;
    while i < premises.len()
        invariant
            i <= premises@.len(),
            ps == views(premises@),
            forall|m: int|
                0 <= m < i ==> !((#[trigger] ps[m]) is Implies && equivalent(left_of(ps[m]), inner@)
                    && available(ps, fnot(right_of(ps[m])))),
        decreases premises@.len() - i,
    {
        match &premises[i] {
            Formula::Implies(a, b) => {
                if is_tautology_dynamic(&iff(a, inner)) && formula_available(premises, &neg(b)) {
                    proof {
                        assert(ps[i as int] == premises@[i as int]@);
                    }
                    return true;
                }
            },
            _ => {},
        }
        i = i + 1;
    }
    false
}

fn derive_by_simp(premises: &[Formula], c: &Formula) -> (r: bool)
    ensures
        r == exists|i: int|
            0 <= i < premises@.len() && (#[trigger] views(premises@)[i]) is And && (equivalent(
                left_of(views(premises@)[i]),
                c@,
            ) || equivalent(right_of(views(premises@)[i]), c@)),
{
    let ghost ps = views(premises@);
    let mut i: usize = 0;
    while i < premises.len()
        invariant
            i <= premises@.len(),
            ps == views(premises@),
            forall|m: int|
                0 <= m < i ==> !((#[trigger] ps[m]) is And && (equivalent(left_of(ps[m]), c@)
                    || equivalent(right_of(ps[m]), c@))),
        decreases premises@.len() - i,
    {
        match &premises[i] {
            Formula::And(a, b) => {
                if is_tautology_dynamic(&iff(a, c)) || is_tautology_dynamic(&iff(b, c)) {
                    proof {
                        assert(ps[i as int] == premises@[i as int]@);
                    }
                    return true;
                }
            },
            _ => {},
        }
        i = i + 1;
    }
    false
}

fn derive_by_ds(premises: &[Formula], c: &Formula) -> (r: bool)
    ensures
        r == exists|i: int|
            0 <= i < premises@.len() && (#[trigger] views(premises@)[i]) is Or && ((equivalent(
                right_of(views(premises@)[i]),
                c@,
            ) && available(views(premises@), fnot(left_of(views(premises@)[i])))) || (equivalent(
                left_of(views(premises@)[i]),
                c@,
            ) && available(views(premises@), fnot(right_of(views(premises@)[i]))))),
{
    let ghost ps = views(premises@);
    let mut i: usize = 0;
    while i < premises.len()
        invariant
            i <= premises@.len(),
            ps == views(premises@),
            forall|m: int|
                0 <= m < i ==> !((#[trigger] ps[m]) is Or && ((equivalent(right_of(ps[m]), c@)
                    && available(ps, fnot(left_of(ps[m])))) || (equivalent(left_of(ps[m]), c@)
                    && available(ps, fnot(right_of(ps[m])))))),
        decreases premises@.len() - i,
    {
        match &premises[i] {
            Formula::Or(a, b) => {
                let first = is_tautology_dynamic(&iff(b, c)) && formula_available(premises, &neg(a));
                let second = is_tautology_dynamic(&iff(a, c)) && formula_available(premises, &neg(b));
                if first || second {
                    proof {
                        assert(ps[i as int] == premises@[i as int]@);
                    }
                    return true;
                }
            },
            _ => {},
        }
        i = i + 1;
    }
    false
}

/// Can the conclusion be reached from the premises in one step, up to
/// equivalence?
pub fn can_derive_directly(premises: &[Formula], conclusion: &Formula) -> (r: bool)
    ensures
        r == derivable_directly(views(premises@), conclusion@),
{
    if formula_available(premises, conclusion) {
        return true;
    }
    if derive_by_mp(premises, conclusion) {
        return true;
    }
    match conclusion {
        Formula::Not(inner) => {
            if derive_by_mt(premises, inner) {
                return true;
            }
        },
        _ => {},
    }
    if derive_by_simp(premises, conclusion) {
        return true;
    }
    if derive_by_ds(premises, conclusion) {
        return true;
    }
    match conclusion {
        Formula::Not(inner) => match &**inner {
            Formula::Not(inner2) => {
                if formula_available(premises, inner2) {
                    return true;
                }
            },
            _ => {},
        },
        _ => {},
    }
    false
}

/// Checks a theorem for the degeneracies that make it trivial, redundant,
/// contradictory or invalid, and reports the first one found.
pub fn validate_theorem(premises: &[Formula], conclusion: &Formula) -> (r: Result<
    (),
    DegenerateProofError,
>)
    ensures
        match degeneracy(views(premises@), conclusion@) {
            Some(e) => r == Err::<(), DegenerateProofError>(e),
            None => r is Ok,
        },
{
    let ghost ps = views(premises@);
    if !premises_consistent(premises) {
        return Err(DegenerateProofError::ContradictoryPremises);
    }
    let mut i: usize = 0;
    while i < premises.len()
        invariant
            i <= premises@.len(),
            ps == views(premises@),
            !holds(fnot(conj_all(ps))),
            forall|m: int| 0 <= m < i ==> !holds(#[trigger] ps[m]),
        decreases premises@.len() - i,
    {
        if is_tautology_dynamic(&premises[i]) {
            proof {
                assert(ps[i as int] == premises@[i as int]@);
            }
            return Err(DegenerateProofError::TautologicalPremise);
        }
        i = i + 1;
    }
    if is_tautology_dynamic(conclusion) {
        return Err(DegenerateProofError::TautologicalConclusion);
    }
    if single_premise_entails(premises, conclusion) {
        return Err(DegenerateProofError::SinglePremiseEntails);
    }
    if conclusion_negation_available(premises, conclusion) {
        return Err(DegenerateProofError::NegationOfConclusionAvailable);
    }
    if conditional_trivial_via_explosion(premises, conclusion) {
        return Err(DegenerateProofError::ConditionalTrivialViaExplosion);
    }
    if has_redundant_premises(premises) {
        return Err(DegenerateProofError::RedundantPremises);
    }
    if !all_premises_necessary(premises, conclusion) {
        return Err(DegenerateProofError::UnnecessaryPremise);
    }
    if !entails(premises, conclusion) {
        return Err(DegenerateProofError::InvalidTheorem);
    }
    Ok(())
}

/// After the degeneracy checks: the first requirement among forcing
/// conditional proof, a case split, or indirect proof that the theorem
/// fails.
pub open spec fn requirement_failure(
    ps: Seq<FormulaView>,
    c: FormulaView,
    require_cp: bool,
    require_case_split: bool,
    require_ip: bool,
) -> Option<DegenerateProofError> {
    if require_cp && !(c is Implies && !entails_spec(ps, right_of(c))) {
        Some(DegenerateProofError::DoesNotForceCP)
    } else if require_case_split && !case_split_forced(ps) {
        Some(DegenerateProofError::DoesNotForceCaseSplit)
    } else if require_ip && !((c is Atom || c is Not) && !derivable_directly(ps, c)) {
        Some(DegenerateProofError::DoesNotForceIP)
    } else {
        None
    }
}

/// The degeneracy checks of `validate_theorem`, then: when `min_steps` is
/// given and the proof search finds a proof of fewer steps, `TooEasy`; then
/// the requirements that are asked for, in order.
pub fn validate_theorem_with_difficulty(
    premises: &[Formula],
    conclusion: &Formula,
    min_steps: Option<usize>,
    require_cp: bool,
    require_case_split: bool,
    require_ip: bool,
) -> (r: Result<(), DegenerateProofError>)
    ensures
        degeneracy(views(premises@), conclusion@) matches Some(e) ==> r == Err::<(), DegenerateProofError>(e),
        degeneracy(views(premises@), conclusion@) is None ==> match r {
            Err(DegenerateProofError::TooEasy { min_steps: m, actual_steps: a }) => min_steps == Some(m) && a < m,
            _ => match requirement_failure(views(premises@), conclusion@, require_cp, require_case_split, require_ip) {
                Some(e) => r == Err::<(), DegenerateProofError>(e),
                None => r is Ok,
            },
        },
{
    match validate_theorem(premises, conclusion) {
        Err(e) => {
            return Err(e);
        },
        Ok(()) => {},
    }
    match min_steps {
        Some(min) => match crate::proof_search::minimum_proof_steps(premises, conclusion, min) {
            Some(actual) => {
                if actual < min {
                    return Err(DegenerateProofError::TooEasy { min_steps: min, actual_steps: actual });
                }
            },
            None => {},
        },
        None => {},
    }
    if require_cp && !forces_cp(premises, conclusion) {
        return Err(DegenerateProofError::DoesNotForceCP);
    }
    if require_case_split && !forces_case_split(premises) {
        return Err(DegenerateProofError::DoesNotForceCaseSplit);
    }
    if require_ip && !forces_ip(premises, conclusion) {
        return Err(DegenerateProofError::DoesNotForceIP);
    }
    Ok(())
}

impl DegenerateProofError {
    /// A sentence describing the degeneracy.
    pub fn describe(&self) -> String {
        match self {
            DegenerateProofError::ContradictoryPremises => string_of(
                "Premises are contradictory (no interpretation makes all true)",
            ),
            DegenerateProofError::TautologicalConclusion => string_of(
                "Conclusion is a tautology (no proof needed)",
            ),
            DegenerateProofError::TautologicalPremise => string_of(
                "A premise is a tautology (always true, contributes nothing)",
            ),
            DegenerateProofError::SinglePremiseEntails => string_of(
                "A single premise entails the conclusion (trivial proof)",
            ),
            DegenerateProofError::NegationOfConclusionAvailable => string_of(
                "Negation of conclusion is available as a premise",
            ),
            DegenerateProofError::ConditionalTrivialViaExplosion => string_of(
                "Conditional trivially provable via explosion",
            ),
            DegenerateProofError::RedundantPremises => string_of(
                "Redundant (semantically equivalent) premises detected",
            ),
            DegenerateProofError::UnnecessaryPremise => string_of(
                "At least one premise is unnecessary for the proof",
            ),
            DegenerateProofError::InvalidTheorem => string_of(
                "Invalid theorem: premises do not entail conclusion",
            ),
            DegenerateProofError::TooEasy { min_steps, actual_steps } => {
                let mut s = string_of("Proof too easy: solvable in ");
                push_decimal(&mut s, *actual_steps);
                push_text(&mut s, " steps, need at least ");
                push_decimal(&mut s, *min_steps);
                s
            },
            DegenerateProofError::NoSubproofRequired => string_of(
                "Theorem solvable without subproof rules (CP/IP required for this difficulty)",
            ),
            DegenerateProofError::DoesNotForceCP => string_of(
                "Theorem doesn't force conditional proof (conclusion A⊃B but premises entail B)",
            ),
            DegenerateProofError::DoesNotForceCaseSplit => string_of(
                "Theorem doesn't force case split (no disjunction requires it)",
            ),
            DegenerateProofError::DoesNotForceIP => string_of("Theorem doesn't force indirect proof"),
        }
    }
}

} // verus!
