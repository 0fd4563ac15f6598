//! Depth-bounded backward proof search, used to tell how many steps a
//! theorem needs at least and whether it needs a subproof.

use crate::formula::Formula;
use crate::dyn_table::{eval, holds};
use crate::formula::{fbicond, fnot, left_of, right_of, FormulaView};
use crate::oracle::{available, conj_all, equivalent, formula_available, inner_of, premises_consistent};
use crate::truth_table::views;
use crate::text::string_of;
use crate::truth_table::{are_equivalent, compute_truth_table, tt32};
use vstd::prelude::*;

verus! {

/// What a search found: how many steps, and which rules it used.
#[derive(Debug)]
pub struct ProofResult {
    pub found: bool,
    pub rules_used: Vec<String>,
    pub steps: usize,
    pub used_cp: bool,
    pub used_ip: bool,
    pub used_disj_elim: bool,
}

impl ProofResult {
    fn found_direct() -> (r: Self)
        ensures
            r.found,
            r.steps == 0,
            !r.used_cp && !r.used_ip,
    {
        ProofResult {
            found: true,
            rules_used: Vec::new(),
            steps: 0,
            used_cp: false,
            used_ip: false,
            used_disj_elim: false,
        }
    }

    fn found_with(steps: usize, rule: &str) -> (r: Self)
        ensures
            r.found,
            r.steps == steps,
            r.used_cp == (rule@ == "CP"@),
            r.used_ip == (rule@ == "IP"@),
    {
        let used_cp = crate::formula::str_eq(rule, "CP");
        let used_ip = crate::formula::str_eq(rule, "IP");
        let used_disj_elim = crate::formula::str_eq(rule, "DS") || crate::formula::str_eq(rule, "CaseSplit");
        ProofResult {
            found: true,
            rules_used: vec![string_of(rule)],
            steps,
            used_cp,
            used_ip,
            used_disj_elim,
        }
    }

    /// Adds the steps and rules of a sub-proof.
    fn merge(&mut self, other: &ProofResult)
        ensures
            final(self).found == old(self).found,
            final(self).used_cp == (old(self).used_cp || other.used_cp),
            final(self).used_ip == (old(self).used_ip || other.used_ip),
    {
        let mut i: usize = 0;
        while i < other.rules_used.len()
            invariant
                i <= other.rules_used@.len(),
                self.found == old(self).found,
                self.used_cp == old(self).used_cp,
                self.used_ip == old(self).used_ip,
            decreases other.rules_used@.len() - i,
        {
            let mut present = false;
            let mut j: usize = 0;
            while j < self.rules_used.len()
                invariant
                    j <= self.rules_used@.len(),
                    i < other.rules_used@.len(),
                decreases self.rules_used@.len() - j,
            {
                if crate::formula::str_eq(self.rules_used[j].as_str(), other.rules_used[i].as_str()) {
                    present = true;
                }
                j = j + 1;
            }
            if !present {
                self.rules_used.push(other.rules_used[i].clone());
            }
            i = i + 1;
        }
        self.used_cp = self.used_cp || other.used_cp;
        self.used_ip = self.used_ip || other.used_ip;
        self.used_disj_elim = self.used_disj_elim || other.used_disj_elim;
        self.steps = self.steps.saturating_add(other.steps);
    }
}

/// Absent, or a result whose `found` flag is set.
pub open spec fn found_or_none(r: Option<ProofResult>) -> bool {
    match r {
        Some(p) => p.found,
        None => true,
    }
}

/// Every formula of `ps` is true under `env`.
pub open spec fn all_true(ps: Seq<FormulaView>, env: spec_fn(Seq<char>) -> bool) -> bool {
    forall|i: int| 0 <= i < ps.len() ==> eval(#[trigger] ps[i], env)
}

/// Whenever all the premises are true, so is `g`.
pub open spec fn follows(ps: Seq<FormulaView>, g: FormulaView) -> bool {
    forall|env: spec_fn(Seq<char>) -> bool| all_true(ps, env) ==> #[trigger] eval(g, env)
}

/// No assignment makes all the premises true.
pub open spec fn contradictory(ps: Seq<FormulaView>) -> bool {
    forall|env: spec_fn(Seq<char>) -> bool| !#[trigger] all_true(ps, env)
}

proof fn lemma_equiv(f: FormulaView, g: FormulaView, env: spec_fn(Seq<char>) -> bool)
    requires
        holds(fbicond(f, g)),
    ensures
        eval(f, env) == eval(g, env),
{
    assert(eval(fbicond(f, g), env));
}

proof fn lemma_conj_all_eval(ps: Seq<FormulaView>, env: spec_fn(Seq<char>) -> bool)
    ensures
        eval(conj_all(ps), env) == all_true(ps, env),
    decreases ps.len(),
{
    if ps.len() == 0 {
        assert(!eval(FormulaView::Contradiction, env));
    } else {
        lemma_conj_all_eval(ps.drop_last(), env);
        if all_true(ps, env) {
            assert(eval(ps[ps.len() - 1], env));
        }
        if all_true(ps.drop_last(), env) && eval(ps.last(), env) {
            assert forall|i: int| 0 <= i < ps.len() implies eval(#[trigger] ps[i], env) by {
                if i < ps.len() - 1 {
                    assert(ps.drop_last()[i] == ps[i]);
                }
            }
        }
        if all_true(ps, env) {
            assert forall|i: int| 0 <= i < ps.drop_last().len() implies eval(#[trigger] ps.drop_last()[i], env) by {
                assert(ps.drop_last()[i] == ps[i]);
            }
        }
    }
}

proof fn lemma_inconsistent(ps: Seq<FormulaView>)
    requires
        holds(fnot(conj_all(ps))),
    ensures
        contradictory(ps),
{
    assert forall|env: spec_fn(Seq<char>) -> bool| !#[trigger] all_true(ps, env) by {
        assert(eval(fnot(conj_all(ps)), env));
        lemma_conj_all_eval(ps, env);
    }
}

proof fn lemma_available(ps: Seq<FormulaView>, g: FormulaView)
    requires
        available(ps, g),
    ensures
        follows(ps, g),
{
    let i = choose|i: int| 0 <= i < ps.len() && equivalent(ps[i], g);
    assert forall|env: spec_fn(Seq<char>) -> bool| all_true(ps, env) implies #[trigger] eval(g, env) by {
        lemma_equiv(ps[i], g, env);
        assert(eval(ps[i], env));
    }
}

proof fn lemma_member(ps: Seq<FormulaView>, i: int, env: spec_fn(Seq<char>) -> bool)
    requires
        0 <= i < ps.len(),
        all_true(ps, env),
    ensures
        eval(ps[i], env),
{
}

/// Every step the search takes is sound.
proof fn lemma_step(ps: Seq<FormulaView>, g: FormulaView, x: FormulaView, sub: FormulaView)
    requires
        (exists|i: int| 0 <= i < ps.len() && ps[i] == x),
        follows(ps, sub),
        ({
            ||| (x is And && (holds(fbicond(left_of(x), g)) || holds(fbicond(right_of(x), g))))
            ||| (x is Implies && holds(fbicond(right_of(x), g)) && sub == left_of(x))
            ||| (x is Implies && g is Not && holds(fbicond(left_of(x), inner_of(g))) && sub == fnot(right_of(x)))
            ||| (x is Or && holds(fbicond(right_of(x), g)) && sub == fnot(left_of(x)))
            ||| (x is Or && holds(fbicond(left_of(x), g)) && sub == fnot(right_of(x)))
        }),
    ensures
        follows(ps, g),
{
    let i = choose|i: int| 0 <= i < ps.len() && ps[i] == x;
    assert forall|env: spec_fn(Seq<char>) -> bool| all_true(ps, env) implies #[trigger] eval(g, env) by {
        lemma_member(ps, i, env);
        assert(eval(sub, env));
        if x is And {
            if holds(fbicond(left_of(x), g)) {
                lemma_equiv(left_of(x), g, env);
            } else {
                lemma_equiv(right_of(x), g, env);
            }
        } else if x is Implies {
            if holds(fbicond(right_of(x), g)) && sub == left_of(x) {
                lemma_equiv(right_of(x), g, env);
            } else {
                lemma_equiv(left_of(x), inner_of(g), env);
            }
        } else {
            if holds(fbicond(right_of(x), g)) && sub == fnot(left_of(x)) {
                lemma_equiv(right_of(x), g, env);
            } else {
                lemma_equiv(left_of(x), g, env);
            }
        }
    }
}

proof fn lemma_hs(ps: Seq<FormulaView>, x: FormulaView, y: FormulaView, g: FormulaView)
    requires
        (exists|i: int| 0 <= i < ps.len() && ps[i] == x),
        (exists|j: int| 0 <= j < ps.len() && ps[j] == y),
        x is Implies && y is Implies && g is Implies,
        holds(fbicond(left_of(x), left_of(g))),
        holds(fbicond(left_of(y), right_of(x))),
        holds(fbicond(right_of(y), right_of(g))),
    ensures
        follows(ps, g),
{
    let i = choose|i: int| 0 <= i < ps.len() && ps[i] == x;
    let j = choose|j: int| 0 <= j < ps.len() && ps[j] == y;
    assert forall|env: spec_fn(Seq<char>) -> bool| all_true(ps, env) implies #[trigger] eval(g, env) by {
        lemma_member(ps, i, env);
        lemma_member(ps, j, env);
        lemma_equiv(left_of(x), left_of(g), env);
        lemma_equiv(left_of(y), right_of(x), env);
        lemma_equiv(right_of(y), right_of(g), env);
    }
}

proof fn lemma_extended(ps: Seq<FormulaView>, a: FormulaView, env: spec_fn(Seq<char>) -> bool)
    requires
        all_true(ps, env),
        eval(a, env),
    ensures
        all_true(ps.push(a), env),
{
    assert forall|i: int| 0 <= i < ps.push(a).len() implies eval(#[trigger] ps.push(a)[i], env) by {
        if i < ps.len() {
            assert(ps.push(a)[i] == ps[i]);
        }
    }
}

proof fn lemma_rule_names()
    ensures
        "Simp"@ != "CP"@ && "Simp"@ != "IP"@,
        "DN"@ != "CP"@ && "DN"@ != "IP"@,
        "MP"@ != "CP"@ && "MP"@ != "IP"@,
        "MT"@ != "CP"@ && "MT"@ != "IP"@,
        "DS"@ != "CP"@ && "DS"@ != "IP"@,
        "HS"@ != "CP"@ && "HS"@ != "IP"@,
        "Add"@ != "CP"@ && "Add"@ != "IP"@,
        "Conj"@ != "CP"@ && "Conj"@ != "IP"@,
{
    reveal_strlit("Simp");
    reveal_strlit("DN");
    reveal_strlit("MP");
    reveal_strlit("MT");
    reveal_strlit("DS");
    reveal_strlit("HS");
    reveal_strlit("Add");
    reveal_strlit("Conj");
    reveal_strlit("CP");
    reveal_strlit("IP");
    assert("Simp"@.len() != "CP"@.len());
    assert("Simp"@.len() != "IP"@.len());
    assert("DN"@[0] != "CP"@[0] && "DN"@[0] != "IP"@[0]);
    assert("MP"@[0] != "CP"@[0] && "MP"@[0] != "IP"@[0]);
    assert("MT"@[0] != "CP"@[0] && "MT"@[0] != "IP"@[0]);
    assert("DS"@[0] != "CP"@[0] && "DS"@[0] != "IP"@[0]);
    assert("HS"@[0] != "CP"@[0] && "HS"@[0] != "IP"@[0]);
    assert("Add"@.len() != "CP"@.len() && "Add"@.len() != "IP"@.len());
    assert("Conj"@.len() != "CP"@.len() && "Conj"@.len() != "IP"@.len());
}

/// Absent, or a result that used neither conditional nor indirect proof.
pub open spec fn basic(r: Option<ProofResult>) -> bool {
    match r {
        Some(p) => !p.used_cp && !p.used_ip,
        None => true,
    }
}

/// Keeps the result with fewer steps (the earlier one on a tie).
fn update_best(best: Option<ProofResult>, new: ProofResult) -> (r: Option<ProofResult>)
    requires
        new.found,
        found_or_none(best),
    ensures
        basic(best) && !new.used_cp && !new.used_ip ==> basic(r),
        r is Some,
        found_or_none(r),
{
    match best {
        None => Some(new),
        Some(b) => if new.steps < b.steps {
            Some(new)
        } else {
            Some(b)
        },
    }
}

fn contains_table(visited: &Vec<u32>, t: u32) -> (r: bool)
    ensures
        r == visited@.contains(t),
{
    let mut i: usize = 0;
    while i < visited.len()
        invariant
            i <= visited@.len(),
            forall|j: int| 0 <= j < i ==> visited@[j] != t,
        decreases visited@.len() - i,
    {
        if visited[i] == t {
            return true;
        }
        i = i + 1;
    }
    false
}

fn remove_table(visited: &mut Vec<u32>, t: u32)
    ensures
        forall|pre: Seq<u32>| old(visited)@ == pre.push(t) && !pre.contains(t) ==> final(visited)@ == pre,
{
    let mut i: usize = 0;
    while i < visited.len()
        invariant
            i <= visited@.len(),
            visited@ == old(visited)@,
            forall|j: int| 0 <= j < i ==> visited@[j] != t,
        decreases visited@.len() - i,
    {
        if visited[i] == t {
            visited.remove(i);
            proof {
                assert forall|pre: Seq<u32>| old(visited)@ == pre.push(t) && !pre.contains(t) implies visited@ == pre by {
                    if i < pre.len() {
                        assert(pre[i as int] == t);
                    }
                    assert(visited@ =~= pre);
                }
            }
            return;
        }
        i = i + 1;
    }
    proof {
        assert forall|pre: Seq<u32>| old(visited)@ == pre.push(t) && !pre.contains(t) implies visited@ == pre by {
            assert(visited@[pre.len() as int] == t);
        }
    }
}

fn copy_tables(v: &Vec<u32>) -> (r: Vec<u32>)
    ensures
        r@ == v@,
{
    let mut out: Vec<u32> = Vec::new();
    let mut i: usize = 0;
    while i < v.len()
        invariant
            i <= v@.len(),
            out@ == v@.subrange(0, i as int),
        decreases v@.len() - i,
    {
        out.push(v[i]);
        i = i + 1;
        proof {
            assert(out@ =~= v@.subrange(0, i as int));
        }
    }
    proof {
        assert(out@ =~= v@);
    }
    out
}

fn copy_formulas(v: &[Formula]) -> (r: Vec<Formula>)
    ensures
        r@ == v@,
{
    let mut out: Vec<Formula> = Vec::new();
    let mut i: usize = 0;
    while i < v.len()
        invariant
            i <= v@.len(),
            out@ == v@.subrange(0, i as int),
        decreases v@.len() - i,
    {
        out.push(v[i].clone());
        i = i + 1;
        proof {
            assert(out@ =~= v@.subrange(0, i as int));
        }
    }
    proof {
        assert(out@ =~= v@);
    }
    out
}

/// One step by `rule`, then the sub-proof.
fn step_then(rule: &str, sub: &ProofResult) -> (r: ProofResult)
    ensures
        r.found,
        r.used_cp == (rule@ == "CP"@ || sub.used_cp),
        r.used_ip == (rule@ == "IP"@ || sub.used_ip),
{
    let mut result = ProofResult::found_with(1, rule);
    result.merge(sub);
    result
}

/// Backward search for a proof of `goal` of at most `max_depth` nested
/// steps, with the argument forms, double negation, conjunction and
/// addition, and (when `subproofs` is set) conditional and indirect proof.
/// Goals are compared by truth table; `visited` holds the truth tables of
/// the goals being searched for, to cut cycles.
#[verifier::rlimit(100)]
#[verifier::spinoff_prover]
fn search(premises: &[Formula], goal: &Formula, max_depth: usize, visited: &mut Vec<u32>, subproofs: bool) -> (r: Option<ProofResult>)
    ensures
        found_or_none(r),
        r is Some ==> follows(views(premises@), goal@),
        !subproofs ==> basic(r),
        final(visited)@ == old(visited)@,
        old(visited)@.contains(tt32(goal@)) ==> r is None,
        !old(visited)@.contains(tt32(goal@)) && (available(views(premises@), goal@) || holds(fnot(conj_all(views(premises@)))))
            ==> (r matches Some(p) && p.steps == 0),
    decreases max_depth, 0nat,
{
    let goal_tt = compute_truth_table(goal);
    if contains_table(visited, goal_tt) {
        return None;
    }
    let ghost pre = visited@;
    visited.push(goal_tt);
    if formula_available(premises, goal) {
        proof {
            lemma_available(views(premises@), goal@);
        }
        remove_table(visited, goal_tt);
        return Some(ProofResult::found_direct());
    }
    if !premises_consistent(premises) {
        proof {
            lemma_inconsistent(views(premises@));
        }
        remove_table(visited, goal_tt);
        return Some(ProofResult::found_direct());
    }
    if max_depth == 0 {
        remove_table(visited, goal_tt);
        return None;
    }
    let d = max_depth - 1;
    let mut best: Option<ProofResult> = None;
    let n = premises.len();
    let mut i: usize = 0;
    while i < n
        invariant
            found_or_none(best),
            !subproofs ==> basic(best),
            visited@ == old(visited)@.push(goal_tt),
            best is Some ==> follows(views(premises@), goal@),
            i <= n == premises@.len(),
        decreases n - i,
    {
        match &premises[i] {
            Formula::And(l, r) => {
                if are_equivalent(l, goal) || are_equivalent(r, goal) {
                    proof {
                        assert(views(premises@)[i as int] == premises@[i as int]@);
                        assert(follows(views(premises@), views(premises@)[i as int])) by {
                            let ps = views(premises@);
                            assert forall|env: spec_fn(Seq<char>) -> bool| all_true(ps, env) implies #[trigger] eval(ps[i as int], env) by {
                                lemma_member(ps, i as int, env);
                            }
                        }
                        lemma_step(views(premises@), goal@, premises@[i as int]@, premises@[i as int]@);
                    }
                    proof {
                        lemma_rule_names();
                    }
                    best = update_best(best, ProofResult::found_with(1, "Simp"));
                }
            },
            _ => {},
        }
        i = i + 1;
    }
    let double_neg = Formula::Not(Box::new(Formula::Not(Box::new(goal.clone()))));
    if formula_available(premises, &double_neg) {
        proof {
            reveal_with_fuel(crate::formula::view_of, 3);
            assert(double_neg@ == fnot(fnot(goal@)));
            lemma_available(views(premises@), double_neg@);
            assert forall|env: spec_fn(Seq<char>) -> bool| all_true(views(premises@), env) implies #[trigger] eval(goal@, env) by {
                assert(eval(double_neg@, env));
                assert(eval(fnot(goal@), env) == !eval(goal@, env));
            }
        }
        proof {
            lemma_rule_names();
        }
        best = update_best(best, ProofResult::found_with(1, "DN"));
    }
    match goal {
        Formula::Not(inner) => match &**inner {
            Formula::Not(inner2) => {
                match search(premises, inner2, d, visited, subproofs) {
                    Some(sub) => {
                        proof {
                            reveal_with_fuel(crate::formula::view_of, 3);
                            assert(goal@ == fnot(fnot(inner2@)));
                            assert forall|env: spec_fn(Seq<char>) -> bool| all_true(views(premises@), env) implies #[trigger] eval(goal@, env) by {
                                assert(eval(inner2@, env));
                                assert(eval(fnot(inner2@), env) == !eval(inner2@, env));
                            }
                        }
                        proof {
                            lemma_rule_names();
                        }
                        best = update_best(best, step_then("DN", &sub));
                    },
                    None => {},
                }
            },
            _ => {},
        },
        _ => {},
    }
    let mut i: usize = 0;
    while i < n
        invariant
            found_or_none(best),
            !subproofs ==> basic(best),
            visited@ == old(visited)@.push(goal_tt),
            best is Some ==> follows(views(premises@), goal@),
            i <= n == premises@.len(),
            d < max_depth,
        decreases n - i,
    {
        match &premises[i] {
            Formula::Implies(ant, cons) => {
                if are_equivalent(cons, goal) {
                    match search(premises, ant, d, visited, subproofs) {
                        Some(sub) => {
                            proof {
                                assert(views(premises@)[i as int] == premises@[i as int]@);
                                lemma_step(views(premises@), goal@, premises@[i as int]@, ant@);
                            }
                            proof {
                                lemma_rule_names();
                            }
                            best = update_best(best, step_then("MP", &sub));
                        },
                        None => {},
                    }
                }
            },
            _ => {},
        }
        i = i + 1;
    }
    match goal {
        Formula::Not(inner_a) => {
            let mut i: usize = 0;
            while i < n
                invariant
                    goal@ == fnot(inner_a@),
                    found_or_none(best),
                    !subproofs ==> basic(best),
                    visited@ == old(visited)@.push(goal_tt),
                    best is Some ==> follows(views(premises@), goal@),
                    i <= n == premises@.len(),
                    d < max_depth,
                decreases n - i,
            {
                match &premises[i] {
                    Formula::Implies(ant, cons) => {
                        if are_equivalent(ant, inner_a) {
                            let not_b = Formula::Not(Box::new((**cons).clone()));
                            match search(premises, &not_b, d, visited, subproofs) {
                                Some(sub) => {
                                    proof {
                                        assert(views(premises@)[i as int] == premises@[i as int]@);
                                        lemma_step(views(premises@), goal@, premises@[i as int]@, not_b@);
                                    }
                                    proof {
                                        lemma_rule_names();
                                    }
                                    best = update_best(best, step_then("MT", &sub));
                                },
                                None => {},
                            }
                        }
                    },
                    _ => {},
                }
                i = i + 1;
            }
        },
        _ => {},
    }
    let mut i: usize = 0;
    while i < n
        invariant
            found_or_none(best),
            !subproofs ==> basic(best),
            visited@ == old(visited)@.push(goal_tt),
            best is Some ==> follows(views(premises@), goal@),
            i <= n == premises@.len(),
            d < max_depth,
        decreases n - i,
    {
        match &premises[i] {
            Formula::Or(l, r) => {
                if are_equivalent(r, goal) {
                    let not_left = Formula::Not(Box::new((**l).clone()));
                    match search(premises, &not_left, d, visited, subproofs) {
                        Some(sub) => {
                            proof {
                                assert(views(premises@)[i as int] == premises@[i as int]@);
                                lemma_step(views(premises@), goal@, premises@[i as int]@, not_left@);
                            }
                            proof {
                                lemma_rule_names();
                            }
                            best = update_best(best, step_then("DS", &sub));
                        },
                        None => {},
                    }
                }
                if are_equivalent(l, goal) {
                    let not_right = Formula::Not(Box::new((**r).clone()));
                    match search(premises, &not_right, d, visited, subproofs) {
                        Some(sub) => {
                            proof {
                                assert(views(premises@)[i as int] == premises@[i as int]@);
                                lemma_step(views(premises@), goal@, premises@[i as int]@, not_right@);
                            }
                            proof {
                                lemma_rule_names();
                            }
                            best = update_best(best, step_then("DS", &sub));
                        },
                        None => {},
                    }
                }
            },
            _ => {},
        }
        i = i + 1;
    }
    match goal {
        Formula::Implies(a, c) => {
            let mut i: usize = 0;
            while i < n
                invariant
                    goal@ == crate::formula::fimp(a@, c@),
                    found_or_none(best),
                    !subproofs ==> basic(best),
                    visited@ == old(visited)@.push(goal_tt),
                    best is Some ==> follows(views(premises@), goal@),
                    i <= n == premises@.len(),
                decreases n - i,
            {
                match &premises[i] {
                    Formula::Implies(ant1, cons1) => {
                        if are_equivalent(ant1, a) {
                            let mut j: usize = 0;
                            while j < n
                                invariant
                                    goal@ == crate::formula::fimp(a@, c@),
                                    i < premises@.len(),
                                    premises@[i as int]@ == crate::formula::fimp(ant1@, cons1@),
                                    holds(fbicond(ant1@, a@)),
                                    found_or_none(best),
                                    !subproofs ==> basic(best),
                                    visited@ == old(visited)@.push(goal_tt),
                                    best is Some ==> follows(views(premises@), goal@),
                                    j <= n == premises@.len(),
                                decreases n - j,
                            {
                                match &premises[j] {
                                    Formula::Implies(ant2, cons2) => {
                                        if are_equivalent(ant2, cons1) && are_equivalent(cons2, c) {
                                            proof {
                                                assert(views(premises@)[i as int] == premises@[i as int]@);
                                                assert(views(premises@)[j as int] == premises@[j as int]@);
                                                lemma_hs(views(premises@), premises@[i as int]@, premises@[j as int]@, goal@);
                                            }
                                            proof {
                                                lemma_rule_names();
                                            }
                                            best = update_best(best, ProofResult::found_with(1, "HS"));
                                        }
                                    },
                                    _ => {},
                                }
                                j = j + 1;
                            }
                        }
                    },
                    _ => {},
                }
                i = i + 1;
            }
        },
        _ => {},
    }
    match goal {
        Formula::And(l, r) => {
            match search(premises, l, d, visited, subproofs) {
                Some(sub_left) => {
                    let mut visited_right = copy_tables(visited);
                    match search(premises, r, d, &mut visited_right, subproofs) {
                        Some(sub_right) => {
                            proof {
                                assert forall|env: spec_fn(Seq<char>) -> bool| all_true(views(premises@), env) implies #[trigger] eval(goal@, env) by {
                                    assert(eval(l@, env));
                                    assert(eval(r@, env));
                                }
                            }
                            let mut result = step_then("Conj", &sub_left);
                            result.merge(&sub_right);
                            proof {
                                lemma_rule_names();
                            }
                            best = update_best(best, result);
                        },
                        None => {},
                    }
                },
                None => {},
            }
        },
        _ => {},
    }
    match goal {
        Formula::Or(l, r) => {
            match search(premises, l, d, visited, subproofs) {
                Some(sub) => {
                    proof {
                        assert forall|env: spec_fn(Seq<char>) -> bool| all_true(views(premises@), env) implies #[trigger] eval(goal@, env) by {
                            assert(eval(l@, env));
                        }
                    }
                    proof {
                        lemma_rule_names();
                    }
                    best = update_best(best, step_then("Add", &sub));
                },
                None => {},
            }
            match search(premises, r, d, visited, subproofs) {
                Some(sub) => {
                    proof {
                        assert forall|env: spec_fn(Seq<char>) -> bool| all_true(views(premises@), env) implies #[trigger] eval(goal@, env) by {
                            assert(eval(r@, env));
                        }
                    }
                    proof {
                        lemma_rule_names();
                    }
                    best = update_best(best, step_then("Add", &sub));
                },
                None => {},
            }
        },
        _ => {},
    }
    if subproofs {
        match goal {
            Formula::Implies(ant, cons) => {
                let mut extended = copy_formulas(premises);
                extended.push((**ant).clone());
                proof {
                    assert(views(extended@) =~= views(premises@).push(ant@));
                }
                match search(extended.as_slice(), cons, d, visited, subproofs) {
                    Some(sub) => {
                        proof {
                            assert forall|env: spec_fn(Seq<char>) -> bool| all_true(views(premises@), env) implies #[trigger] eval(goal@, env) by {
                                if eval(ant@, env) {
                                    lemma_extended(views(premises@), ant@, env);
                                    assert(eval(cons@, env));
                                }
                            }
                        }
                        let mut result = step_then("CP", &sub);
                        result.used_cp = true;
                        proof {
                            lemma_rule_names();
                        }
                        best = update_best(best, result);
                    },
                    None => {},
                }
            },
            _ => {},
        }
        if best.is_none() && max_depth >= 2 {
            let mut extended = copy_formulas(premises);
            let negated = Formula::Not(Box::new(goal.clone()));
            extended.push(negated);
            proof {
                assert(views(extended@) =~= views(premises@).push(negated@));
            }
            if can_derive_contradiction(extended.as_slice(), d) {
                proof {
                    assert forall|env: spec_fn(Seq<char>) -> bool| all_true(views(premises@), env) implies #[trigger] eval(goal@, env) by {
                        if !eval(goal@, env) {
                            lemma_extended(views(premises@), negated@, env);
                            assert(!all_true(views(extended@), env));
                        }
                    }
                }
                let mut result = ProofResult::found_with(2, "IP");
                result.used_ip = true;
                proof {
                    lemma_rule_names();
                }
                best = update_best(best, result);
            }
        }
    }
    remove_table(visited, goal_tt);
    best
}

/// Can some premise be refuted, or the operand of a negated premise be
/// proved, within `max_depth` steps (or are the premises inconsistent)?
fn can_derive_contradiction(premises: &[Formula], max_depth: usize) -> (r: bool)
    ensures
        r ==> contradictory(views(premises@)),
    decreases max_depth, 1nat,
{
    if !premises_consistent(premises) {
        proof {
            lemma_inconsistent(views(premises@));
        }
        return true;
    }
    if max_depth == 0 {
        return false;
    }
    let mut i: usize = 0;
    while i < premises.len()
        invariant
            i <= premises@.len(),
            max_depth > 0,
        decreases premises@.len() - i,
    {
        let neg_p = Formula::Not(Box::new(premises[i].clone()));
        let mut visited: Vec<u32> = Vec::new();
        if search(premises, &neg_p, max_depth, &mut visited, true).is_some() {
            proof {
                assert forall|env: spec_fn(Seq<char>) -> bool| !#[trigger] all_true(views(premises@), env) by {
                    if all_true(views(premises@), env) {
                        lemma_member(views(premises@), i as int, env);
                        assert(eval(neg_p@, env));
                    }
                }
            }
            return true;
        }
        match &premises[i] {
            Formula::Not(inner) => {
                let mut visited: Vec<u32> = Vec::new();
                if search(premises, inner, max_depth, &mut visited, true).is_some() {
                    proof {
                        assert forall|env: spec_fn(Seq<char>) -> bool| !#[trigger] all_true(views(premises@), env) by {
                            if all_true(views(premises@), env) {
                                lemma_member(views(premises@), i as int, env);
                                assert(views(premises@)[i as int] == fnot(inner@));
                                assert(eval(inner@, env));
                            }
                        }
                    }
                    return true;
                }
            },
            _ => {},
        }
        i = i + 1;
    }
    false
}

/// Backward search with every rule, conditional and indirect proof included.
pub fn prove_backward(premises: &[Formula], goal: &Formula, max_depth: usize, visited: &mut Vec<u32>) -> (r: Option<ProofResult>)
    ensures
        found_or_none(r),
        r is Some ==> follows(views(premises@), goal@),
        final(visited)@ == old(visited)@,
        old(visited)@.contains(tt32(goal@)) ==> r is None,
        !old(visited)@.contains(tt32(goal@)) && (available(views(premises@), goal@) || holds(fnot(conj_all(views(premises@)))))
            ==> (r matches Some(p) && p.steps == 0),
{
    search(premises, goal, max_depth, visited, true)
}

/// Backward search without conditional or indirect proof.
pub fn prove_backward_basic_only(premises: &[Formula], goal: &Formula, max_depth: usize, visited: &mut Vec<u32>) -> (r: Option<ProofResult>)
    ensures
        found_or_none(r),
        r is Some ==> follows(views(premises@), goal@),
        basic(r),
        final(visited)@ == old(visited)@,
        old(visited)@.contains(tt32(goal@)) ==> r is None,
        !old(visited)@.contains(tt32(goal@)) && (available(views(premises@), goal@) || holds(fnot(conj_all(views(premises@)))))
            ==> (r matches Some(p) && p.steps == 0),
{
    search(premises, goal, max_depth, visited, false)
}

/// The fewest steps of a proof found with depth bounds `0, 1, ...,
/// max_search_depth`, if any.
pub fn minimum_proof_steps(premises: &[Formula], conclusion: &Formula, max_search_depth: usize) -> (r: Option<usize>)
    ensures
        r is Some ==> follows(views(premises@), conclusion@),
{
    let mut depth: usize = 0;
    loop
        invariant
            depth <= max_search_depth,
        decreases max_search_depth - depth,
    {
        let mut visited: Vec<u32> = Vec::new();
        match search(premises, conclusion, depth, &mut visited, true) {
            Some(result) => {
                return Some(result.steps);
            },
            None => {},
        }
        if depth == max_search_depth {
            return None;
        }
        depth = depth + 1;
    }
}

/// Is there a proof of fewer than `min_steps` nested steps?
pub fn is_too_easy(premises: &[Formula], conclusion: &Formula, min_steps: usize) -> (r: bool)
    ensures
        min_steps == 0 ==> !r,
        r ==> follows(views(premises@), conclusion@),
{
    if min_steps == 0 {
        return false;
    }
    let mut visited: Vec<u32> = Vec::new();
    search(premises, conclusion, min_steps - 1, &mut visited, true).is_some()
}

/// The result of a search with the given depth bound.
pub fn analyze_proof(premises: &[Formula], conclusion: &Formula, max_depth: usize) -> (r: Option<ProofResult>)
    ensures
        found_or_none(r),
        r is Some ==> follows(views(premises@), conclusion@),
{
    let mut visited: Vec<u32> = Vec::new();
    search(premises, conclusion, max_depth, &mut visited, true)
}

/// Does the theorem resist every proof without conditional or indirect
/// proof of at most `max_depth` steps?
pub fn requires_subproof(premises: &[Formula], conclusion: &Formula, max_depth: usize) -> (r: bool)
    ensures
        !r ==> follows(views(premises@), conclusion@),
{
    let mut visited: Vec<u32> = Vec::new();
    search(premises, conclusion, max_depth, &mut visited, false).is_none()
}

/// What a difficulty level asks of a theorem.
#[derive(Debug, Clone, Copy)]
pub struct DifficultyRequirements {
    pub min_steps: usize,
    pub min_distinct_rules: usize,
    pub requires_cp_or_ip: bool,
    pub requires_disj_elim: bool,
}

impl DifficultyRequirements {
    /// The requirements of `easy`, `medium`, `hard` or `expert` (`easy` for
    /// anything else).
    pub fn for_level(level: &str) -> (r: Self)
        ensures
            level@ == "medium"@ ==> r.min_steps == 3 && r.min_distinct_rules == 2 && !r.requires_cp_or_ip && !r.requires_disj_elim,
            level@ == "hard"@ ==> r.min_steps == 5 && r.min_distinct_rules == 3 && r.requires_cp_or_ip && !r.requires_disj_elim,
            level@ == "expert"@ ==> r.min_steps == 7 && r.min_distinct_rules == 4 && r.requires_cp_or_ip && r.requires_disj_elim,
            level@ != "medium"@ && level@ != "hard"@ && level@ != "expert"@ ==> r.min_steps == 2 && r.min_distinct_rules == 1 && !r.requires_cp_or_ip && !r.requires_disj_elim,
    {
        proof {
            reveal_strlit("medium");
            reveal_strlit("hard");
            reveal_strlit("expert");
            assert("hard"@.len() == 4 && "medium"@.len() == 6 && "expert"@.len() == 6);
            assert("expert"@[0] != "medium"@[0]);
            assert("hard"@ != "medium"@);
            assert("expert"@ != "medium"@);
            assert("expert"@ != "hard"@);
        }
        let (min_steps, min_distinct_rules, requires_cp_or_ip, requires_disj_elim) = if crate::formula::str_eq(level, "medium") {
            (3, 2, false, false)
        } else if crate::formula::str_eq(level, "hard") {
            (5, 3, true, false)
        } else if crate::formula::str_eq(level, "expert") {
            (7, 4, true, true)
        } else {
            (2, 1, false, false)
        };
        DifficultyRequirements { min_steps, min_distinct_rules, requires_cp_or_ip, requires_disj_elim }
    }
}

/// Does the theorem need at least the required number of steps?
pub fn meets_difficulty(premises: &[Formula], conclusion: &Formula, requirements: &DifficultyRequirements) -> (r: bool)
    ensures
        requirements.min_steps == 0 ==> r,
{
    !is_too_easy(premises, conclusion, requirements.min_steps)
}

} // verus!
