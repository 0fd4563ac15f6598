//! Propositional formulas, positional paths and structural rewriting.

use std::sync::Arc;
use vstd::prelude::*;
use vstd::string::*;

verus! {

/// One step of a positional path into a formula.
#[derive(Debug, Clone, Copy, PartialEq, Eq, Structural)]
pub enum PathStep {
    /// Into the operand of a negation.
    Inner,
    /// Into the left operand of a binary connective.
    Left,
    /// Into the right operand of a binary connective.
    Right,
}

/// The mathematical value of a formula: the same tree, with atom names as
/// character sequences.
pub enum FormulaView {
    Atom(Seq<char>),
    Not(Box<FormulaView>),
    And(Box<FormulaView>, Box<FormulaView>),
    Or(Box<FormulaView>, Box<FormulaView>),
    Implies(Box<FormulaView>, Box<FormulaView>),
    Biconditional(Box<FormulaView>, Box<FormulaView>),
    Contradiction,
}

/// A propositional formula.
#[derive(Debug, Eq, Hash)]
pub enum Formula {
    Atom(String),
    Not(Box<Formula>),
    And(Box<Formula>, Box<Formula>),
    Or(Box<Formula>, Box<Formula>),
    Implies(Box<Formula>, Box<Formula>),
    Biconditional(Box<Formula>, Box<Formula>),
    Contradiction,
}

/// A formula shared between several owners.
pub type SharedFormula = Arc<Formula>;

pub open spec fn fnot(a: FormulaView) -> FormulaView {
    FormulaView::Not(Box::new(a))
}

pub open spec fn fand(a: FormulaView, b: FormulaView) -> FormulaView {
    FormulaView::And(Box::new(a), Box::new(b))
}

pub open spec fn f_or(a: FormulaView, b: FormulaView) -> FormulaView {
    FormulaView::Or(Box::new(a), Box::new(b))
}

pub open spec fn fimp(a: FormulaView, b: FormulaView) -> FormulaView {
    FormulaView::Implies(Box::new(a), Box::new(b))
}

pub open spec fn fbicond(a: FormulaView, b: FormulaView) -> FormulaView {
    FormulaView::Biconditional(Box::new(a), Box::new(b))
}

pub open spec fn view_of(f: Formula) -> FormulaView
    decreases f,
{
    match f {
        Formula::Atom(s) => FormulaView::Atom(s@),
        Formula::Not(a) => fnot(view_of(*a)),
        Formula::And(a, b) => fand(view_of(*a), view_of(*b)),
        Formula::Or(a, b) => f_or(view_of(*a), view_of(*b)),
        Formula::Implies(a, b) => fimp(view_of(*a), view_of(*b)),
        Formula::Biconditional(a, b) => fbicond(view_of(*a), view_of(*b)),
        Formula::Contradiction => FormulaView::Contradiction,
    }
}

impl View for Formula {
    type V = FormulaView;

    open spec fn view(&self) -> FormulaView {
        view_of(*self)
    }
}

/// Longest root-to-leaf path; atoms and the contradiction constant have depth 0.
pub open spec fn depth_of(f: FormulaView) -> nat
    decreases f,
{
    match f {
        FormulaView::Atom(_) | FormulaView::Contradiction => 0,
        FormulaView::Not(a) => 1 + depth_of(*a),
        FormulaView::And(a, b) | FormulaView::Or(a, b) | FormulaView::Implies(a, b)
        | FormulaView::Biconditional(a, b) => 1 + if depth_of(*a) >= depth_of(*b) {
            depth_of(*a)
        } else {
            depth_of(*b)
        },
    }
}

/// Number of nodes of the tree.
pub open spec fn node_count_of(f: FormulaView) -> nat
    decreases f,
{
    match f {
        FormulaView::Atom(_) | FormulaView::Contradiction => 1,
        FormulaView::Not(a) => 1 + node_count_of(*a),
        FormulaView::And(a, b) | FormulaView::Or(a, b) | FormulaView::Implies(a, b)
        | FormulaView::Biconditional(a, b) => 1 + node_count_of(*a) + node_count_of(*b),
    }
}

/// The names of all atoms occurring in the formula.
pub open spec fn atom_set(f: FormulaView) -> Set<Seq<char>>
    decreases f,
{
    match f {
        FormulaView::Atom(s) => set![s],
        FormulaView::Contradiction => Set::empty(),
        FormulaView::Not(a) => atom_set(*a),
        FormulaView::And(a, b) | FormulaView::Or(a, b) | FormulaView::Implies(a, b)
        | FormulaView::Biconditional(a, b) => atom_set(*a) + atom_set(*b),
    }
}

/// The names held by a sequence of strings.
pub open spec fn names(v: Seq<String>) -> Set<Seq<char>> {
    Set::new(|s: Seq<char>| exists|i: int| 0 <= i < v.len() && v[i]@ == s)
}

/// Is the formula a binary connective?
pub open spec fn is_binary(f: FormulaView) -> bool {
    f is And || f is Or || f is Implies || f is Biconditional
}

/// Left operand of a binary connective.
pub open spec fn left_of(f: FormulaView) -> FormulaView {
    match f {
        FormulaView::And(a, _) | FormulaView::Or(a, _) | FormulaView::Implies(a, _)
        | FormulaView::Biconditional(a, _) => *a,
        _ => f,
    }
}

/// Right operand of a binary connective.
pub open spec fn right_of(f: FormulaView) -> FormulaView {
    match f {
        FormulaView::And(_, b) | FormulaView::Or(_, b) | FormulaView::Implies(_, b)
        | FormulaView::Biconditional(_, b) => *b,
        _ => f,
    }
}

/// The same binary connective as `f`, with new operands.
pub open spec fn rebuild(f: FormulaView, a: FormulaView, b: FormulaView) -> FormulaView {
    match f {
        FormulaView::And(_, _) => fand(a, b),
        FormulaView::Or(_, _) => f_or(a, b),
        FormulaView::Implies(_, _) => fimp(a, b),
        FormulaView::Biconditional(_, _) => fbicond(a, b),
        _ => f,
    }
}

/// The node that a path leads to, if the path fits the shape of the formula.
pub open spec fn at_path(f: FormulaView, path: Seq<PathStep>) -> Option<FormulaView>
    decreases path.len(),
{
    if path.len() == 0 {
        Some(f)
    } else {
        match (path[0], f) {
            (PathStep::Inner, FormulaView::Not(a)) => at_path(*a, path.drop_first()),
            (PathStep::Left, _) if is_binary(f) => at_path(left_of(f), path.drop_first()),
            (PathStep::Right, _) if is_binary(f) => at_path(right_of(f), path.drop_first()),
            _ => None,
        }
    }
}

/// The formula with the node at `path` replaced; unchanged where the path
/// does not fit the shape of the formula.
pub open spec fn replace_path(f: FormulaView, path: Seq<PathStep>, r: FormulaView) -> FormulaView
    decreases path.len(),
{
    if path.len() == 0 {
        r
    } else {
        match (path[0], f) {
            (PathStep::Inner, FormulaView::Not(a)) => fnot(replace_path(*a, path.drop_first(), r)),
            (PathStep::Left, _) if is_binary(f) => rebuild(
                f,
                replace_path(left_of(f), path.drop_first(), r),
                right_of(f),
            ),
            (PathStep::Right, _) if is_binary(f) => rebuild(
                f,
                left_of(f),
                replace_path(right_of(f), path.drop_first(), r),
            ),
            _ => f,
        }
    }
}

/// Every occurrence of the atom `name` replaced by `r`.
pub open spec fn subst(f: FormulaView, name: Seq<char>, r: FormulaView) -> FormulaView
    decreases f,
{
    match f {
        FormulaView::Atom(s) => if s == name {
            r
        } else {
            f
        },
        FormulaView::Contradiction => f,
        FormulaView::Not(a) => fnot(subst(*a, name, r)),
        FormulaView::And(a, b) => fand(subst(*a, name, r), subst(*b, name, r)),
        FormulaView::Or(a, b) => f_or(subst(*a, name, r), subst(*b, name, r)),
        FormulaView::Implies(a, b) => fimp(subst(*a, name, r), subst(*b, name, r)),
        FormulaView::Biconditional(a, b) => fbicond(subst(*a, name, r), subst(*b, name, r)),
    }
}

/// Pre-order enumeration of all nodes.
pub open spec fn subformula_seq(f: FormulaView) -> Seq<FormulaView>
    decreases f,
{
    match f {
        FormulaView::Atom(_) | FormulaView::Contradiction => seq![f],
        FormulaView::Not(a) => seq![f] + subformula_seq(*a),
        FormulaView::And(a, b) | FormulaView::Or(a, b) | FormulaView::Implies(a, b)
        | FormulaView::Biconditional(a, b) => seq![f] + subformula_seq(*a) + subformula_seq(*b),
    }
}

/// Each path in `ps`, prefixed by `step`.
pub open spec fn prefix_all(step: PathStep, ps: Seq<Seq<PathStep>>) -> Seq<Seq<PathStep>> {
    ps.map_values(|p: Seq<PathStep>| seq![step] + p)
}

/// Pre-order enumeration of the paths of all nodes.
pub open spec fn path_seq(f: FormulaView) -> Seq<Seq<PathStep>>
    decreases f,
{
    match f {
        FormulaView::Atom(_) | FormulaView::Contradiction => seq![Seq::empty()],
        FormulaView::Not(a) => seq![Seq::empty()] + prefix_all(PathStep::Inner, path_seq(*a)),
        FormulaView::And(a, b) | FormulaView::Or(a, b) | FormulaView::Implies(a, b)
        | FormulaView::Biconditional(a, b) => seq![Seq::empty()] + prefix_all(
            PathStep::Left,
            path_seq(*a),
        ) + prefix_all(PathStep::Right, path_seq(*b)),
    }
}

/// The path enumeration and the node enumeration line up.
pub proof fn lemma_path_seq_len(f: FormulaView)
    ensures
        path_seq(f).len() == subformula_seq(f).len(),
    decreases f,
{
    match f {
        FormulaView::Not(a) => lemma_path_seq_len(*a),
        FormulaView::And(a, b) | FormulaView::Or(a, b) | FormulaView::Implies(a, b)
        | FormulaView::Biconditional(a, b) => {
            lemma_path_seq_len(*a);
            lemma_path_seq_len(*b);
        },
        _ => {},
    }
}

/// The `i`-th enumerated path leads to the `i`-th enumerated node.
pub proof fn lemma_path_seq_valid(f: FormulaView, i: int)
    requires
        0 <= i < path_seq(f).len(),
    ensures
        path_seq(f).len() == subformula_seq(f).len(),
        at_path(f, path_seq(f)[i]) == Some(subformula_seq(f)[i]),
    decreases f,
{
    lemma_path_seq_len(f);
    match f {
        FormulaView::Not(a) => {
            if i > 0 {
                let p = path_seq(*a)[i - 1];
                lemma_path_seq_valid(*a, i - 1);
                assert(path_seq(f)[i] == seq![PathStep::Inner] + p);
                assert((seq![PathStep::Inner] + p).drop_first() =~= p);
            }
        },
        FormulaView::And(a, b) | FormulaView::Or(a, b) | FormulaView::Implies(a, b)
        | FormulaView::Biconditional(a, b) => {
            let na = path_seq(*a).len();
            if 1 <= i < 1 + na {
                let p = path_seq(*a)[i - 1];
                lemma_path_seq_valid(*a, i - 1);
                assert(path_seq(f)[i] == seq![PathStep::Left] + p);
                assert((seq![PathStep::Left] + p).drop_first() =~= p);
            } else if i >= 1 + na {
                let p = path_seq(*b)[i - 1 - na];
                lemma_path_seq_valid(*b, i - 1 - na);
                assert(path_seq(f)[i] == seq![PathStep::Right] + p);
                assert((seq![PathStep::Right] + p).drop_first() =~= p);
            }
        },
        _ => {},
    }
}

/// Replacing the node at a path by the node found there gives the formula back.
pub proof fn lemma_replace_with_own_node(f: FormulaView, path: Seq<PathStep>)
    requires
        at_path(f, path) is Some,
    ensures
        replace_path(f, path, at_path(f, path)->0) == f,
    decreases path.len(),
{
    if path.len() > 0 {
        match (path[0], f) {
            (PathStep::Inner, FormulaView::Not(a)) => {
                lemma_replace_with_own_node(*a, path.drop_first());
            },
            (PathStep::Left, _) => {
                lemma_replace_with_own_node(left_of(f), path.drop_first());
            },
            (PathStep::Right, _) => {
                lemma_replace_with_own_node(right_of(f), path.drop_first());
            },
            _ => {},
        }
    }
}

/// Replacing the node at a path by a formula with the same atoms keeps the
/// formula's atoms.
pub proof fn lemma_replace_keeps_atoms(f: FormulaView, path: Seq<PathStep>, r: FormulaView)
    requires
        at_path(f, path) matches Some(g) && atom_set(g) == atom_set(r),
    ensures
        atom_set(replace_path(f, path, r)) == atom_set(f),
    decreases path.len(),
{
    if path.len() > 0 {
        match (path[0], f) {
            (PathStep::Inner, FormulaView::Not(a)) => {
                lemma_replace_keeps_atoms(*a, path.drop_first(), r);
            },
            (PathStep::Left, _) => {
                lemma_replace_keeps_atoms(left_of(f), path.drop_first(), r);
                assert(atom_set(replace_path(f, path, r)) =~= atom_set(f));
            },
            (PathStep::Right, _) => {
                lemma_replace_keeps_atoms(right_of(f), path.drop_first(), r);
                assert(atom_set(replace_path(f, path, r)) =~= atom_set(f));
            },
            _ => {},
        }
    }
}

/// For every path that `subformulas_with_paths` yields, putting back the node
/// it yields with that path leaves the formula unchanged.
pub proof fn law_replace_at_own_path(f: FormulaView, i: int)
    requires
        0 <= i < path_seq(f).len(),
    ensures
        at_path(f, path_seq(f)[i]) == Some(subformula_seq(f)[i]),
        replace_path(f, path_seq(f)[i], subformula_seq(f)[i]) == f,
{
    lemma_path_seq_valid(f, i);
    lemma_replace_with_own_node(f, path_seq(f)[i]);
}

impl Clone for Formula {
    fn clone(&self) -> (r: Self)
        ensures
            r == *self,
        decreases self,
    {
        match self {
            Formula::Atom(s) => Formula::Atom(s.clone()),
            Formula::Not(a) => Formula::Not(Box::new((**a).clone())),
            Formula::And(a, b) => Formula::And(Box::new((**a).clone()), Box::new((**b).clone())),
            Formula::Or(a, b) => Formula::Or(Box::new((**a).clone()), Box::new((**b).clone())),
            Formula::Implies(a, b) => Formula::Implies(
                Box::new((**a).clone()),
                Box::new((**b).clone()),
            ),
            Formula::Biconditional(a, b) => Formula::Biconditional(
                Box::new((**a).clone()),
                Box::new((**b).clone()),
            ),
            Formula::Contradiction => Formula::Contradiction,
        }
    }
}

impl PartialEq for Formula {
    fn eq(&self, other: &Formula) -> (r: bool)
        ensures
            r == (self@ == other@),
    {
        self.equals(other)
    }
}

impl vstd::std_specs::cmp::PartialEqSpecImpl for Formula {
    open spec fn obeys_eq_spec() -> bool {
        true
    }

    open spec fn eq_spec(&self, other: &Formula) -> bool {
        self@ == other@
    }
}

impl Formula {
    /// Wraps the formula for shared ownership.
    pub fn shared(self) -> (r: SharedFormula)
        ensures
            *r == self,
    {
        Arc::new(self)
    }

    /// An owned copy of a shared formula.
    pub fn from_shared(shared: &SharedFormula) -> (r: Formula)
        ensures
            r == **shared,
    {
        (**shared).clone()
    }

    /// Structural equality.
    pub fn equals(&self, other: &Formula) -> (r: bool)
        ensures
            r == (self@ == other@),
        decreases self,
    {
        match (self, other) {
            (Formula::Atom(a), Formula::Atom(b)) => *a == *b,
            (Formula::Not(a), Formula::Not(b)) => a.equals(b),
            (Formula::And(a1, b1), Formula::And(a2, b2)) => a1.equals(a2) && b1.equals(b2),
            (Formula::Or(a1, b1), Formula::Or(a2, b2)) => a1.equals(a2) && b1.equals(b2),
            (Formula::Implies(a1, b1), Formula::Implies(a2, b2)) => a1.equals(a2) && b1.equals(b2),
            (Formula::Biconditional(a1, b1), Formula::Biconditional(a2, b2)) => a1.equals(a2)
                && b1.equals(b2),
            (Formula::Contradiction, Formula::Contradiction) => true,
            _ => false,
        }
    }

    /// Longest root-to-leaf path (saturating at the largest `usize`).
    pub fn depth(&self) -> (r: usize)
        ensures
            r as nat == if depth_of(self@) <= usize::MAX as nat {
                depth_of(self@)
            } else {
                usize::MAX as nat
            },
        decreases self,
    {
        match self {
            Formula::Atom(_) | Formula::Contradiction => 0,
            Formula::Not(a) => a.depth().saturating_add(1),
            Formula::And(a, b) | Formula::Or(a, b) | Formula::Implies(a, b)
            | Formula::Biconditional(a, b) => {
                let da = a.depth();
                let db = b.depth();
                let m = if da >= db {
                    da
                } else {
                    db
                };
                m.saturating_add(1)
            },
        }
    }

    /// Is the formula a negation?
    pub fn is_negation(&self) -> (r: bool)
        ensures
            r == (self@ is Not),
    {
        match self {
            Formula::Not(_) => true,
            _ => false,
        }
    }

    /// The operand of a negation.
    pub fn negated_inner(&self) -> (r: Option<&Formula>)
        ensures
            match self@ {
                FormulaView::Not(a) => r is Some && r->0@ == *a,
                _ => r is None,
            },
    {
        match self {
            Formula::Not(a) => Some(&**a),
            _ => None,
        }
    }

    /// The negation of the formula.
    pub fn negate(&self) -> (r: Formula)
        ensures
            r@ == fnot(self@),
    {
        Formula::Not(Box::new(self.clone()))
    }

    /// The symbol of the main connective; `None` for atoms and the constant.
    pub fn main_connective(&self) -> (r: Option<&'static str>)
        ensures
            r is None <==> (self@ is Atom || self@ is Contradiction),
    {
        match self {
            Formula::Atom(_) | Formula::Contradiction => None,
            Formula::Not(_) => Some("~"),
            Formula::And(_, _) => Some("·"),
            Formula::Or(_, _) => Some("∨"),
            Formula::Implies(_, _) => Some("⊃"),
            Formula::Biconditional(_, _) => Some("≡"),
        }
    }

    /// The names of all atoms of the formula, each once, in order of first
    /// occurrence.
    pub fn atoms(&self) -> (r: Vec<String>)
        ensures
            names(r@) == atom_set(self@),
            forall|i: int, j: int| 0 <= i < j < r@.len() ==> r@[i]@ != r@[j]@,
    {
        let mut out: Vec<String> = Vec::new();
        proof {
            assert(names(out@) =~= Set::<Seq<char>>::empty());
        }
        self.collect_atoms(&mut out);
        proof {
            assert(names(out@) =~= atom_set(self@));
        }
        out
    }

    fn collect_atoms(&self, out: &mut Vec<String>)
        requires
            forall|i: int, j: int| 0 <= i < j < old(out)@.len() ==> old(out)@[i]@ != old(out)@[j]@,
        ensures
            forall|i: int, j: int| 0 <= i < j < final(out)@.len() ==> final(out)@[i]@ != final(out)@[j]@,
            names(final(out)@) == atom_set(self@) + names(old(out)@),
        decreases self,
    {
        match self {
            Formula::Atom(name) => {
                let mut i: usize = 0;
                while i < out.len()
                    invariant
                        i <= out@.len(),
                        self@ == FormulaView::Atom(name@),
                        out@ == old(out)@,
                        forall|i: int, j: int| 0 <= i < j < old(out)@.len() ==> old(out)@[i]@ != old(out)@[j]@,
                        forall|j: int| 0 <= j < i ==> out@[j]@ != name@,
                    decreases out@.len() - i,
                {
                    if str_eq(out[i].as_str(), name.as_str()) {
                        proof {
                            assert(names(out@).contains(name@));
                            assert(names(out@) =~= atom_set(self@) + names(old(out)@));
                        }
                        return;
                    }
                    i = i + 1;
                }
                out.push(name.clone());
                proof {
                    assert(out@[out@.len() - 1]@ == name@);
                    assert forall|x: Seq<char>| names(out@).contains(x) <==> (atom_set(self@) + names(old(out)@)).contains(x) by {
                        if names(out@).contains(x) {
                            let k = choose|k: int| 0 <= k < out@.len() && out@[k]@ == x;
                            if k < old(out)@.len() {
                                assert(old(out)@[k]@ == x);
                            }
                        }
                        if names(old(out)@).contains(x) {
                            let k = choose|k: int| 0 <= k < old(out)@.len() && old(out)@[k]@ == x;
                            assert(out@[k]@ == x);
                        }
                    }
                    assert(names(out@) =~= atom_set(self@) + names(old(out)@));
                }
            },
            Formula::Not(a) => {
                a.collect_atoms(out);
            },
            Formula::And(a, b) | Formula::Or(a, b) | Formula::Implies(a, b)
            | Formula::Biconditional(a, b) => {
                a.collect_atoms(out);
                b.collect_atoms(out);
                proof {
                    assert(names(out@) =~= atom_set(self@) + names(old(out)@));
                }
            },
            Formula::Contradiction => {
                proof {
                    assert(names(out@) =~= atom_set(self@) + names(old(out)@));
                }
            },
        }
    }

    /// The formula with the node at `path` replaced by `replacement`; the
    /// formula unchanged where the path does not fit its shape.
    pub fn replace_at_path(&self, path: &[PathStep], replacement: &Formula) -> (r: Formula)
        ensures
            r@ == replace_path(self@, path@, replacement@),
    {
        proof {
            assert(path@.subrange(0, path@.len() as int) =~= path@);
        }
        self.replace_from(path, 0, replacement)
    }

    fn replace_from(&self, path: &[PathStep], i: usize, replacement: &Formula) -> (r: Formula)
        requires
            i <= path@.len(),
        ensures
            r@ == replace_path(self@, path@.subrange(i as int, path@.len() as int), replacement@),
        decreases path@.len() - i,
    {
        let ghost rest = path@.subrange(i as int, path@.len() as int);
        if i >= path.len() {
            return replacement.clone();
        }
        proof {
            assert(rest.drop_first() =~= path@.subrange(i + 1, path@.len() as int));
        }
        let step = path[i];
        match (step, self) {
            (PathStep::Inner, Formula::Not(a)) => Formula::Not(
                Box::new(a.replace_from(path, i + 1, replacement)),
            ),
            (PathStep::Left, Formula::And(a, b)) => Formula::And(
                Box::new(a.replace_from(path, i + 1, replacement)),
                Box::new((**b).clone()),
            ),
            (PathStep::Right, Formula::And(a, b)) => Formula::And(
                Box::new((**a).clone()),
                Box::new(b.replace_from(path, i + 1, replacement)),
            ),
            (PathStep::Left, Formula::Or(a, b)) => Formula::Or(
                Box::new(a.replace_from(path, i + 1, replacement)),
                Box::new((**b).clone()),
            ),
            (PathStep::Right, Formula::Or(a, b)) => Formula::Or(
                Box::new((**a).clone()),
                Box::new(b.replace_from(path, i + 1, replacement)),
            ),
            (PathStep::Left, Formula::Implies(a, b)) => Formula::Implies(
                Box::new(a.replace_from(path, i + 1, replacement)),
                Box::new((**b).clone()),
            ),
            (PathStep::Right, Formula::Implies(a, b)) => Formula::Implies(
                Box::new((**a).clone()),
                Box::new(b.replace_from(path, i + 1, replacement)),
            ),
            (PathStep::Left, Formula::Biconditional(a, b)) => Formula::Biconditional(
                Box::new(a.replace_from(path, i + 1, replacement)),
                Box::new((**b).clone()),
            ),
            (PathStep::Right, Formula::Biconditional(a, b)) => Formula::Biconditional(
                Box::new((**a).clone()),
                Box::new(b.replace_from(path, i + 1, replacement)),
            ),
            _ => self.clone(),
        }
    }

    /// Every occurrence of the atom `variable` replaced by `replacement`.
    pub fn substitute(&self, variable: &str, replacement: &Formula) -> (r: Formula)
        ensures
            r@ == subst(self@, variable@, replacement@),
        decreases self,
    {
        match self {
            Formula::Atom(name) => {
                if str_eq(name.as_str(), variable) {
                    replacement.clone()
                } else {
                    self.clone()
                }
            },
            Formula::Not(a) => Formula::Not(Box::new(a.substitute(variable, replacement))),
            Formula::And(a, b) => Formula::And(
                Box::new(a.substitute(variable, replacement)),
                Box::new(b.substitute(variable, replacement)),
            ),
            Formula::Or(a, b) => Formula::Or(
                Box::new(a.substitute(variable, replacement)),
                Box::new(b.substitute(variable, replacement)),
            ),
            Formula::Implies(a, b) => Formula::Implies(
                Box::new(a.substitute(variable, replacement)),
                Box::new(b.substitute(variable, replacement)),
            ),
            Formula::Biconditional(a, b) => Formula::Biconditional(
                Box::new(a.substitute(variable, replacement)),
                Box::new(b.substitute(variable, replacement)),
            ),
            Formula::Contradiction => Formula::Contradiction,
        }
    }

    /// All nodes of the formula, in pre-order, the formula itself first.
    pub fn subformulas(&self) -> (r: Vec<Formula>)
        ensures
            r@.len() == subformula_seq(self@).len(),
            forall|i: int| 0 <= i < r@.len() ==> #[trigger] r@[i]@ == subformula_seq(self@)[i],
    {
        let mut out: Vec<Formula> = Vec::new();
        self.collect_subformulas(&mut out);
        proof {
            assert forall|i: int| 0 <= i < out@.len() implies #[trigger] out@[i]@ == subformula_seq(self@)[i] by {
                assert(out@[0 + i]@ == subformula_seq(self@)[i]);
            }
        }
        out
    }

    fn collect_subformulas(&self, out: &mut Vec<Formula>)
        ensures
            final(out)@.len() == old(out)@.len() + subformula_seq(self@).len(),
            forall|i: int| 0 <= i < old(out)@.len() ==> #[trigger] final(out)@[i] == old(out)@[i],
            forall|i: int|
                0 <= i < subformula_seq(self@).len() ==> #[trigger] final(out)@[old(out)@.len()
                    + i]@ == subformula_seq(self@)[i],
        decreases self,
    {
        let ghost start = out@.len();
        out.push(self.clone());
        match self {
            Formula::Atom(_) | Formula::Contradiction => {},
            Formula::Not(a) => {
                a.collect_subformulas(out);
                proof {
                    assert forall|i: int| 0 <= i < subformula_seq(self@).len() implies #[trigger] out@[start + i]@ == subformula_seq(self@)[i] by {
                        if i > 0 {
                            assert(out@[start + 1 + (i - 1)]@ == subformula_seq(a@)[i - 1]);
                        }
                    }
                }
            },
            Formula::And(a, b) | Formula::Or(a, b) | Formula::Implies(a, b)
            | Formula::Biconditional(a, b) => {
                a.collect_subformulas(out);
                let ghost mid = out@.len();
                b.collect_subformulas(out);
                proof {
                    let na = subformula_seq(a@).len() as int;
                    assert forall|i: int| 0 <= i < subformula_seq(self@).len() implies #[trigger] out@[start + i]@ == subformula_seq(self@)[i] by {
                        if 1 <= i < 1 + na {
                            assert(out@[start + 1 + (i - 1)]@ == subformula_seq(a@)[i - 1]);
                        } else if i >= 1 + na {
                            assert(out@[mid + (i - 1 - na)]@ == subformula_seq(b@)[i - 1 - na]);
                        }
                    }
                }
            },
        }
    }

    /// All nodes with their positional paths from the root, in pre-order.
    /// Structurally equal subtrees at different places get different paths.
    pub fn subformulas_with_paths(&self) -> (r: Vec<(Vec<PathStep>, &Formula)>)
        ensures
            r@.len() == path_seq(self@).len(),
            forall|i: int|
                0 <= i < r@.len() ==> (#[trigger] r@[i]).0@ == path_seq(self@)[i] && r@[i].1@
                    == subformula_seq(self@)[i],
    {
        let mut out: Vec<(Vec<PathStep>, &Formula)> = Vec::new();
        let mut prefix: Vec<PathStep> = Vec::new();
        self.collect_with_paths(&mut prefix, &mut out);
        proof {
            assert forall|i: int| 0 <= i < out@.len() implies (#[trigger] out@[i]).0@ == path_seq(self@)[i] && out@[i].1@ == subformula_seq(self@)[i] by {
                assert(out@[0 + i].0@ == Seq::<PathStep>::empty() + path_seq(self@)[i]);
                assert(Seq::<PathStep>::empty() + path_seq(self@)[i] =~= path_seq(self@)[i]);
            }
        }
        out
    }

    fn collect_with_paths<'a>(
        &'a self,
        prefix: &mut Vec<PathStep>,
        out: &mut Vec<(Vec<PathStep>, &'a Formula)>,
    )
        ensures
            final(prefix)@ == old(prefix)@,
            final(out)@.len() == old(out)@.len() + path_seq(self@).len(),
            path_seq(self@).len() == subformula_seq(self@).len(),
            forall|i: int| 0 <= i < old(out)@.len() ==> #[trigger] final(out)@[i] == old(out)@[i],
            forall|i: int|
                0 <= i < path_seq(self@).len() ==> (#[trigger] final(out)@[old(out)@.len()
                    + i]).0@ == old(prefix)@ + path_seq(self@)[i] && final(out)@[old(out)@.len()
                    + i].1@ == subformula_seq(self@)[i],
        decreases self,
    {
        proof {
            lemma_path_seq_len(self@);
        }
        let ghost start = out@.len();
        let ghost pre = prefix@;
        out.push((prefix.clone(), self));
        proof {
            assert(pre + Seq::<PathStep>::empty() =~= pre);
        }
        match self {
            Formula::Atom(_) | Formula::Contradiction => {},
            Formula::Not(a) => {
                prefix.push(PathStep::Inner);
                a.collect_with_paths(prefix, out);
                prefix.pop();
                proof {
                    assert(prefix@ =~= pre);
                    assert forall|i: int| 0 <= i < path_seq(self@).len() implies (#[trigger] out@[start + i]).0@ == pre + path_seq(self@)[i] && out@[start + i].1@ == subformula_seq(self@)[i] by {
                        if i > 0 {
                            let p = path_seq(a@)[i - 1];
                            assert(out@[start + 1 + (i - 1)].0@ == pre.push(PathStep::Inner) + p);
                            assert(path_seq(self@)[i] == seq![PathStep::Inner] + p);
                            assert(pre.push(PathStep::Inner) + p =~= pre + (seq![PathStep::Inner] + p));
                        }
                    }
                }
            },
            Formula::And(a, b) | Formula::Or(a, b) | Formula::Implies(a, b)
            | Formula::Biconditional(a, b) => {
                prefix.push(PathStep::Left);
                a.collect_with_paths(prefix, out);
                prefix.pop();
                let ghost mid = out@.len();
                prefix.push(PathStep::Right);
                b.collect_with_paths(prefix, out);
                prefix.pop();
                proof {
                    assert(prefix@ =~= pre);
                    let na = path_seq(a@).len() as int;
                    assert forall|i: int| 0 <= i < path_seq(self@).len() implies (#[trigger] out@[start + i]).0@ == pre + path_seq(self@)[i] && out@[start + i].1@ == subformula_seq(self@)[i] by {
                        if 1 <= i < 1 + na {
                            let p = path_seq(a@)[i - 1];
                            assert(out@[start + 1 + (i - 1)].0@ == pre.push(PathStep::Left) + p);
                            assert(path_seq(self@)[i] == seq![PathStep::Left] + p);
                            assert(pre.push(PathStep::Left) + p =~= pre + (seq![PathStep::Left] + p));
                        } else if i >= 1 + na {
                            let p = path_seq(b@)[i - 1 - na];
                            assert(out@[mid + (i - 1 - na)].0@ == pre.push(PathStep::Right) + p);
                            assert(path_seq(self@)[i] == seq![PathStep::Right] + p);
                            assert(pre.push(PathStep::Right) + p =~= pre + (seq![PathStep::Right] + p));
                        }
                    }
                }
            },
        }
    }
}

/// Equality of two strings, character by character.
pub fn str_eq(a: &str, b: &str) -> (r: bool)
    ensures
        r == (a@ == b@),
{
    let n = a.unicode_len();
    if n != b.unicode_len() {
        return false;
    }
    let mut i: usize = 0;
    while i < n
        invariant
            n == a@.len(),
            n == b@.len(),
            i <= n,
            forall|j: int| 0 <= j < i ==> a@[j] == b@[j],
        decreases n - i,
    {
        if a.get_char(i) != b.get_char(i) {
            return false;
        }
        i = i + 1;
    }
    proof {
        assert(a@ =~= b@);
    }
    true
}


} // verus!
