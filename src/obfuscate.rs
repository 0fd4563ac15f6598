//! The theorem generator: a valid argument form, its atoms replaced by
//! compound formulas, wrapped as one conditional, then rewritten many times
//! by equivalence rules, keeping only rewrites that stay tautologies.

use crate::deduction::copy_numbers;
use crate::dyn_table::{
    eval,
    holds, is_tautology_dynamic, str_less, valid,
};
use crate::formula::{atom_set, f_or, fand, fimp, fnot, names, node_count_of, Formula, FormulaView};
use crate::rules::equivalence::{equiv_forms, law_equivalent_forms_keep_atoms, EquivalenceRule};
use crate::text::string_of;
use crate::theorem::{
    tier_spec, BaseComplexity, Difficulty, DifficultySpec, DifficultyTier, Theme, Theorem,
};
use crate::oracle::{conj_all, degeneracy, DegenerateProofError};
use crate::truth_table::views;
use rand::Rng;
use vstd::prelude::*;

verus! {

/// Formulas deeper than this are not rewritten further.
pub const MAX_FORMULA_DEPTH: usize = 100;

/// Formulas with more nodes than this are not rewritten further, unless a
/// spec says otherwise.
pub const MAX_FORMULA_NODES: usize = 20_000;

/// A uniformly drawn number below `n`.
/// Relies on `rand::thread_rng` and `Rng::gen_range`, which returns a value
/// of the half-open range and panics only on an empty one.
#[verifier::external_body]
fn random_below(n: usize) -> (r: usize)
    requires
        n > 0,
    ensures
        r < n,
{
    rand::thread_rng().gen_range(0..n)
}

/// The settings the generator works with.
#[derive(Debug)]
pub struct ObfuscateConfig {
    pub atom_pool: Vec<String>,
    pub transform_count: usize,
    pub difficulty: Difficulty,
    pub difficulty_value: u8,
    pub substitution_depth: usize,
    pub bridge_atoms: usize,
    /// Whether the paired rule chains run first; `None` leaves it to the
    /// difficulty value (85 and above).
    pub gnarly_combos: Option<bool>,
}

/// The legacy label of a 1-100 value.
pub open spec fn preset_of(value: u8) -> Difficulty {
    if 1 <= value <= 25 {
        Difficulty::Easy
    } else if 26 <= value <= 45 {
        Difficulty::Medium
    } else if 46 <= value <= 70 {
        Difficulty::Hard
    } else {
        Difficulty::Expert
    }
}

/// The name of the `i`-th atom of the pool: `P, Q, R, S, T`, then the other
/// capital letters in order.
pub open spec fn pool_name(i: int) -> Seq<char> {
    seq![pool_letters()[i]]
}

pub open spec fn pool_letters() -> Seq<char> {
    seq![
        'P', 'Q', 'R', 'S', 'T', 'A', 'B', 'C', 'D', 'E', 'F', 'G', 'H', 'I', 'J', 'K', 'L', 'M',
        'N', 'O', 'U', 'V', 'W', 'X', 'Y', 'Z',
    ]
}

fn letter(i: usize) -> (r: String)
    requires
        i < 26,
    ensures
        r@ == pool_name(i as int),
{
    let letters = [
        "P", "Q", "R", "S", "T", "A", "B", "C", "D", "E", "F", "G", "H", "I", "J", "K", "L", "M",
        "N", "O", "U", "V", "W", "X", "Y", "Z",
    ];
    proof {
        reveal_strlit("P");
        reveal_strlit("Q");
        reveal_strlit("R");
        reveal_strlit("S");
        reveal_strlit("T");
        reveal_strlit("A");
        reveal_strlit("B");
        reveal_strlit("C");
        reveal_strlit("D");
        reveal_strlit("E");
        reveal_strlit("F");
        reveal_strlit("G");
        reveal_strlit("H");
        reveal_strlit("I");
        reveal_strlit("J");
        reveal_strlit("K");
        reveal_strlit("L");
        reveal_strlit("M");
        reveal_strlit("N");
        reveal_strlit("O");
        reveal_strlit("U");
        reveal_strlit("V");
        reveal_strlit("W");
        reveal_strlit("X");
        reveal_strlit("Y");
        reveal_strlit("Z");
    }
    let r = string_of(letters[i]);
    proof {
        assert(r@ =~= pool_name(i as int));
    }
    r
}

/// The first `n` names of the pool (at most 26).
pub fn build_atom_pool(n: u8) -> (r: Vec<String>)
    ensures
        r@.len() == if n <= 26 {
            n as nat
        } else {
            26
        },
        forall|i: int| 0 <= i < r@.len() ==> #[trigger] r@[i]@ == pool_name(i),
{
    let count: usize = if n <= 26 {
        n as usize
    } else {
        26
    };
    let mut pool: Vec<String> = Vec::new();
    let mut i: usize = 0;
    while i < count
        invariant
            i <= count <= 26,
            pool@.len() == i,
            forall|j: int| 0 <= j < i ==> #[trigger] pool@[j]@ == pool_name(j),
        decreases count - i,
    {
        pool.push(letter(i));
        i = i + 1;
    }
    pool
}

impl ObfuscateConfig {
    /// The settings that a single 1-100 difficulty value stands for.
    pub fn for_difficulty_value(d: u8) -> (r: Self)
        ensures
            r.difficulty_value == d,
            r.difficulty == preset_of(d),
            r.bridge_atoms == 0,
            r.gnarly_combos is None,
            r.atom_pool@.len() == crate::theorem::value_spec(d).variables,
            r.transform_count == crate::theorem::value_spec(d).transforms_per_pass,
            r.substitution_depth == crate::theorem::value_spec(d).substitution_depth,
    {
        let spec = DifficultySpec::from_difficulty_value(d);
        ObfuscateConfig {
            atom_pool: build_atom_pool(spec.variables),
            transform_count: spec.transforms_per_pass as usize,
            difficulty: Self::preset_for_value(d),
            difficulty_value: d,
            substitution_depth: spec.substitution_depth as usize,
            bridge_atoms: 0,
            gnarly_combos: None,
        }
    }

    /// The legacy label of a 1-100 value.
    pub fn preset_for_value(value: u8) -> (r: Difficulty)
        ensures
            r == preset_of(value),
    {
        if 1 <= value && value <= 25 {
            Difficulty::Easy
        } else if 26 <= value && value <= 45 {
            Difficulty::Medium
        } else if 46 <= value && value <= 70 {
            Difficulty::Hard
        } else {
            Difficulty::Expert
        }
    }

    /// The settings a spec stands for.
    pub fn from_spec(spec: &DifficultySpec) -> (r: Self)
        ensures
            r.atom_pool@.len() == if spec.variables <= 26 {
                spec.variables as nat
            } else {
                26
            },
            r.transform_count == spec.transforms_per_pass,
            r.substitution_depth == spec.substitution_depth,
            r.bridge_atoms == match spec.bridge_atoms {
                Some(b) => b as usize,
                None => 0,
            },
            r.difficulty == preset_of(r.difficulty_value),
            r.gnarly_combos == spec.gnarly_combos,
            forall|i: int| 0 <= i < r.atom_pool@.len() ==> #[trigger] r.atom_pool@[i]@ == pool_name(i),
    {
        let difficulty_value = Self::difficulty_value_from_spec(spec);
        ObfuscateConfig {
            atom_pool: build_atom_pool(spec.variables),
            transform_count: spec.transforms_per_pass as usize,
            difficulty: Self::preset_for_value(difficulty_value),
            difficulty_value,
            substitution_depth: spec.substitution_depth as usize,
            bridge_atoms: match spec.bridge_atoms {
                Some(b) => b as usize,
                None => 0,
            },
            gnarly_combos: spec.gnarly_combos,
        }
    }

    /// A 1-100 value for a spec, from its total number of rewrites plus
    /// three for each level of substitution.
    fn difficulty_value_from_spec(spec: &DifficultySpec) -> (r: u8)
        ensures
            1 <= r <= 100,
    {
        let passes = spec.passes as u64;
        let per_pass = spec.transforms_per_pass as u64;
        proof {
            assert(passes * per_pass <= 0xFFFF * 0xFFFF) by (nonlinear_arith)
                requires
                    passes <= 0xFFFF,
                    per_pass <= 0xFFFF,
            ;
        }
        let total: u64 = passes * per_pass;
        let base: u64 = if total <= 3 {
            1 + (if total >= 1 {
                total - 1
            } else {
                0
            }) * 24 / 2
        } else if total <= 6 {
            26 + (total - 4) * 19 / 2
        } else if total <= 11 {
            46 + (total - 7) * 24 / 4
        } else if total <= 16 {
            71 + (total - 12) * 14 / 4
        } else if total <= 20 {
            86 + (total - 17) * 9 / 3
        } else {
            96 + if total - 21 < 4 {
                total - 21
            } else {
                4
            }
        };
        let sub_bonus: u64 = ((spec.substitution_depth as u64 % 256) * 3) % 256;
        let sum: u64 = base + sub_bonus;
        let capped: u64 = if sum > 255 {
            255
        } else {
            sum
        };
        if capped > 100 {
            100
        } else if capped < 1 {
            1
        } else {
            capped as u8
        }
    }
}

/// Number of nodes of a formula, saturating at the largest `usize`.
fn node_count(formula: &Formula) -> (r: usize)
    ensures
        r as nat == if node_count_of(formula@) <= usize::MAX {
            node_count_of(formula@)
        } else {
            usize::MAX as nat
        },
    decreases formula,
{
    match formula {
        Formula::Atom(_) | Formula::Contradiction => 1,
        Formula::Not(a) => node_count(a).saturating_add(1),
        Formula::And(a, b) | Formula::Or(a, b) | Formula::Implies(a, b)
        | Formula::Biconditional(a, b) => node_count(a).saturating_add(node_count(b)).saturating_add(1),
    }
}

/// The valid argument forms the generator starts from.
#[derive(Debug, Clone, Copy, PartialEq, Eq, Structural)]
enum BaseForm {
    ModusPonens,
    ModusTollens,
    HypotheticalSyllogism,
    DisjunctiveSyllogism,
    Simplification,
    Conjunction,
    ConstructiveDilemma,
    ConstructiveDilemmaFull,
    NestedCP,
    Chain4,
}

/// The forms open to every pool of three atoms or more.
spec fn standard_forms() -> Seq<BaseForm> {
    seq![
        BaseForm::ModusPonens,
        BaseForm::ModusTollens,
        BaseForm::HypotheticalSyllogism,
        BaseForm::DisjunctiveSyllogism,
        BaseForm::Simplification,
        BaseForm::Conjunction,
        BaseForm::ConstructiveDilemma,
    ]
}

/// The hard forms.
spec fn complex_forms() -> Seq<BaseForm> {
    seq![BaseForm::ConstructiveDilemmaFull, BaseForm::NestedCP, BaseForm::Chain4]
}

/// The forms that fit a pool of `count` atoms at this difficulty value.
spec fn allowed_forms(count: nat, difficulty: u8) -> Seq<BaseForm> {
    if count <= 1 {
        Seq::empty()
    } else if count == 2 {
        seq![
            BaseForm::ModusPonens,
            BaseForm::ModusTollens,
            BaseForm::DisjunctiveSyllogism,
            BaseForm::Simplification,
            BaseForm::Conjunction,
        ]
    } else if count == 3 {
        if difficulty >= 70 {
            standard_forms() + seq![BaseForm::NestedCP, BaseForm::ConstructiveDilemmaFull]
        } else {
            standard_forms()
        }
    } else if difficulty >= 70 {
        standard_forms() + complex_forms()
    } else {
        standard_forms()
    }
}

impl BaseForm {
    fn standard() -> (r: Vec<BaseForm>)
        ensures
            r@ == standard_forms(),
    {
        let r = vec![
            BaseForm::ModusPonens,
            BaseForm::ModusTollens,
            BaseForm::HypotheticalSyllogism,
            BaseForm::DisjunctiveSyllogism,
            BaseForm::Simplification,
            BaseForm::Conjunction,
            BaseForm::ConstructiveDilemma,
        ];
        proof {
            assert(r@ =~= standard_forms());
        }
        r
    }

    fn complex() -> (r: Vec<BaseForm>)
        ensures
            r@ == complex_forms(),
    {
        let r = vec![BaseForm::ConstructiveDilemmaFull, BaseForm::NestedCP, BaseForm::Chain4];
        proof {
            assert(r@ =~= complex_forms());
        }
        r
    }

    fn all() -> (r: Vec<BaseForm>)
        ensures
            r@ == standard_forms() + complex_forms(),
    {
        let mut forms = Self::standard();
        let mut more = Self::complex();
        forms.append(&mut more);
        forms
    }

    /// The forms that fit an atom pool of `count` names at this difficulty.
    fn for_atom_count_and_difficulty(count: usize, difficulty: u8) -> (r: Vec<BaseForm>)
        ensures
            r@ == allowed_forms(count as nat, difficulty),
    {
        if count <= 1 {
            Vec::new()
        } else if count == 2 {
            let r = vec![
                BaseForm::ModusPonens,
                BaseForm::ModusTollens,
                BaseForm::DisjunctiveSyllogism,
                BaseForm::Simplification,
                BaseForm::Conjunction,
            ];
            proof {
                assert(r@ =~= allowed_forms(count as nat, difficulty));
            }
            r
        } else if count == 3 {
            let mut forms = Self::standard();
            if difficulty >= 70 {
                forms.push(BaseForm::NestedCP);
                forms.push(BaseForm::ConstructiveDilemmaFull);
                proof {
                    assert(forms@ =~= allowed_forms(count as nat, difficulty));
                }
            }
            forms
        } else if difficulty >= 70 {
            Self::all()
        } else {
            Self::standard()
        }
    }

    fn for_atom_count(count: usize) -> (r: Vec<BaseForm>)
        ensures
            r@ == allowed_forms(count as nat, 50),
    {
        Self::for_atom_count_and_difficulty(count, 50)
    }
}

fn atom(name: &String) -> (r: Formula)
    ensures
        r@ == FormulaView::Atom(name@),
{
    Formula::Atom(name.clone())
}

fn neg(f: Formula) -> (r: Formula)
    ensures
        r@ == crate::formula::fnot(f@),
{
    Formula::Not(Box::new(f))
}

fn and(a: Formula, b: Formula) -> (r: Formula)
    ensures
        r@ == crate::formula::fand(a@, b@),
{
    Formula::And(Box::new(a), Box::new(b))
}

fn or(a: Formula, b: Formula) -> (r: Formula)
    ensures
        r@ == crate::formula::f_or(a@, b@),
{
    Formula::Or(Box::new(a), Box::new(b))
}

fn imp(a: Formula, b: Formula) -> (r: Formula)
    ensures
        r@ == fimp(a@, b@),
{
    Formula::Implies(Box::new(a), Box::new(b))
}


/// The premises and conclusion of an argument form over the formulas
/// `p, q, r, s`.
spec fn base_instance(
    form: BaseForm,
    p: FormulaView,
    q: FormulaView,
    r: FormulaView,
    s: FormulaView,
) -> (Seq<FormulaView>, FormulaView) {
    match form {
        BaseForm::ModusPonens => (seq![p, fimp(p, q)], q),
        BaseForm::ModusTollens => (seq![fimp(p, q), fnot(q)], fnot(p)),
        BaseForm::HypotheticalSyllogism => (seq![fimp(p, q), fimp(q, r)], fimp(p, r)),
        BaseForm::DisjunctiveSyllogism => (seq![f_or(p, q), fnot(p)], q),
        BaseForm::Simplification => (seq![fand(p, q)], p),
        BaseForm::Conjunction => (seq![p, q], fand(p, q)),
        BaseForm::ConstructiveDilemma => (seq![fand(fimp(p, q), fimp(r, s)), f_or(p, r)], f_or(q, s)),
        BaseForm::ConstructiveDilemmaFull => (seq![f_or(p, q), fimp(p, r), fimp(q, r)], r),
        BaseForm::NestedCP => (seq![fimp(p, fimp(q, r)), p, q], r),
        BaseForm::Chain4 => (seq![fimp(p, q), fimp(q, r), fimp(r, s), p], s),
    }
}

/// The argument form over the first atoms of the pool `a` (reusing them
/// when the pool is short).
spec fn pool_instance(form: BaseForm, a: Seq<Seq<char>>) -> (Seq<FormulaView>, FormulaView) {
    let n = a.len() as int;
    let p = FormulaView::Atom(a[0]);
    let q = FormulaView::Atom(a[1int % n]);
    let r = if n > 2 {
        FormulaView::Atom(a[2])
    } else {
        FormulaView::Atom(a[0])
    };
    let s = if n > 3 {
        FormulaView::Atom(a[3])
    } else {
        FormulaView::Atom(a[1int % n])
    };
    base_instance(form, p, q, r, s)
}

/// The conditional `premises ⊃ conclusion` of an argument (the conclusion
/// alone without premises).
pub open spec fn wrapped_argument(ps: Seq<FormulaView>, c: FormulaView) -> FormulaView {
    if ps.len() == 0 {
        c
    } else {
        fimp(conjunction_of(ps), c)
    }
}

/// Every argument form is valid, whatever formulas stand for its letters.
proof fn lemma_base_valid(form: BaseForm, p: FormulaView, q: FormulaView, r: FormulaView, s: FormulaView)
    ensures
        base_instance(form, p, q, r, s).0.len() > 0,
        valid(wrapped_argument(base_instance(form, p, q, r, s).0, base_instance(form, p, q, r, s).1)),
{
    let (ps, c) = base_instance(form, p, q, r, s);
    lemma_conjunction_small(ps);
    assert forall|env: spec_fn(Seq<char>) -> bool| #[trigger] eval(wrapped_argument(ps, c), env) by {
        reveal_with_fuel(eval, 5);
    }
}

/// The conjunction of up to four formulas, spelled out.
proof fn lemma_conjunction_small(ps: Seq<FormulaView>)
    ensures
        ps.len() == 1 ==> conjunction_of(ps) == ps[0],
        ps.len() == 2 ==> conjunction_of(ps) == fand(ps[0], ps[1]),
        ps.len() == 3 ==> conjunction_of(ps) == fand(fand(ps[0], ps[1]), ps[2]),
        ps.len() == 4 ==> conjunction_of(ps) == fand(fand(fand(ps[0], ps[1]), ps[2]), ps[3]),
{
    if ps.len() >= 2 {
        let d1 = ps.drop_last();
        assert(conjunction_of(ps) == fand(conjunction_of(d1), ps[ps.len() - 1]));
        if ps.len() == 2 {
            assert(conjunction_of(d1) == d1[0]);
            assert(d1[0] == ps[0]);
        } else {
            let d2 = d1.drop_last();
            assert(conjunction_of(d1) == fand(conjunction_of(d2), d1[d1.len() - 1]));
            assert(d1[d1.len() - 1] == ps[ps.len() - 2]);
            if ps.len() == 3 {
                assert(conjunction_of(d2) == d2[0]);
                assert(d2[0] == ps[0]);
            } else if ps.len() == 4 {
                let d3 = d2.drop_last();
                assert(conjunction_of(d2) == fand(conjunction_of(d3), d2[d2.len() - 1]));
                assert(d2[d2.len() - 1] == ps[1]);
                assert(conjunction_of(d3) == d3[0]);
                assert(d3[0] == ps[0]);
            }
        }
    }
}

/// The hard forms over a pool of three atoms or more use its first three.
proof fn lemma_complex_atoms(form: BaseForm, a: Seq<Seq<char>>)
    requires
        form is ConstructiveDilemmaFull || form is NestedCP || form is Chain4,
        a.len() >= 3,
    ensures
        forall|k: int| 0 <= k < 3 ==> atom_set(wrapped_argument(pool_instance(form, a).0, pool_instance(form, a).1)).contains(#[trigger] a[k]),
{
    let (ps, c) = pool_instance(form, a);
    lemma_conjunction_small(ps);
    reveal_with_fuel(atom_set, 5);
    let n = a.len() as int;
    assert(1int % n == 1) by (nonlinear_arith)
        requires
            n >= 3,
    ;
    assert forall|k: int| 0 <= k < 3 implies atom_set(wrapped_argument(ps, c)).contains(#[trigger] a[k]) by {
        assert(atom_set(FormulaView::Atom(a[k])).contains(a[k]));
    }
}

/// A base argument: an argument form over the pool, or `x ⊃ x` for a single
/// atom `x` when no form fits.
spec fn is_base_argument(ps: Seq<FormulaView>, c: FormulaView, a: Seq<Seq<char>>) -> bool {
    ||| (a.len() > 0 && exists|form: BaseForm| pool_instance(form, a) == (ps, c))
    ||| (ps.len() == 0 && exists|x: Seq<char>| c == fimp(FormulaView::Atom(x), FormulaView::Atom(x)))
}

/// The generator.
pub struct ObfuscateGenerator {
    config: ObfuscateConfig,
}

impl ObfuscateGenerator {
    /// A generator with these settings.
    pub fn new(config: ObfuscateConfig) -> (r: Self)
        ensures
            r.config() == config,
    {
        ObfuscateGenerator { config }
    }

    /// The generator's settings.
    pub closed spec fn config(&self) -> ObfuscateConfig {
        self.config
    }

    /// Premises and conclusion of an argument form over the pool's first
    /// atoms (reusing them when the pool is short).
    fn instantiate_base_form(&self, form: BaseForm, atoms: &Vec<String>) -> (r: (Vec<Formula>, Formula))
        requires
            atoms@.len() >= 1,
        ensures
            (views(r.0@), r.1@) == pool_instance(form, crate::dyn_table::name_seq(atoms@)),
            views(r.0@).len() > 0,
            valid(wrapped_argument(views(r.0@), r.1@)),
    {
        let n = atoms.len();
        let p = atom(&atoms[0]);
        let q = atom(&atoms[1 % n]);
        let r = if n > 2 {
            atom(&atoms[2])
        } else {
            atom(&atoms[0])
        };
        let s = if n > 3 {
            atom(&atoms[3])
        } else {
            atom(&atoms[1 % n])
        };
        let ghost (pv, qv, rv, sv) = (p@, q@, r@, s@);
        let res = match form {
            BaseForm::ModusPonens => (vec![p.clone(), imp(p, q.clone())], q),
            BaseForm::ModusTollens => (vec![imp(p.clone(), q.clone()), neg(q)], neg(p)),
            BaseForm::HypotheticalSyllogism => (
                vec![imp(p.clone(), q.clone()), imp(q, r.clone())],
                imp(p, r),
            ),
            BaseForm::DisjunctiveSyllogism => (vec![or(p.clone(), q.clone()), neg(p)], q),
            BaseForm::Simplification => (vec![and(p.clone(), q)], p),
            BaseForm::Conjunction => (vec![p.clone(), q.clone()], and(p, q)),
            BaseForm::ConstructiveDilemma => (
                vec![
                    and(imp(p.clone(), q.clone()), imp(r.clone(), s.clone())),
                    or(p, r),
                ],
                or(q, s),
            ),
            BaseForm::ConstructiveDilemmaFull => (
                vec![or(p.clone(), q.clone()), imp(p, r.clone()), imp(q, r.clone())],
                r,
            ),
            BaseForm::NestedCP => (vec![imp(p.clone(), imp(q.clone(), r.clone())), p, q], r),
            BaseForm::Chain4 => (
                vec![imp(p.clone(), q.clone()), imp(q, r.clone()), imp(r, s.clone()), p],
                s,
            ),
        };
        proof {
            let a = crate::dyn_table::name_seq(atoms@);
            assert(pool_instance(form, a) == base_instance(form, pv, qv, rv, sv));
            assert(views(res.0@) =~= base_instance(form, pv, qv, rv, sv).0);
            lemma_base_valid(form, pv, qv, rv, sv);
        }
        res
    }

    fn trivial_theorem(&self) -> (r: (Vec<Formula>, Formula))
        ensures
            is_base_argument(views(r.0@), r.1@, crate::dyn_table::name_seq(self.config.atom_pool@)),
            valid(wrapped_argument(views(r.0@), r.1@)),
    {
        let p = if self.config.atom_pool.len() == 0 {
            Formula::Atom(string_of("P"))
        } else {
            atom(&self.config.atom_pool[0])
        };
        let r: (Vec<Formula>, Formula) = (Vec::new(), Formula::Implies(Box::new(p.clone()), Box::new(p)));
        proof {
            assert(views(r.0@) =~= Seq::<FormulaView>::empty());
            let x = match p@ {
                FormulaView::Atom(x) => x,
                _ => Seq::empty(),
            };
            assert(r.1@ == fimp(FormulaView::Atom(x), FormulaView::Atom(x)));
            assert forall|env: spec_fn(Seq<char>) -> bool| #[trigger] eval(r.1@, env) by {}
        }
        r
    }

    /// A random argument form that fits the pool and the difficulty value.
    fn generate_base_theorem(&self) -> (r: (Vec<Formula>, Formula))
        ensures
            allowed_forms(self.config.atom_pool@.len(), self.config.difficulty_value).len() > 0 ==> exists|k: int|
                0 <= k < allowed_forms(self.config.atom_pool@.len(), self.config.difficulty_value).len()
                    && (views(r.0@), r.1@) == pool_instance(
                    #[trigger] allowed_forms(self.config.atom_pool@.len(), self.config.difficulty_value)[k],
                    crate::dyn_table::name_seq(self.config.atom_pool@),
                ),
            is_base_argument(views(r.0@), r.1@, crate::dyn_table::name_seq(self.config.atom_pool@)),
            valid(wrapped_argument(views(r.0@), r.1@)),
    {
        let atoms = &self.config.atom_pool;
        if atoms.len() == 0 {
            return self.trivial_theorem();
        }
        let forms = BaseForm::for_atom_count_and_difficulty(atoms.len(), self.config.difficulty_value);
        if forms.len() == 0 {
            return self.trivial_theorem();
        }
        let k = random_below(forms.len());
        let form = forms[k];
        let r = self.instantiate_base_form(form, atoms);
        proof {
            assert(allowed_forms(self.config.atom_pool@.len(), self.config.difficulty_value)[k as int] == form);
        }
        r
    }

    /// A random argument form, restricted to the hard ones when asked for
    /// and the pool allows.
    fn generate_base_theorem_with_complexity(&self, use_complex: bool) -> (r: (Vec<Formula>, Formula))
        ensures
            use_complex && self.config.atom_pool@.len() >= 3 ==> forall|k: int|
                0 <= k < 3 ==> atom_set(wrapped_argument(views(r.0@), r.1@)).contains(
                    #[trigger] crate::dyn_table::name_seq(self.config.atom_pool@)[k],
                ),
            is_base_argument(views(r.0@), r.1@, crate::dyn_table::name_seq(self.config.atom_pool@)),
            valid(wrapped_argument(views(r.0@), r.1@)),
    {
        let atoms = &self.config.atom_pool;
        if atoms.len() == 0 {
            return self.trivial_theorem();
        }
        let forms = if use_complex {
            let mut forms: Vec<BaseForm> = Vec::new();
            if atoms.len() >= 3 {
                forms.push(BaseForm::ConstructiveDilemmaFull);
                forms.push(BaseForm::NestedCP);
            }
            if atoms.len() >= 4 {
                forms.push(BaseForm::Chain4);
            }
            proof {
                assert forall|j: int| 0 <= j < forms@.len() implies (#[trigger] forms@[j]) is ConstructiveDilemmaFull
                    || forms@[j] is NestedCP || forms@[j] is Chain4 by {}
            }
            if forms.len() == 0 {
                BaseForm::for_atom_count(atoms.len())
            } else {
                forms
            }
        } else {
            BaseForm::for_atom_count(atoms.len())
        };
        if forms.len() == 0 {
            return self.trivial_theorem();
        }
        let form = forms[random_below(forms.len())];
        proof {
            if use_complex && atoms@.len() >= 3 {
                assert(form is ConstructiveDilemmaFull || form is NestedCP || form is Chain4);
                lemma_complex_atoms(form, crate::dyn_table::name_seq(atoms@));
            }
        }
        self.instantiate_base_form(form, atoms)
    }

    /// `premises_1 ∧ ... ∧ premises_n ⊃ conclusion`, or the conclusion alone
    /// when there are no premises.
    pub fn wrap_as_conditional(&self, premises: &[Formula], conclusion: &Formula) -> (r: Formula)
        ensures
            premises@.len() == 0 ==> r@ == conclusion@,
            premises@.len() > 0 ==> r@ == fimp(
                conjunction_of(crate::truth_table::views(premises@)),
                conclusion@,
            ),
    {
        if premises.len() == 0 {
            return conclusion.clone();
        }
        let mut antecedent = premises[0].clone();
        let mut i: usize = 1;
        proof {
            assert(crate::truth_table::views(premises@).subrange(0, 1) =~= seq![premises@[0]@]);
        }
        while i < premises.len()
            invariant
                1 <= i <= premises@.len(),
                antecedent@ == conjunction_of(crate::truth_table::views(premises@).subrange(0, i as int)),
            decreases premises@.len() - i,
        {
            proof {
                let s = crate::truth_table::views(premises@).subrange(0, i + 1);
                assert(s.drop_last() =~= crate::truth_table::views(premises@).subrange(0, i as int));
            }
            antecedent = Formula::And(Box::new(antecedent), Box::new(premises[i].clone()));
            i = i + 1;
        }
        proof {
            assert(crate::truth_table::views(premises@).subrange(0, i as int) =~= crate::truth_table::views(premises@));
        }
        Formula::Implies(Box::new(antecedent), Box::new(conclusion.clone()))
    }
}

/// The left-nested conjunction of a non-empty sequence of formulas.
pub open spec fn conjunction_of(s: Seq<FormulaView>) -> FormulaView
    decreases s.len(),
{
    if s.len() <= 1 {
        s[0]
    } else {
        crate::formula::fand(conjunction_of(s.drop_last()), s.last())
    }
}

/// How many negations stand at the top of the formula.
pub open spec fn leading_negations(f: FormulaView) -> nat
    decreases f,
{
    match f {
        FormulaView::Not(a) => 1 + leading_negations(*a),
        _ => 0,
    }
}

/// How many negations stand at the top of the formula (saturating).
pub fn count_leading_negations(formula: &Formula) -> (r: usize)
    ensures
        r as nat == if leading_negations(formula@) <= usize::MAX {
            leading_negations(formula@)
        } else {
            usize::MAX as nat
        },
    decreases formula,
{
    match formula {
        Formula::Not(a) => count_leading_negations(a).saturating_add(1),
        _ => 0,
    }
}

/// Every double negation removed: `~~X` becomes `X` throughout, so `~~~X`
/// becomes `~X`.
pub open spec fn without_double_negations(f: FormulaView) -> FormulaView
    decreases f,
{
    match f {
        FormulaView::Not(a) => match without_double_negations(*a) {
            FormulaView::Not(b) => *b,
            other => crate::formula::fnot(other),
        },
        FormulaView::And(a, b) => crate::formula::fand(
            without_double_negations(*a),
            without_double_negations(*b),
        ),
        FormulaView::Or(a, b) => crate::formula::f_or(
            without_double_negations(*a),
            without_double_negations(*b),
        ),
        FormulaView::Implies(a, b) => fimp(without_double_negations(*a), without_double_negations(*b)),
        FormulaView::Biconditional(a, b) => crate::formula::fbicond(
            without_double_negations(*a),
            without_double_negations(*b),
        ),
        _ => f,
    }
}

proof fn lemma_collapse_eval(f: FormulaView, env: spec_fn(Seq<char>) -> bool)
    ensures
        eval(without_double_negations(f), env) == eval(f, env),
    decreases f,
{
    match f {
        FormulaView::Not(a) => lemma_collapse_eval(*a, env),
        FormulaView::And(a, b) | FormulaView::Or(a, b) | FormulaView::Implies(a, b)
        | FormulaView::Biconditional(a, b) => {
            lemma_collapse_eval(*a, env);
            lemma_collapse_eval(*b, env);
        },
        _ => {},
    }
}

/// Removing double negations keeps a formula's value under every
/// assignment, so it keeps validity.
pub proof fn law_collapse_keeps_validity(f: FormulaView)
    requires
        valid(f),
    ensures
        valid(without_double_negations(f)),
{
    assert forall|env: spec_fn(Seq<char>) -> bool| #[trigger] eval(without_double_negations(f), env) by {
        lemma_collapse_eval(f, env);
    }
}

proof fn lemma_collapse_atoms(f: FormulaView)
    ensures
        atom_set(without_double_negations(f)) == atom_set(f),
    decreases f,
{
    match f {
        FormulaView::Not(a) => {
            lemma_collapse_atoms(*a);
            match without_double_negations(*a) {
                FormulaView::Not(b) => {},
                _ => {},
            }
        },
        FormulaView::And(a, b) | FormulaView::Or(a, b) | FormulaView::Implies(a, b)
        | FormulaView::Biconditional(a, b) => {
            lemma_collapse_atoms(*a);
            lemma_collapse_atoms(*b);
        },
        _ => {},
    }
}

/// Removes every double negation.
pub fn simplify_negations(formula: Formula) -> (r: Formula)
    ensures
        r@ == without_double_negations(formula@),
    decreases formula,
{
    match formula {
        Formula::Not(inner) => {
            let s = simplify_negations(*inner);
            match s {
                Formula::Not(inner2) => *inner2,
                other => Formula::Not(Box::new(other)),
            }
        },
        Formula::And(a, b) => Formula::And(
            Box::new(simplify_negations(*a)),
            Box::new(simplify_negations(*b)),
        ),
        Formula::Or(a, b) => Formula::Or(
            Box::new(simplify_negations(*a)),
            Box::new(simplify_negations(*b)),
        ),
        Formula::Implies(a, b) => Formula::Implies(
            Box::new(simplify_negations(*a)),
            Box::new(simplify_negations(*b)),
        ),
        Formula::Biconditional(a, b) => Formula::Biconditional(
            Box::new(simplify_negations(*a)),
            Box::new(simplify_negations(*b)),
        ),
        other => other,
    }
}


/// A random order of `0..n`: every index once.
fn shuffled_indices(n: usize) -> (r: Vec<usize>)
    ensures
        r@.len() == n,
        forall|i: int| 0 <= i < n ==> #[trigger] r@[i] < n,
        forall|i: int, j: int| 0 <= i < j < n ==> r@[i] != r@[j],
{
    let mut v: Vec<usize> = Vec::new();
    let mut i: usize = 0;
    while i < n
        invariant
            i <= n,
            v@.len() == i,
            forall|j: int| 0 <= j < i ==> #[trigger] v@[j] == j,
        decreases n - i,
    {
        v.push(i);
        i = i + 1;
    }
    let mut k: usize = n;
    while k > 1
        invariant
            k <= n,
            v@.len() == n,
            forall|j: int| 0 <= j < n ==> #[trigger] v@[j] < n,
            forall|a: int, b: int| 0 <= a < b < n ==> v@[a] != v@[b],
        decreases k,
    {
        let i = k - 1;
        let j = random_below(i + 1);
        let a = v[i];
        let b = v[j];
        let ghost before = v@;
        v.set(i, b);
        v.set(j, a);
        proof {
            assert(v@ == before.update(i as int, b).update(j as int, a));
            assert forall|x: int, y: int| 0 <= x < y < n implies v@[x] != v@[y] by {
                let fx = if x == j { i as int } else if x == i { j as int } else { x };
                let fy = if y == j { i as int } else if y == i { j as int } else { y };
                assert(v@[x] == before[fx]);
                assert(v@[y] == before[fy]);
                assert(fx != fy);
            }
        }
        k = k - 1;
    }
    v
}

/// Does `v` hold a string equal to `s`?
fn contains_name(v: &Vec<String>, s: &String) -> (r: bool)
    ensures
        r == exists|i: int| 0 <= i < v@.len() && v@[i]@ == s@,
{
    let mut i: usize = 0;
    while i < v.len()
        invariant
            i <= v@.len(),
            forall|j: int| 0 <= j < i ==> v@[j]@ != s@,
        decreases v@.len() - i,
    {
        if crate::formula::str_eq(v[i].as_str(), s.as_str()) {
            return true;
        }
        i = i + 1;
    }
    false
}

/// Copies of the strings, in code-point order.
fn sort_names(v: &Vec<String>) -> (r: Vec<String>)
    ensures
        r@.len() == v@.len(),
        names(r@) == names(v@),
{
    let mut out: Vec<String> = Vec::new();
    let mut i: usize = 0;
    proof {
        assert(names(out@) =~= names(v@.subrange(0, 0)));
    }
    while i < v.len()
        invariant
            i <= v@.len(),
            out@.len() == i,
            names(out@) == names(v@.subrange(0, i as int)),
        decreases v@.len() - i,
    {
        let ghost before = out@;
        let mut pos: usize = 0;
        while pos < out.len() && str_less(out[pos].as_str(), v[i].as_str())
            invariant
                pos <= out@.len(),
                i < v@.len(),
            decreases out@.len() - pos,
        {
            pos = pos + 1;
        }
        out.insert(pos, v[i].clone());
        proof {
            let x = v@[i as int]@;
            assert(names(out@) =~= names(before).insert(x)) by {
                assert forall|y: Seq<char>| names(out@).contains(y) <==> names(before).insert(x).contains(y) by {
                    if names(out@).contains(y) {
                        let k = choose|k: int| 0 <= k < out@.len() && out@[k]@ == y;
                        if k < pos {
                            assert(before[k]@ == y);
                        } else if k > pos {
                            assert(before[k - 1]@ == y);
                        }
                    }
                    if names(before).contains(y) {
                        let k = choose|k: int| 0 <= k < before.len() && before[k]@ == y;
                        if k < pos {
                            assert(out@[k]@ == y);
                        } else {
                            assert(out@[k + 1]@ == y);
                        }
                    }
                    if y == x {
                        assert(out@[pos as int]@ == y);
                    }
                }
            }
            let s0 = v@.subrange(0, i as int);
            let s1 = v@.subrange(0, i + 1);
            assert(names(s1) =~= names(s0).insert(x)) by {
                assert forall|y: Seq<char>| names(s1).contains(y) <==> names(s0).insert(x).contains(y) by {
                    if names(s1).contains(y) {
                        let k = choose|k: int| 0 <= k < s1.len() && s1[k]@ == y;
                        if k < i {
                            assert(s0[k]@ == y);
                        }
                    }
                    if names(s0).contains(y) {
                        let k = choose|k: int| 0 <= k < s0.len() && s0[k]@ == y;
                        assert(s1[k]@ == y);
                    }
                    if y == x {
                        assert(s1[i as int]@ == y);
                    }
                }
            }
        }
        i = i + 1;
    }
    proof {
        assert(v@.subrange(0, v@.len() as int) =~= v@);
    }
    out
}

fn copy_names(v: &Vec<String>) -> (r: Vec<String>)
    ensures
        r@ == v@,
{
    let mut out: Vec<String> = Vec::new();
    let mut i: usize = 0;
    while i < v.len()
        invariant
            i <= v@.len(),
            out@ == v@.subrange(0, i as int),
        decreases v@.len() - i,
    {
        out.push(v[i].clone());
        i = i + 1;
        proof {
            assert(out@ =~= v@.subrange(0, i as int));
        }
    }
    proof {
        assert(out@ =~= v@);
    }
    out
}

/// A random binary connective over the two operands.
fn random_binary_connective(left: Formula, right: Formula) -> (r: Formula)
    ensures
        atom_set(r@) == atom_set(left@) + atom_set(right@),
{
    let k = random_below(3);
    if k == 0 {
        Formula::And(Box::new(left), Box::new(right))
    } else if k == 1 {
        Formula::Or(Box::new(left), Box::new(right))
    } else {
        Formula::Implies(Box::new(left), Box::new(right))
    }
}

/// The node at a leaf position from index `i` of `path` on (the formula
/// itself where the position does not fit).
spec fn growth_at(f: FormulaView, path: Seq<usize>, i: int) -> FormulaView
    decreases path.len() - i,
{
    if i < 0 || i >= path.len() {
        f
    } else {
        match (f, path[i]) {
            (FormulaView::Not(a), 0) => growth_at(*a, path, i + 1),
            (FormulaView::And(a, _), 1) | (FormulaView::Or(a, _), 1) | (FormulaView::Implies(a, _), 1)
            | (FormulaView::Biconditional(a, _), 1) => growth_at(*a, path, i + 1),
            (FormulaView::And(_, b), 2) | (FormulaView::Or(_, b), 2) | (FormulaView::Implies(_, b), 2)
            | (FormulaView::Biconditional(_, b), 2) => growth_at(*b, path, i + 1),
            _ => f,
        }
    }
}

/// The formula with the node at a leaf position replaced by `e`.
spec fn growth_replace(f: FormulaView, path: Seq<usize>, i: int, e: FormulaView) -> FormulaView
    decreases path.len() - i,
{
    if i < 0 || i >= path.len() {
        e
    } else {
        match (f, path[i]) {
            (FormulaView::Not(a), 0) => fnot(growth_replace(*a, path, i + 1, e)),
            (FormulaView::And(a, b), 1) => fand(growth_replace(*a, path, i + 1, e), *b),
            (FormulaView::And(a, b), 2) => fand(*a, growth_replace(*b, path, i + 1, e)),
            (FormulaView::Or(a, b), 1) => f_or(growth_replace(*a, path, i + 1, e), *b),
            (FormulaView::Or(a, b), 2) => f_or(*a, growth_replace(*b, path, i + 1, e)),
            (FormulaView::Implies(a, b), 1) => fimp(growth_replace(*a, path, i + 1, e), *b),
            (FormulaView::Implies(a, b), 2) => fimp(*a, growth_replace(*b, path, i + 1, e)),
            (FormulaView::Biconditional(a, b), 1) => crate::formula::fbicond(growth_replace(*a, path, i + 1, e), *b),
            (FormulaView::Biconditional(a, b), 2) => crate::formula::fbicond(*a, growth_replace(*b, path, i + 1, e)),
            _ => f,
        }
    }
}

/// Replacing a node by a formula that keeps its atoms keeps every atom.
proof fn lemma_growth_keeps_atoms(f: FormulaView, path: Seq<usize>, i: int, e: FormulaView)
    requires
        0 <= i,
        atom_set(growth_at(f, path, i)).subset_of(atom_set(e)),
    ensures
        atom_set(f).subset_of(atom_set(growth_replace(f, path, i, e))),
    decreases path.len() - i,
{
    if i < path.len() {
        match (f, path[i]) {
            (FormulaView::Not(a), 0) => lemma_growth_keeps_atoms(*a, path, i + 1, e),
            (FormulaView::And(a, b), 1) | (FormulaView::Or(a, b), 1) | (FormulaView::Implies(a, b), 1)
            | (FormulaView::Biconditional(a, b), 1) => lemma_growth_keeps_atoms(*a, path, i + 1, e),
            (FormulaView::And(a, b), 2) | (FormulaView::Or(a, b), 2) | (FormulaView::Implies(a, b), 2)
            | (FormulaView::Biconditional(a, b), 2) => lemma_growth_keeps_atoms(*b, path, i + 1, e),
            _ => {},
        }
    }
}

/// Some entry of `v` is `k`.
spec fn index_hit(v: Seq<usize>, k: int) -> bool {
    exists|i: int| 0 <= i < v.len() && v[i] == k
}

/// Distinct indices below `n`, `n` of them, hit every index below `n`.
proof fn lemma_permutation_covers(v: Seq<usize>, n: int)
    requires
        v.len() == n,
        forall|i: int| 0 <= i < n ==> #[trigger] v[i] < n,
        forall|i: int, j: int| 0 <= i < j < n ==> v[i] != v[j],
    ensures
        forall|k: int| 0 <= k < n ==> #[trigger] index_hit(v, k),
{
    let w = v.map_values(|x: usize| x as int);
    assert(w.no_duplicates()) by {
        assert forall|i: int, j: int| 0 <= i < w.len() && 0 <= j < w.len() && i != j implies w[i] != w[j] by {
            if i < j {
                assert(v[i] != v[j]);
            } else {
                assert(v[j] != v[i]);
            }
        }
    }
    w.unique_seq_to_set();
    vstd::set_lib::lemma_int_range(0, n);
    assert(w.to_set().subset_of(vstd::set_lib::set_int_range(0, n))) by {
        assert forall|x: int| w.to_set().contains(x) implies vstd::set_lib::set_int_range(0, n).contains(x) by {
            let i = choose|i: int| 0 <= i < w.len() && w[i] == x;
            assert(v[i] < n);
        }
    }
    vstd::set_lib::lemma_subset_equality(w.to_set(), vstd::set_lib::set_int_range(0, n));
    assert forall|k: int| 0 <= k < n implies #[trigger] index_hit(v, k) by {
        assert(vstd::set_lib::set_int_range(0, n).contains(k));
        assert(w.to_set().contains(k));
        let i = choose|i: int| 0 <= i < w.len() && w[i] == k;
        assert(v[i] == k);
    }
}

/// The positions of all leaves: 0 into a negation, 1 left, 2 right.
fn collect_leaf_paths(formula: &Formula, prefix: &Vec<usize>, out: &mut Vec<Vec<usize>>)
    ensures
        final(out)@.len() >= old(out)@.len() + 1,
    decreases formula,
{
    match formula {
        Formula::Atom(_) | Formula::Contradiction => {
            out.push(copy_numbers(prefix));
        },
        Formula::Not(a) => {
            let mut p = copy_numbers(prefix);
            p.push(0);
            collect_leaf_paths(a, &p, out);
        },
        Formula::And(a, b) | Formula::Or(a, b) | Formula::Implies(a, b)
        | Formula::Biconditional(a, b) => {
            let mut lp = copy_numbers(prefix);
            lp.push(1);
            collect_leaf_paths(a, &lp, out);
            let mut rp = copy_numbers(prefix);
            rp.push(2);
            collect_leaf_paths(b, &rp, out);
        },
    }
}

/// The node at a leaf position (the formula itself where the position does
/// not fit).
fn formula_at_path(formula: &Formula, path: &Vec<usize>, i: usize) -> (r: Formula)
    requires
        i <= path@.len(),
    ensures
        r@ == growth_at(formula@, path@, i as int),
    decreases path@.len() - i,
{
    if i >= path.len() {
        return formula.clone();
    }
    match (formula, path[i]) {
        (Formula::Not(a), 0) => formula_at_path(a, path, i + 1),
        (Formula::And(a, _), 1) | (Formula::Or(a, _), 1) | (Formula::Implies(a, _), 1)
        | (Formula::Biconditional(a, _), 1) => formula_at_path(a, path, i + 1),
        (Formula::And(_, b), 2) | (Formula::Or(_, b), 2) | (Formula::Implies(_, b), 2)
        | (Formula::Biconditional(_, b), 2) => formula_at_path(b, path, i + 1),
        _ => formula.clone(),
    }
}

/// The formula with the node at a leaf position replaced.
fn replace_at_growth_path(formula: &Formula, path: &Vec<usize>, i: usize, replacement: &Formula) -> (r: Formula)
    requires
        i <= path@.len(),
    ensures
        r@ == growth_replace(formula@, path@, i as int, replacement@),
    decreases path@.len() - i,
{
    if i >= path.len() {
        return replacement.clone();
    }
    match (formula, path[i]) {
        (Formula::Not(a), 0) => Formula::Not(
            Box::new(replace_at_growth_path(a, path, i + 1, replacement)),
        ),
        (Formula::And(a, b), 1) => Formula::And(
            Box::new(replace_at_growth_path(a, path, i + 1, replacement)),
            Box::new((**b).clone()),
        ),
        (Formula::And(a, b), 2) => Formula::And(
            Box::new((**a).clone()),
            Box::new(replace_at_growth_path(b, path, i + 1, replacement)),
        ),
        (Formula::Or(a, b), 1) => Formula::Or(
            Box::new(replace_at_growth_path(a, path, i + 1, replacement)),
            Box::new((**b).clone()),
        ),
        (Formula::Or(a, b), 2) => Formula::Or(
            Box::new((**a).clone()),
            Box::new(replace_at_growth_path(b, path, i + 1, replacement)),
        ),
        (Formula::Implies(a, b), 1) => Formula::Implies(
            Box::new(replace_at_growth_path(a, path, i + 1, replacement)),
            Box::new((**b).clone()),
        ),
        (Formula::Implies(a, b), 2) => Formula::Implies(
            Box::new((**a).clone()),
            Box::new(replace_at_growth_path(b, path, i + 1, replacement)),
        ),
        (Formula::Biconditional(a, b), 1) => Formula::Biconditional(
            Box::new(replace_at_growth_path(a, path, i + 1, replacement)),
            Box::new((**b).clone()),
        ),
        (Formula::Biconditional(a, b), 2) => Formula::Biconditional(
            Box::new((**a).clone()),
            Box::new(replace_at_growth_path(b, path, i + 1, replacement)),
        ),
        _ => formula.clone(),
    }
}

/// Grows one random leaf into a negation or a binary connective with a
/// random atom of the pool, unless that leaf already lies `max_depth + 2`
/// deep.
fn grow_random_leaf(formula: Formula, atoms: &Vec<String>, max_depth: usize) -> (r: Formula)
    requires
        atoms@.len() > 0,
    ensures
        atom_set(formula@).subset_of(atom_set(r@)),
{
    let mut paths: Vec<Vec<usize>> = Vec::new();
    let empty: Vec<usize> = Vec::new();
    collect_leaf_paths(&formula, &empty, &mut paths);
    let path = &paths[random_below(paths.len())];
    if path.len() >= max_depth.saturating_add(2) {
        return formula;
    }
    let new_atom = atom(&atoms[random_below(atoms.len())]);
    let current_leaf = formula_at_path(&formula, path, 0);
    let k = random_below(4);
    let expansion = if k == 0 {
        Formula::Not(Box::new(current_leaf))
    } else if k == 1 {
        random_binary_connective(current_leaf, new_atom)
    } else if k == 2 {
        random_binary_connective(new_atom, current_leaf)
    } else {
        random_binary_connective(current_leaf, Formula::Not(Box::new(new_atom)))
    };
    proof {
        assert(atom_set(current_leaf@).subset_of(atom_set(expansion@)));
        lemma_growth_keeps_atoms(formula@, path@, 0, expansion@);
    }
    replace_at_growth_path(&formula, path, 0, &expansion)
}

/// A random formula over the given atoms: all of them combined pairwise by
/// random connectives, then grown `2 * depth` times.
/// Some formula of `fs` has the atom `a`.
spec fn covers_atom(fs: Seq<Formula>, a: Seq<char>) -> bool {
    exists|j: int| 0 <= j < fs.len() && atom_set(fs[j]@).contains(a)
}

fn random_formula(depth: usize, atoms: &Vec<String>) -> (r: Formula)
    ensures
        forall|k: int| 0 <= k < atoms@.len() ==> atom_set(r@).contains(#[trigger] atoms@[k]@),
{
    if atoms.len() == 0 {
        return Formula::Atom(string_of("X"));
    }
    if atoms.len() == 1 {
        let r = atom(&atoms[0]);
        proof {
            assert(atom_set(r@) == set![atoms@[0]@]);
        }
        return r;
    }
    let order = shuffled_indices(atoms.len());
    let mut formulas: Vec<Formula> = Vec::new();
    let mut i: usize = 0;
    while i < order.len()
        invariant
            i <= order@.len(),
            order@.len() == atoms@.len(),
            forall|j: int| 0 <= j < order@.len() ==> #[trigger] order@[j] < atoms@.len(),
            formulas@.len() == i,
            forall|j: int| 0 <= j < i ==> (#[trigger] formulas@[j])@ == FormulaView::Atom(atoms@[order@[j] as int]@),
        decreases order@.len() - i,
    {
        formulas.push(atom(&atoms[order[i]]));
        i = i + 1;
    }
    proof {
        lemma_permutation_covers(order@, atoms@.len() as int);
        assert forall|k: int| 0 <= k < atoms@.len() implies #[trigger] covers_atom(formulas@, atoms@[k]@) by {
            assert(index_hit(order@, k));
            let j = choose|j: int| 0 <= j < order@.len() && order@[j] == k;
            assert(formulas@[j]@ == FormulaView::Atom(atoms@[k]@));
            assert(atom_set(formulas@[j]@).contains(atoms@[k]@));
        }
    }
    while formulas.len() > 1
        invariant
            formulas@.len() >= 1,
            forall|k: int| 0 <= k < atoms@.len() ==> #[trigger] covers_atom(formulas@, atoms@[k]@),
        decreases formulas@.len(),
    {
        let mut next: Vec<Formula> = Vec::new();
        let mut i: usize = 0;
        while i + 1 < formulas.len()
            invariant
                i <= formulas@.len(),
                i % 2 == 0,
                next@.len() == i / 2,
                forall|t: int| 0 <= t < i ==> atom_set((#[trigger] formulas@[t])@).subset_of(atom_set(next@[t / 2]@)),
            decreases formulas@.len() - i,
        {
            let left = formulas[i].clone();
            let right = formulas[i + 1].clone();
            next.push(random_binary_connective(left, right));
            i = i + 2;
        }
        if i < formulas.len() {
            next.push(formulas[i].clone());
        }
        proof {
            assert forall|t: int| 0 <= t < formulas@.len() implies atom_set((#[trigger] formulas@[t])@).subset_of(atom_set(next@[t / 2]@)) by {}
            assert forall|k: int| 0 <= k < atoms@.len() implies #[trigger] covers_atom(next@, atoms@[k]@) by {
                assert(covers_atom(formulas@, atoms@[k]@));
                let j = choose|j: int| 0 <= j < formulas@.len() && atom_set(formulas@[j]@).contains(atoms@[k]@);
                assert(atom_set(next@[j / 2]@).contains(atoms@[k]@));
            }
        }
        formulas = next;
    }
    let mut seed = formulas[0].clone();
    proof {
        assert forall|k: int| 0 <= k < atoms@.len() implies atom_set(seed@).contains(#[trigger] atoms@[k]@) by {
            assert(covers_atom(formulas@, atoms@[k]@));
        }
    }
    let passes = if depth <= usize::MAX / 2 {
        depth * 2
    } else {
        usize::MAX
    };
    let mut k: usize = 0;
    while k < passes
        invariant
            k <= passes,
            atoms@.len() > 1,
            forall|m: int| 0 <= m < atoms@.len() ==> atom_set(seed@).contains(#[trigger] atoms@[m]@),
        decreases passes - k,
    {
        seed = grow_random_leaf(seed, atoms, depth);
        k = k + 1;
    }
    seed
}

/// The substitution table as name and formula views.
pub open spec fn table_view(subs: Seq<(String, Formula)>) -> Seq<(Seq<char>, FormulaView)> {
    subs.map_values(|e: (String, Formula)| (e.0@, e.1@))
}

/// The formula of the first entry for `name` at or after `i`.
pub open spec fn lookup(m: Seq<(Seq<char>, FormulaView)>, name: Seq<char>, i: int) -> Option<FormulaView>
    decreases m.len() - i,
{
    if i < 0 || i >= m.len() {
        None
    } else if m[i].0 == name {
        Some(m[i].1)
    } else {
        lookup(m, name, i + 1)
    }
}

/// Every atom with an entry in `m` replaced by its formula, all at once.
pub open spec fn subst_map(f: FormulaView, m: Seq<(Seq<char>, FormulaView)>) -> FormulaView
    decreases f,
{
    match f {
        FormulaView::Atom(x) => match lookup(m, x, 0) {
            Some(g) => g,
            None => f,
        },
        FormulaView::Not(a) => fnot(subst_map(*a, m)),
        FormulaView::And(a, b) => fand(subst_map(*a, m), subst_map(*b, m)),
        FormulaView::Or(a, b) => f_or(subst_map(*a, m), subst_map(*b, m)),
        FormulaView::Implies(a, b) => fimp(subst_map(*a, m), subst_map(*b, m)),
        FormulaView::Biconditional(a, b) => crate::formula::fbicond(subst_map(*a, m), subst_map(*b, m)),
        FormulaView::Contradiction => f,
    }
}

/// The substitution applied to each formula.
pub open spec fn subst_each(ps: Seq<FormulaView>, m: Seq<(Seq<char>, FormulaView)>) -> Seq<FormulaView> {
    ps.map_values(|p: FormulaView| subst_map(p, m))
}

/// The assignment under which `f` takes the value that `subst_map(f, m)`
/// takes under `env`.
pub open spec fn substituted_env(m: Seq<(Seq<char>, FormulaView)>, env: spec_fn(Seq<char>) -> bool) -> spec_fn(Seq<char>) -> bool {
    |x: Seq<char>| match lookup(m, x, 0) {
        Some(g) => eval(g, env),
        None => env(x),
    }
}

proof fn lemma_eval_subst(f: FormulaView, m: Seq<(Seq<char>, FormulaView)>, env: spec_fn(Seq<char>) -> bool)
    ensures
        eval(subst_map(f, m), env) == eval(f, substituted_env(m, env)),
    decreases f,
{
    match f {
        FormulaView::Not(a) => lemma_eval_subst(*a, m, env),
        FormulaView::And(a, b) | FormulaView::Or(a, b) | FormulaView::Implies(a, b)
        | FormulaView::Biconditional(a, b) => {
            lemma_eval_subst(*a, m, env);
            lemma_eval_subst(*b, m, env);
        },
        _ => {},
    }
}

/// Substitution keeps validity.
pub proof fn law_substitution_keeps_validity(f: FormulaView, m: Seq<(Seq<char>, FormulaView)>)
    requires
        valid(f),
    ensures
        valid(subst_map(f, m)),
{
    assert forall|env: spec_fn(Seq<char>) -> bool| #[trigger] eval(subst_map(f, m), env) by {
        lemma_eval_subst(f, m, env);
        assert(eval(f, substituted_env(m, env)));
    }
}

proof fn lemma_lookup_contains(m: Seq<(Seq<char>, FormulaView)>, x: Seq<char>, i: int)
    requires
        forall|k: int| 0 <= k < m.len() ==> atom_set((#[trigger] m[k]).1).contains(m[k].0),
    ensures
        lookup(m, x, i) matches Some(g) ==> atom_set(g).contains(x),
    decreases m.len() - i,
{
    if 0 <= i < m.len() && m[i].0 != x {
        lemma_lookup_contains(m, x, i + 1);
    }
}

/// A substitution whose every formula holds the atom it replaces keeps
/// every atom.
proof fn lemma_subst_keeps_atoms(f: FormulaView, m: Seq<(Seq<char>, FormulaView)>)
    requires
        forall|k: int| 0 <= k < m.len() ==> atom_set((#[trigger] m[k]).1).contains(m[k].0),
    ensures
        atom_set(f).subset_of(atom_set(subst_map(f, m))),
    decreases f,
{
    match f {
        FormulaView::Atom(x) => {
            lemma_lookup_contains(m, x, 0);
        },
        FormulaView::Not(a) => lemma_subst_keeps_atoms(*a, m),
        FormulaView::And(a, b) | FormulaView::Or(a, b) | FormulaView::Implies(a, b)
        | FormulaView::Biconditional(a, b) => {
            lemma_subst_keeps_atoms(*a, m);
            lemma_subst_keeps_atoms(*b, m);
        },
        _ => {},
    }
}

/// The empty table changes nothing.
proof fn lemma_subst_identity(f: FormulaView)
    ensures
        subst_map(f, Seq::empty()) == f,
    decreases f,
{
    match f {
        FormulaView::Not(a) => lemma_subst_identity(*a),
        FormulaView::And(a, b) | FormulaView::Or(a, b) | FormulaView::Implies(a, b)
        | FormulaView::Biconditional(a, b) => {
            lemma_subst_identity(*a);
            lemma_subst_identity(*b);
        },
        _ => {},
    }
}

proof fn lemma_subst_identity_each(ps: Seq<FormulaView>)
    ensures
        subst_each(ps, Seq::empty()) == ps,
{
    assert forall|i: int| 0 <= i < ps.len() implies subst_each(ps, Seq::empty())[i] == ps[i] by {
        lemma_subst_identity(ps[i]);
    }
    assert(subst_each(ps, Seq::empty()) =~= ps);
}

proof fn lemma_subst_conjunction(ps: Seq<FormulaView>, m: Seq<(Seq<char>, FormulaView)>)
    requires
        ps.len() > 0,
    ensures
        subst_map(conjunction_of(ps), m) == conjunction_of(ps.map_values(|p: FormulaView| subst_map(p, m))),
    decreases ps.len(),
{
    let qs = ps.map_values(|p: FormulaView| subst_map(p, m));
    if ps.len() > 1 {
        lemma_subst_conjunction(ps.drop_last(), m);
        assert(ps.drop_last().map_values(|p: FormulaView| subst_map(p, m)) =~= qs.drop_last());
    }
}

/// Substituting into every premise and the conclusion substitutes into
/// the wrapped argument.
proof fn lemma_subst_wrapped(ps: Seq<FormulaView>, c: FormulaView, m: Seq<(Seq<char>, FormulaView)>)
    ensures
        wrapped_argument(ps.map_values(|p: FormulaView| subst_map(p, m)), subst_map(c, m)) == subst_map(wrapped_argument(ps, c), m),
{
    if ps.len() > 0 {
        lemma_subst_conjunction(ps, m);
    }
}

/// Replaces each atom named in `subs` by its formula (the first entry for a
/// name counts).
fn substitute_all(formula: &Formula, subs: &Vec<(String, Formula)>) -> (r: Formula)
    ensures
        r@ == subst_map(formula@, table_view(subs@)),
    decreases formula,
{
    match formula {
        Formula::Atom(name) => {
            let ghost m = table_view(subs@);
            let mut i: usize = 0;
            while i < subs.len()
                invariant
                    i <= subs@.len(),
                    m == table_view(subs@),
                    formula@ == FormulaView::Atom(name@),
                    lookup(m, name@, 0) == lookup(m, name@, i as int),
                decreases subs@.len() - i,
            {
                if crate::formula::str_eq(subs[i].0.as_str(), name.as_str()) {
                    proof {
                        assert(m[i as int] == (subs@[i as int].0@, subs@[i as int].1@));
                    }
                    return subs[i].1.clone();
                }
                proof {
                    assert(m[i as int] == (subs@[i as int].0@, subs@[i as int].1@));
                }
                i = i + 1;
            }
            formula.clone()
        },
        Formula::Not(a) => Formula::Not(Box::new(substitute_all(a, subs))),
        Formula::And(a, b) => Formula::And(
            Box::new(substitute_all(a, subs)),
            Box::new(substitute_all(b, subs)),
        ),
        Formula::Or(a, b) => Formula::Or(
            Box::new(substitute_all(a, subs)),
            Box::new(substitute_all(b, subs)),
        ),
        Formula::Implies(a, b) => Formula::Implies(
            Box::new(substitute_all(a, subs)),
            Box::new(substitute_all(b, subs)),
        ),
        Formula::Biconditional(a, b) => Formula::Biconditional(
            Box::new(substitute_all(a, subs)),
            Box::new(substitute_all(b, subs)),
        ),
        Formula::Contradiction => Formula::Contradiction,
    }
}

/// Adds the atoms of `f` that `found` does not hold yet.
fn add_atoms(found: &mut Vec<String>, f: &Formula)
    ensures
        names(final(found)@) == names(old(found)@).union(atom_set(f@)),
{
    let atoms = f.atoms();
    let ghost start = found@;
    let mut j: usize = 0;
    proof {
        assert(names(found@) =~= names(start).union(names(atoms@.subrange(0, 0))));
    }
    while j < atoms.len()
        invariant
            j <= atoms@.len(),
            names(found@) == names(start).union(names(atoms@.subrange(0, j as int))),
        decreases atoms@.len() - j,
    {
        let ghost before = found@;
        if !contains_name(found, &atoms[j]) {
            found.push(atoms[j].clone());
        }
        proof {
            let x = atoms@[j as int]@;
            assert(names(found@) =~= names(before).insert(x)) by {
                assert forall|y: Seq<char>| names(found@).contains(y) <==> names(before).insert(x).contains(y) by {
                    if names(found@).contains(y) {
                        let k = choose|k: int| 0 <= k < found@.len() && found@[k]@ == y;
                        if k < before.len() {
                            assert(before[k]@ == y);
                        }
                    }
                    if names(before).contains(y) {
                        let k = choose|k: int| 0 <= k < before.len() && before[k]@ == y;
                        assert(found@[k]@ == y);
                    }
                    if y == x {
                        if found@.len() > before.len() {
                            assert(found@[before.len() as int]@ == y);
                        } else {
                            let k = choose|k: int| 0 <= k < before.len() && before[k]@ == x;
                            assert(found@[k]@ == y);
                        }
                    }
                }
            }
            let s0 = atoms@.subrange(0, j as int);
            let s1 = atoms@.subrange(0, j + 1);
            assert(names(s1) =~= names(s0).insert(x)) by {
                assert forall|y: Seq<char>| names(s1).contains(y) <==> names(s0).insert(x).contains(y) by {
                    if names(s1).contains(y) {
                        let k = choose|k: int| 0 <= k < s1.len() && s1[k]@ == y;
                        if k < j {
                            assert(s0[k]@ == y);
                        }
                    }
                    if names(s0).contains(y) {
                        let k = choose|k: int| 0 <= k < s0.len() && s0[k]@ == y;
                        assert(s1[k]@ == y);
                    }
                    if y == x {
                        assert(s1[j as int]@ == y);
                    }
                }
            }
        }
        j = j + 1;
    }
    proof {
        assert(atoms@.subrange(0, atoms@.len() as int) =~= atoms@);
    }
}

/// The `i`-th capital letter from `A`.
fn capital(i: usize) -> String
    requires
        i < 26,
{
    let letters = [
        "A", "B", "C", "D", "E", "F", "G", "H", "I", "J", "K", "L", "M", "N", "O", "P", "Q", "R",
        "S", "T", "U", "V", "W", "X", "Y", "Z",
    ];
    string_of(letters[i])
}

/// Each group: its base atom followed by copies of `extra`.
fn groups_with_all(base: &Vec<String>, extra: &Vec<String>) -> (r: Vec<Vec<String>>)
    ensures
        r@.len() == base@.len(),
        forall|j: int| 0 <= j < r@.len() ==> (#[trigger] r@[j])@.len() > 0 && r@[j]@[0]@ == base@[j]@,
{
    let mut groups: Vec<Vec<String>> = Vec::new();
    let mut i: usize = 0;
    while i < base.len()
        invariant
            i <= base@.len(),
            groups@.len() == i,
            forall|j: int| 0 <= j < groups@.len() ==> (#[trigger] groups@[j])@.len() > 0 && groups@[j]@[0]@ == base@[j]@,
        decreases base@.len() - i,
    {
        let mut group = vec![base[i].clone()];
        let mut more = copy_names(extra);
        group.append(&mut more);
        proof {
            assert(group@[0] == base@[i as int]);
        }
        groups.push(group);
        i = i + 1;
    }
    groups
}

/// `g` is `f` with the node at one of its paths replaced by one of that
/// node's equivalent forms under some rule.
pub open spec fn rewrite_step(f: FormulaView, g: FormulaView) -> bool {
    exists|i: int, rule: EquivalenceRule, w: int|
        0 <= i < crate::formula::path_seq(f).len() && 0 <= w < equiv_forms(rule, crate::formula::subformula_seq(f)[i]).len()
            && g == crate::formula::replace_path(
            f,
            crate::formula::path_seq(f)[i],
            #[trigger] equiv_forms(rule, crate::formula::subformula_seq(f)[i])[w],
        )
}

/// Each formula of `chain` is one rewrite step from the one before.
pub open spec fn rewrite_chain(chain: Seq<FormulaView>) -> bool {
    &&& chain.len() >= 1
    &&& forall|k: int| 0 <= k < chain.len() - 1 ==> rewrite_step(chain[k], #[trigger] chain[k + 1])
}

/// `g` comes from `f` by a chain of rewrite steps followed by removing
/// double negations.
pub open spec fn rewritten_from(f: FormulaView, g: FormulaView) -> bool {
    exists|chain: Seq<FormulaView>|
        rewrite_chain(chain) && chain[0] == f && g == without_double_negations(#[trigger] chain.last())
}

/// `m` has an entry for the name `x`.
pub open spec fn has_entry(m: Seq<(Seq<char>, FormulaView)>, x: Seq<char>) -> bool {
    exists|k: int| 0 <= k < m.len() && m[k].0 == x
}

proof fn lemma_chain_push(chain: Seq<FormulaView>, g: FormulaView)
    requires
        rewrite_chain(chain),
        rewrite_step(chain.last(), g),
    ensures
        rewrite_chain(chain.push(g)),
        chain.push(g)[0] == chain[0],
        chain.push(g).last() == g,
{
    let c = chain.push(g);
    assert forall|k: int| 0 <= k < c.len() - 1 implies rewrite_step(c[k], #[trigger] c[k + 1]) by {
        if k < chain.len() - 1 {
            assert(c[k] == chain[k] && c[k + 1] == chain[k + 1]);
        } else {
            assert(c[k] == chain.last() && c[k + 1] == g);
        }
    }
}

impl ObfuscateGenerator {
    /// Replaces each atom of the argument form by a random formula over its
    /// own group of pool atoms (and itself), so that every base atom stays.
    fn apply_substitutions(&self, premises: Vec<Formula>, conclusion: Formula) -> (r: (Vec<Formula>, Formula))
        ensures
            exists|m: Seq<(Seq<char>, FormulaView)>|
                views(r.0@) == #[trigger] subst_each(views(premises@), m)
                    && r.1@ == subst_map(conclusion@, m)
                    && (forall|k: int| 0 <= k < m.len() ==> atom_set((#[trigger] m[k]).1).contains(m[k].0))
                    && (self.config.substitution_depth > 0 ==> (forall|j: int, x: Seq<char>|
                        0 <= j < premises@.len() && #[trigger] atom_set(premises@[j]@).contains(x) ==> has_entry(m, x))
                        && (forall|x: Seq<char>| #[trigger] atom_set(conclusion@).contains(x) ==> has_entry(m, x))),
            valid(wrapped_argument(views(premises@), conclusion@)) ==> valid(wrapped_argument(views(r.0@), r.1@)),
            atom_set(wrapped_argument(views(premises@), conclusion@)).subset_of(atom_set(wrapped_argument(views(r.0@), r.1@))),
    {
        if self.config.substitution_depth == 0 {
            proof {
                lemma_subst_identity_each(views(premises@));
                lemma_subst_identity(conclusion@);
            }
            return (premises, conclusion);
        }
        let mut found: Vec<String> = Vec::new();
        let mut i: usize = 0;
        while i < premises.len()
            invariant
                i <= premises@.len(),
                forall|j: int, x: Seq<char>|
                    0 <= j < i && #[trigger] atom_set(premises@[j]@).contains(x) ==> names(found@).contains(x),
            decreases premises@.len() - i,
        {
            add_atoms(&mut found, &premises[i]);
            i = i + 1;
        }
        add_atoms(&mut found, &conclusion);
        let base_atoms = sort_names(&found);
        if base_atoms.len() == 0 {
            proof {
                lemma_subst_identity_each(views(premises@));
                lemma_subst_identity(conclusion@);
                let m0 = Seq::<(Seq<char>, FormulaView)>::empty();
                assert forall|j: int, x: Seq<char>|
                    0 <= j < premises@.len() && #[trigger] atom_set(premises@[j]@).contains(x) implies has_entry(m0, x) by {
                    assert(names(base_atoms@).contains(x));
                    let k = choose|k: int| 0 <= k < base_atoms@.len() && base_atoms@[k]@ == x;
                }
                assert forall|x: Seq<char>| #[trigger] atom_set(conclusion@).contains(x) implies has_entry(m0, x) by {
                    assert(names(base_atoms@).contains(x));
                    let k = choose|k: int| 0 <= k < base_atoms@.len() && base_atoms@[k]@ == x;
                }
                assert(views(premises@) == subst_each(views(premises@), m0));
            }
            return (premises, conclusion);
        }
        let pool = &self.config.atom_pool;
        let mut remaining: Vec<String> = Vec::new();
        let mut k: usize = 0;
        while k < pool.len()
            invariant
                k <= pool@.len(),
            decreases pool@.len() - k,
        {
            if !contains_name(&base_atoms, &pool[k]) {
                remaining.push(pool[k].clone());
            }
            k = k + 1;
        }
        let groups: Vec<Vec<String>> = if remaining.len() == 0 {
            let n_sub: usize = if base_atoms.len() <= 13 {
                base_atoms.len() * 2
            } else {
                26
            };
            let mut groups: Vec<Vec<String>> = Vec::new();
            let mut i: usize = 0;
            while i < base_atoms.len()
                invariant
                    i <= base_atoms@.len(),
                    n_sub <= 26,
                    groups@.len() == i,
                    forall|j: int| 0 <= j < groups@.len() ==> (#[trigger] groups@[j])@.len() > 0 && groups@[j]@[0]@ == base_atoms@[j]@,
                decreases base_atoms@.len() - i,
            {
                let mut group = vec![base_atoms[i].clone()];
                let start = if i < 13 {
                    i * 2
                } else {
                    26
                };
                let end = if start.saturating_add(2) < n_sub {
                    start + 2
                } else {
                    n_sub
                };
                let mut c = start;
                while c < end
                    invariant
                        end <= n_sub <= 26,
                        group@.len() > 0,
                        group@[0]@ == base_atoms@[i as int]@,
                    decreases end - c,
                {
                    group.push(capital(c));
                    c = c + 1;
                }
                groups.push(group);
                i = i + 1;
            }
            groups
        } else if remaining.len() < base_atoms.len() {
            groups_with_all(&base_atoms, &remaining)
        } else {
            let bridge_count = if self.config.bridge_atoms < remaining.len() {
                self.config.bridge_atoms
            } else {
                remaining.len()
            };
            let mut bridges: Vec<String> = Vec::new();
            let mut non_bridge: Vec<String> = Vec::new();
            if bridge_count > 0 && base_atoms.len() >= 2 {
                let order = shuffled_indices(remaining.len());
                let mut i: usize = 0;
                while i < order.len()
                    invariant
                        i <= order@.len(),
                        order@.len() == remaining@.len(),
                        forall|j: int| 0 <= j < order@.len() ==> #[trigger] order@[j] < remaining@.len(),
                    decreases order@.len() - i,
                {
                    if i < bridge_count {
                        bridges.push(remaining[order[i]].clone());
                    } else {
                        non_bridge.push(remaining[order[i]].clone());
                    }
                    i = i + 1;
                }
            } else {
                non_bridge = copy_names(&remaining);
            }
            let mut groups: Vec<Vec<String>> = if non_bridge.len() == 0 {
                groups_with_all(&base_atoms, &non_bridge)
            } else if non_bridge.len() < base_atoms.len() {
                groups_with_all(&base_atoms, &non_bridge)
            } else {
                let chunk = non_bridge.len() / base_atoms.len();
                let leftover = non_bridge.len() % base_atoms.len();
                let mut groups: Vec<Vec<String>> = Vec::new();
                let mut offset: usize = 0;
                let mut i: usize = 0;
                while i < base_atoms.len()
                    invariant
                        i <= base_atoms@.len(),
                        groups@.len() == i,
                        forall|j: int| 0 <= j < groups@.len() ==> (#[trigger] groups@[j])@.len() > 0 && groups@[j]@[0]@ == base_atoms@[j]@,
                    decreases base_atoms@.len() - i,
                {
                    let size = if i < leftover {
                        chunk.saturating_add(1)
                    } else {
                        chunk
                    };
                    let mut group = vec![base_atoms[i].clone()];
                    let mut c: usize = 0;
                    while c < size && offset < non_bridge.len()
                        invariant
                            c <= size,
                            group@.len() > 0,
                            group@[0]@ == base_atoms@[i as int]@,
                        decreases size - c,
                    {
                        group.push(non_bridge[offset].clone());
                        offset = offset + 1;
                        c = c + 1;
                    }
                    groups.push(group);
                    i = i + 1;
                }
                groups
            };
            let mut b: usize = 0;
            while b < bridges.len()
                invariant
                    b <= bridges@.len(),
                    groups@.len() == base_atoms@.len(),
                    forall|j: int| 0 <= j < groups@.len() ==> (#[trigger] groups@[j])@.len() > 0 && groups@[j]@[0]@ == base_atoms@[j]@,
                decreases bridges@.len() - b,
            {
                if groups.len() >= 2 {
                    let idx = shuffled_indices(groups.len());
                    let first = idx[0];
                    let second = idx[1];
                    let ghost g0 = groups@;
                    let mut g1 = groups.remove(first);
                    g1.push(bridges[b].clone());
                    groups.insert(first, g1);
                    proof {
                        assert(groups@ =~= g0.update(first as int, groups@[first as int]));
                    }
                    let ghost g0b = groups@;
                    let mut g2 = groups.remove(second);
                    g2.push(bridges[b].clone());
                    groups.insert(second, g2);
                    proof {
                        assert(groups@ =~= g0b.update(second as int, groups@[second as int]));
                    }
                }
                b = b + 1;
            }
            groups
        };
        let mut subs: Vec<(String, Formula)> = Vec::new();
        let mut i: usize = 0;
        while i < base_atoms.len() && i < groups.len()
            invariant
                i <= base_atoms@.len(),
                subs@.len() == i,
                forall|j: int| 0 <= j < i ==> (#[trigger] subs@[j]).0@ == base_atoms@[j]@,
                groups@.len() == base_atoms@.len(),
                forall|j: int| 0 <= j < groups@.len() ==> (#[trigger] groups@[j])@.len() > 0 && groups@[j]@[0]@ == base_atoms@[j]@,
                forall|j: int| 0 <= j < subs@.len() ==> atom_set((#[trigger] subs@[j]).1@).contains(subs@[j].0@),
            decreases base_atoms@.len() - i,
        {
            let replacement = random_formula(self.config.substitution_depth, &groups[i]);
            proof {
                assert(atom_set(replacement@).contains(groups@[i as int]@[0]@));
            }
            subs.push((base_atoms[i].clone(), replacement));
            i = i + 1;
        }
        proof {
            assert forall|k: int| 0 <= k < table_view(subs@).len() implies atom_set((#[trigger] table_view(subs@)[k]).1).contains(table_view(subs@)[k].0) by {
                assert(atom_set(subs@[k].1@).contains(subs@[k].0@));
            }
        }
        let ghost m = table_view(subs@);
        proof {
            assert forall|x: Seq<char>| names(base_atoms@).contains(x) implies has_entry(m, x) by {
                let k = choose|k: int| 0 <= k < base_atoms@.len() && base_atoms@[k]@ == x;
                assert(m[k].0 == subs@[k].0@);
            }
        }
        let mut new_premises: Vec<Formula> = Vec::new();
        let mut i: usize = 0;
        while i < premises.len()
            invariant
                i <= premises@.len(),
                m == table_view(subs@),
                views(new_premises@) == subst_each(views(premises@).subrange(0, i as int), m),
            decreases premises@.len() - i,
        {
            let ghost before = new_premises@;
            let next = substitute_all(&premises[i], &subs);
            new_premises.push(next);
            proof {
                let target = subst_each(views(premises@).subrange(0, i + 1), m);
                assert(views(before).len() == before.len());
                assert(before.len() == i);
                assert(new_premises@ == before.push(next));
                assert forall|k: int| 0 <= k < i + 1 implies views(new_premises@)[k] == target[k] by {
                    if k < i {
                        assert(views(new_premises@)[k] == new_premises@[k]@);
                        assert(new_premises@[k] == before[k]);
                        assert(views(before)[k] == before[k]@);
                        assert(subst_each(views(premises@).subrange(0, i as int), m)[k] == target[k]);
                    } else {
                        assert(views(new_premises@)[k] == next@);
                        assert(views(premises@)[k] == premises@[k]@);
                    }
                }
                assert(views(new_premises@) =~= target);
            }
            i = i + 1;
        }
        let new_conclusion = substitute_all(&conclusion, &subs);
        proof {
            assert(views(premises@).subrange(0, i as int) =~= views(premises@));
            lemma_subst_wrapped(views(premises@), conclusion@, m);
            lemma_subst_keeps_atoms(wrapped_argument(views(premises@), conclusion@), m);
            if valid(wrapped_argument(views(premises@), conclusion@)) {
                law_substitution_keeps_validity(wrapped_argument(views(premises@), conclusion@), m);
            }
        }
        proof {
            assert(views(new_premises@) == subst_each(views(premises@), m));
        }
        (new_premises, new_conclusion)
    }

    /// Every rewrite the main loop may use at the root of `formula`, with
    /// its rule: tautology only in its contracting direction, and double
    /// negation only removed once two negations lead.
    fn find_applicable_rules(&self, formula: &Formula) -> (r: Vec<(EquivalenceRule, Formula)>)
        ensures
            forall|m: int| 0 <= m < r@.len() ==> equiv_forms((#[trigger] r@[m]).0, formula@).contains(r@[m].1@),
    {
        let mut results: Vec<(EquivalenceRule, Formula)> = Vec::new();
        let rules = EquivalenceRule::all();
        let mut k: usize = 0;
        while k < rules.len()
            invariant
                k <= rules@.len(),
                forall|m: int| 0 <= m < results@.len() ==> equiv_forms((#[trigger] results@[m]).0, formula@).contains(results@[m].1@),
            decreases rules@.len() - k,
        {
            proof {
                reveal_with_fuel(crate::formula::view_of, 2);
            }
            let rule = rules[k];
            if rule == EquivalenceRule::Tautology {
                match formula {
                    Formula::And(p, q) | Formula::Or(p, q) => {
                        if p.equals(q) {
                            proof {
                                assert(equiv_forms(rule, formula@)[2] == p@);
                            }
                            results.push((rule, (**p).clone()));
                        }
                    },
                    _ => {},
                }
            } else if rule == EquivalenceRule::DoubleNegation && count_leading_negations(formula) >= 2 {
                match formula {
                    Formula::Not(a) => match &**a {
                        Formula::Not(b) => {
                            proof {
                                assert(equiv_forms(rule, formula@)[1] == b@);
                            }
                            results.push((rule, (**b).clone()));
                        },
                        _ => {},
                    },
                    _ => {},
                }
            } else {
                let forms = rule.equivalent_forms(formula);
                let mut j: usize = 0;
                while j < forms.len()
                    invariant
                        j <= forms@.len(),
                        views(forms@) == equiv_forms(rule, formula@),
                        forall|m: int| 0 <= m < results@.len() ==> equiv_forms((#[trigger] results@[m]).0, formula@).contains(results@[m].1@),
                    decreases forms@.len() - j,
                {
                    proof {
                        assert(views(forms@)[j as int] == forms@[j as int]@);
                    }
                    results.push((rule, forms[j].clone()));
                    j = j + 1;
                }
            }
            k = k + 1;
        }
        results
    }

    /// Rewrites one random node by a weighted random applicable rule
    /// (distribution and equivalence at one fifth the weight of the others);
    /// the first node, in random order, whose rewrite keeps a tautology wins.
    fn try_apply_random_equivalence(&self, formula: &Formula) -> (r: Option<Formula>)
        ensures
            r matches Some(f) ==> valid(f@) && atom_set(f@) == atom_set(formula@),
            r matches Some(f) ==> rewrite_step(formula@, f@),
    {
        let subs = formula.subformulas_with_paths();
        if subs.len() == 0 {
            return None;
        }
        let order = shuffled_indices(subs.len());
        let mut t: usize = 0;
        while t < order.len()
            invariant
                t <= order@.len(),
                order@.len() == subs@.len(),
                forall|j: int| 0 <= j < order@.len() ==> #[trigger] order@[j] < subs@.len(),
                subs@.len() == crate::formula::path_seq(formula@).len(),
                forall|i: int|
                    0 <= i < subs@.len() ==> (#[trigger] subs@[i]).0@ == crate::formula::path_seq(formula@)[i]
                        && subs@[i].1@ == crate::formula::subformula_seq(formula@)[i],
            decreases order@.len() - t,
        {
            let (path, sub) = &subs[order[t]];
            let applicable = self.find_applicable_rules(sub);
            if applicable.len() > 0 {
                let mut total: usize = 0;
                let mut i: usize = 0;
                while i < applicable.len()
                    invariant
                        i <= applicable@.len(),
                        i > 0 ==> total >= 1,
                    decreases applicable@.len() - i,
                {
                    total = total.saturating_add(rule_weight(applicable[i].0));
                    i = i + 1;
                }
                let mut roll = random_below(total);
                let mut chosen: usize = 0;
                let mut i: usize = 0;
                while i < applicable.len()
                    invariant
                        i <= applicable@.len(),
                        chosen < applicable@.len(),
                    decreases applicable@.len() - i,
                {
                    let w = rule_weight(applicable[i].0);
                    if roll < w {
                        chosen = i;
                        break;
                    }
                    roll = roll - w;
                    i = i + 1;
                }
                let result = formula.replace_at_path(path.as_slice(), &applicable[chosen].1);
                proof {
                    let idx = order@[t as int] as int;
                    crate::formula::lemma_path_seq_valid(formula@, idx);
                    let g = applicable@[chosen as int].1@;
                    let rule = applicable@[chosen as int].0;
                    assert(equiv_forms(rule, sub@).contains(g));
                    let w = choose|w: int| 0 <= w < equiv_forms(rule, sub@).len() && equiv_forms(rule, sub@)[w] == g;
                    law_equivalent_forms_keep_atoms(rule, sub@, w);
                    crate::formula::lemma_replace_keeps_atoms(formula@, path@, g);
                    assert(result@ == crate::formula::replace_path(
                        formula@,
                        crate::formula::path_seq(formula@)[idx],
                        equiv_forms(rule, crate::formula::subformula_seq(formula@)[idx])[w],
                    ));
                }
                if is_tautology_dynamic(&result) {
                    return Some(result);
                }
            }
            t = t + 1;
        }
        None
    }

    /// Rewrites one random node by the given rule, trying nodes in random
    /// order until the rewrite keeps a tautology.
    fn try_apply_specific_rule(&self, formula: &Formula, rule: EquivalenceRule) -> (r: Option<Formula>)
        ensures
            r matches Some(f) ==> valid(f@) && atom_set(f@) == atom_set(formula@),
            r matches Some(f) ==> rewrite_step(formula@, f@),
    {
        let subs = formula.subformulas_with_paths();
        if subs.len() == 0 {
            return None;
        }
        let order = shuffled_indices(subs.len());
        let mut t: usize = 0;
        while t < order.len()
            invariant
                t <= order@.len(),
                order@.len() == subs@.len(),
                forall|j: int| 0 <= j < order@.len() ==> #[trigger] order@[j] < subs@.len(),
                subs@.len() == crate::formula::path_seq(formula@).len(),
                forall|i: int|
                    0 <= i < subs@.len() ==> (#[trigger] subs@[i]).0@ == crate::formula::path_seq(formula@)[i]
                        && subs@[i].1@ == crate::formula::subformula_seq(formula@)[i],
            decreases order@.len() - t,
        {
            let (path, sub) = &subs[order[t]];
            let forms = rule.equivalent_forms(sub);
            if forms.len() > 0 {
                let w = random_below(forms.len());
                let chosen = &forms[w];
                let result = formula.replace_at_path(path.as_slice(), chosen);
                proof {
                    let idx = order@[t as int] as int;
                    crate::formula::lemma_path_seq_valid(formula@, idx);
                    assert(views(forms@)[w as int] == chosen@);
                    law_equivalent_forms_keep_atoms(rule, sub@, w as int);
                    crate::formula::lemma_replace_keeps_atoms(formula@, path@, chosen@);
                    assert(result@ == crate::formula::replace_path(
                        formula@,
                        crate::formula::path_seq(formula@)[idx],
                        equiv_forms(rule, crate::formula::subformula_seq(formula@)[idx])[w as int],
                    ));
                }
                if is_tautology_dynamic(&result) {
                    return Some(result);
                }
            }
            t = t + 1;
        }
        None
    }

    /// Two or three paired rule chains, each applied at a random node.
    fn apply_gnarly_combos(&self, formula: Formula) -> (r: Formula)
        requires
            valid(formula@),
        ensures
            valid(r@),
            atom_set(r@) == atom_set(formula@),
            exists|chain: Seq<FormulaView>| rewrite_chain(chain) && chain[0] == formula@ && #[trigger] chain.last() == r@,
    {
        let ghost atoms0 = atom_set(formula@);
        let ghost chain = seq![formula@];
        let combo_count: usize = if self.config.difficulty_value >= 96 {
            3
        } else {
            2
        };
        let combos = [
            (EquivalenceRule::Contraposition, EquivalenceRule::DeMorgan),
            (EquivalenceRule::Implication, EquivalenceRule::Distribution),
            (EquivalenceRule::Exportation, EquivalenceRule::DoubleNegation),
            (EquivalenceRule::Equivalence, EquivalenceRule::DeMorgan),
        ];
        let order = shuffled_indices(4);
        let ghost old_view = formula@;
        let mut formula = formula;
        let mut i: usize = 0;
        while i < combo_count
            invariant
                i <= combo_count <= 3,
                order@.len() == 4,
                forall|j: int| 0 <= j < 4 ==> #[trigger] order@[j] < 4,
                valid(formula@),
                atom_set(formula@) == atoms0,
                rewrite_chain(chain),
                chain.last() == formula@,
                chain[0] == old_view,
            decreases combo_count - i,
        {
            let (first, second) = combos[order[i]];
            match self.try_apply_specific_rule(&formula, first) {
                Some(f) => {
                    proof {
                        lemma_chain_push(chain, f@);
                        chain = chain.push(f@);
                    }
                    formula = f;
                },
                None => {},
            }
            match self.try_apply_specific_rule(&formula, second) {
                Some(f) => {
                    proof {
                        lemma_chain_push(chain, f@);
                        chain = chain.push(f@);
                    }
                    formula = f;
                },
                None => {},
            }
            i = i + 1;
        }
        formula
    }

    /// One pass: the paired chains (when asked for, or at difficulty 85 and
    /// above), then up to `transform_count` successful random rewrites (at
    /// most ten attempts each), then double negations removed.
    fn apply_transformations(&self, formula: Formula) -> (r: Formula)
        requires
            valid(formula@),
        ensures
            valid(r@),
            atom_set(r@) == atom_set(formula@),
            rewritten_from(formula@, r@),
    {
        let ghost atoms0 = atom_set(formula@);
        let ghost start = formula@;
        let gnarly = match self.config.gnarly_combos {
            Some(g) => g,
            None => self.config.difficulty_value >= 85,
        };
        let mut formula = if gnarly {
            self.apply_gnarly_combos(formula)
        } else {
            formula
        };
        let ghost mut chain: Seq<FormulaView> = if gnarly {
            choose|c: Seq<FormulaView>| rewrite_chain(c) && c[0] == start && #[trigger] c.last() == formula@
        } else {
            seq![start]
        };
        let mut successes: usize = 0;
        let mut attempts: usize = 0;
        let max_attempts = if self.config.transform_count <= usize::MAX / 10 {
            self.config.transform_count * 10
        } else {
            usize::MAX
        };
        while successes < self.config.transform_count && attempts < max_attempts
            invariant
                valid(formula@),
                atom_set(formula@) == atoms0,
                attempts <= max_attempts,
                rewrite_chain(chain),
                chain[0] == start,
                chain.last() == formula@,
            decreases max_attempts - attempts,
        {
            attempts = attempts + 1;
            match self.try_apply_random_equivalence(&formula) {
                Some(f) => {
                    proof {
                        lemma_chain_push(chain, f@);
                        chain = chain.push(f@);
                    }
                    formula = f;
                    successes = successes + 1;
                },
                None => {},
            }
        }
        proof {
            law_collapse_keeps_validity(formula@);
            lemma_collapse_atoms(formula@);
        }
        simplify_negations(formula)
    }

    /// A tautology built from a random argument form by the whole pipeline.
    pub fn generate(&self) -> (r: Theorem)
        ensures
            r.premises@.len() == 0,
            valid(r.conclusion@),
            r.difficulty == self.config().difficulty,
            r.difficulty_value == self.config().difficulty_value,
            r.theme == Some(Theme::Equivalence),
            exists|ps: Seq<FormulaView>, c: FormulaView| #[trigger] rewritten_from(wrapped_argument(ps, c), r.conclusion@),
    {
        let (premises, conclusion) = self.generate_base_theorem();
        let (premises, conclusion) = self.apply_substitutions(premises, conclusion);
        let wrapped = self.wrap_as_conditional(premises.as_slice(), &conclusion);
        assert(wrapped@ == wrapped_argument(views(premises@), conclusion@));
        let obfuscated = self.apply_transformations(wrapped);
        Theorem::with_difficulty_value(
            Vec::new(),
            obfuscated,
            self.config.difficulty,
            self.config.difficulty_value,
            Some(Theme::Equivalence),
            None,
        )
    }

    /// The pipeline driven by a spec: base form, substitution, wrapping, then
    /// `passes` rounds of rewriting while the formula stays within the
    /// depth and node bounds.
    fn run_spec_pipeline(spec: &DifficultySpec) -> (r: Formula)
        ensures
            valid(r@),
            spec.base_complexity == BaseComplexity::Complex && spec.variables >= 3 ==> keeps_first_three(r@),
    {
        let config = ObfuscateConfig::from_spec(spec);
        let generator = ObfuscateGenerator::new(config);
        let use_complex = spec.base_complexity == BaseComplexity::Complex;
        let (premises, conclusion) = generator.generate_base_theorem_with_complexity(use_complex);
        let (premises, conclusion) = if spec.substitution_depth > 0 {
            generator.apply_substitutions(premises, conclusion)
        } else {
            (premises, conclusion)
        };
        let wrapped = generator.wrap_as_conditional(premises.as_slice(), &conclusion);
        proof {
            if spec.base_complexity == BaseComplexity::Complex && spec.variables >= 3 {
                assert forall|k: int| 0 <= k < 3 implies atom_set(wrapped@).contains(#[trigger] pool_name(k)) by {
                    assert(crate::dyn_table::name_seq(generator.config.atom_pool@)[k] == pool_name(k));
                }
            }
        }
        let ghost atoms0 = atom_set(wrapped@);
        let mut formula = wrapped;
        let max_nodes: usize = match spec.max_formula_nodes {
            Some(n) => n as usize,
            None => MAX_FORMULA_NODES,
        };
        let max_depth: usize = match spec.max_formula_depth {
            Some(d) => d as usize,
            None => MAX_FORMULA_DEPTH,
        };
        let mut pass: u16 = 0;
        while pass < spec.passes
            invariant
                valid(formula@),
                atom_set(formula@) == atoms0,
            decreases spec.passes - pass,
        {
            if formula.depth() >= max_depth || node_count(&formula) >= max_nodes {
                break;
            }
            formula = generator.apply_transformations(formula);
            pass = pass + 1;
        }
        formula
    }

    /// A theorem `⊢ T` for a spec, labelled Expert with value 100.
    pub fn generate_with_spec(spec: &DifficultySpec) -> (r: Theorem)
        ensures
            r.premises@.len() == 0,
            valid(r.conclusion@),
            spec.base_complexity == BaseComplexity::Complex && spec.variables >= 3 ==> keeps_first_three(r.conclusion@),
            r.difficulty == Difficulty::Expert,
            r.difficulty_value == 100,
    {
        let formula = Self::run_spec_pipeline(spec);
        Theorem::with_difficulty_value(
            Vec::new(),
            formula,
            Difficulty::Expert,
            100,
            Some(Theme::Equivalence),
            None,
        )
    }

    /// A theorem `⊢ T` for a tier, using the tier's spec.
    pub fn generate_with_tier(tier: DifficultyTier) -> (r: Theorem)
        ensures
            r.premises@.len() == 0,
            valid(r.conclusion@),
            tier_spec(tier).base_complexity == BaseComplexity::Complex ==> keeps_first_three(r.conclusion@),
            r.tier == Some(tier),
    {
        let spec = DifficultySpec::from_tier(tier);
        let formula = Self::run_spec_pipeline(&spec);
        Theorem::from_tier(Vec::new(), formula, tier, Some(Theme::Equivalence))
    }

    /// A theorem `⊢ T` labelled with a tier but generated from a given spec.
    pub fn generate_with_tier_spec(tier: DifficultyTier, spec: &DifficultySpec) -> (r: Theorem)
        ensures
            r.premises@.len() == 0,
            valid(r.conclusion@),
            spec.base_complexity == BaseComplexity::Complex && spec.variables >= 3 ==> keeps_first_three(r.conclusion@),
            r.tier == Some(tier),
    {
        let formula = Self::run_spec_pipeline(spec);
        Theorem::from_tier(Vec::new(), formula, tier, Some(Theme::Equivalence))
    }
}

/// What the degeneracy check makes of a generated theorem: it has no
/// premises and a valid conclusion, so whenever the engine can decide that
/// conclusion the check rejects it as a tautological conclusion.
pub proof fn law_generated_theorem_degeneracy(f: FormulaView)
    requires
        holds(f),
    ensures
        degeneracy(Seq::empty(), f) == Some(DegenerateProofError::TautologicalConclusion),
{
    let t = conj_all(Seq::<FormulaView>::empty());
    let env = |s: Seq<char>| true;
    assert(t == crate::formula::fnot(FormulaView::Contradiction));
    assert(!eval(FormulaView::Contradiction, env));
    assert(eval(t, env));
    assert(!eval(crate::formula::fnot(t), env));
}

/// The formula still holds the pool's first three atoms, `P`, `Q` and `R`.
pub open spec fn keeps_first_three(f: FormulaView) -> bool {
    forall|k: int| 0 <= k < 3 ==> atom_set(f).contains(#[trigger] pool_name(k))
}

/// The sampling weight of a rule in the main loop: size-exploding rules one,
/// the others five.
fn rule_weight(rule: EquivalenceRule) -> (r: usize)
    ensures
        1 <= r <= 5,
{
    match rule {
        EquivalenceRule::Distribution | EquivalenceRule::Equivalence => 1,
        _ => 5,
    }
}

} // verus!
