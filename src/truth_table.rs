//! Truth tables over the five fixed atoms `P, Q, R, S, T` as 32-bit words,
//! and over any set of atoms as packed bit vectors.

use crate::dyn_table::{holds, is_tautology_dynamic};
use crate::formula::{fbicond, fnot, Formula, FormulaView};
use vstd::prelude::*;
use vstd::string::*;

verus! {

/// All 32 rows true.
pub const TAUTOLOGY: u32 = 0xFFFF_FFFF;

/// No row true.
pub const CONTRADICTION: u32 = 0;

/// The fixed column of an atom in the 32-row table. Atoms other than
/// `P, Q, R, S, T` share the column of `P`.
pub open spec fn var_mask(name: Seq<char>) -> u32 {
    if name == seq!['P'] {
        0xFFFF_0000u32
    } else if name == seq!['Q'] {
        0xFF00_FF00u32
    } else if name == seq!['R'] {
        0xF0F0_F0F0u32
    } else if name == seq!['S'] {
        0xCCCC_CCCCu32
    } else if name == seq!['T'] {
        0xAAAA_AAAAu32
    } else {
        0xFFFF_0000u32
    }
}

/// The 32-row truth table of a formula, folded bitwise over its structure.
pub open spec fn tt32(f: FormulaView) -> u32
    decreases f,
{
    match f {
        FormulaView::Atom(s) => var_mask(s),
        FormulaView::Not(a) => !tt32(*a),
        FormulaView::And(a, b) => tt32(*a) & tt32(*b),
        FormulaView::Or(a, b) => tt32(*a) | tt32(*b),
        FormulaView::Implies(a, b) => !tt32(*a) | tt32(*b),
        FormulaView::Biconditional(a, b) => !(tt32(*a) ^ tt32(*b)),
        FormulaView::Contradiction => 0u32,
    }
}

/// The views of a sequence of formulas.
pub open spec fn views(s: Seq<Formula>) -> Seq<FormulaView> {
    s.map_values(|f: Formula| f@)
}

fn var_truth_table(name: &str) -> (r: u32)
    ensures
        r == var_mask(name@),
{
    let n = name.unicode_len();
    if n == 1 {
        let c = name.get_char(0);
        proof {
            assert(name@ =~= seq![c]);
        }
        if c == 'P' {
            0xFFFF_0000
        } else if c == 'Q' {
            0xFF00_FF00
        } else if c == 'R' {
            0xF0F0_F0F0
        } else if c == 'S' {
            0xCCCC_CCCC
        } else if c == 'T' {
            0xAAAA_AAAA
        } else {
            0xFFFF_0000
        }
    } else {
        proof {
            assert(name@ != seq!['P']);
            assert(name@ != seq!['Q']);
            assert(name@ != seq!['R']);
            assert(name@ != seq!['S']);
            assert(name@ != seq!['T']);
        }
        0xFFFF_0000
    }
}

/// The 32-row truth table of a formula.
pub fn compute_truth_table(formula: &Formula) -> (r: u32)
    ensures
        r == tt32(formula@),
    decreases formula,
{
    match formula {
        Formula::Atom(name) => var_truth_table(name.as_str()),
        Formula::Not(a) => !compute_truth_table(a),
        Formula::And(a, b) => compute_truth_table(a) & compute_truth_table(b),
        Formula::Or(a, b) => compute_truth_table(a) | compute_truth_table(b),
        Formula::Implies(a, b) => !compute_truth_table(a) | compute_truth_table(b),
        Formula::Biconditional(a, b) => !(compute_truth_table(a) ^ compute_truth_table(b)),
        Formula::Contradiction => CONTRADICTION,
    }
}

/// Is the 32-row table all ones?
pub(crate) fn words_tautology(formula: &Formula) -> (r: bool)
    ensures
        r == (tt32(formula@) == TAUTOLOGY),
{
    compute_truth_table(formula) == TAUTOLOGY
}

/// Is the formula true under every assignment of its atoms? Decided by the
/// two-tier engine, so formulas of more than 20 atoms (not all among
/// `P, Q, R, S, T`) are answered `false`.
pub fn is_tautology(formula: &Formula) -> (r: bool)
    ensures
        r == holds(formula@),
{
    is_tautology_dynamic(formula)
}

/// Is the formula false under every assignment of its atoms?
pub fn is_contradiction(formula: &Formula) -> (r: bool)
    ensures
        r == holds(fnot(formula@)),
{
    is_tautology_dynamic(&Formula::Not(Box::new(formula.clone())))
}

/// Do the two formulas agree under every assignment of their atoms?
pub fn are_equivalent(f1: &Formula, f2: &Formula) -> (r: bool)
    ensures
        r == holds(fbicond(f1@, f2@)),
{
    is_tautology_dynamic(&Formula::Biconditional(Box::new(f1.clone()), Box::new(f2.clone())))
}

impl Formula {
    /// The 32-row truth table of the formula.
    pub fn truth_table(&self) -> (r: u32)
        ensures
            r == tt32(self@),
    {
        compute_truth_table(self)
    }
}

} // verus!
