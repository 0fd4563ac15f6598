//! Truth tables over any set of atoms, as packed bit vectors with one bit per
//! row (row `r` in word `r / 64`, bit `r % 64`).

use crate::formula::{atom_set, names, Formula, FormulaView};
use crate::formula::str_eq;
use crate::truth_table::{tt32, var_mask, words_tautology, TAUTOLOGY};
use vstd::prelude::*;

verus! {

/// The largest number of variables a dynamic table may have.
pub const MAX_VARS: u8 = 20;

/// Bit `k` of a word.
pub open spec fn bit(x: u64, k: u64) -> bool {
    (x >> k) & 1u64 == 1u64
}

/// Number of rows of a table over `n` variables.
pub open spec fn row_count(n: u8) -> nat {
    (1u64 << (n as u64)) as nat
}

/// Number of 64-bit words holding the rows.
pub open spec fn word_count(n: u8) -> nat {
    (row_count(n) + 63) / 64
}

/// The block length of variable `i` of `n`: its column alternates between
/// runs of true and false of this length, true first.
pub open spec fn block(i: u8, n: u8) -> nat {
    (1u64 << ((n - 1 - i) as u64)) as nat
}

/// The value of variable `i` of `n` in row `r`.
pub open spec fn var_value(i: u8, n: u8, r: nat) -> bool {
    (r / block(i, n)) % 2 == 0
}

/// The value of a formula when each atom takes the value `env` gives it.
pub open spec fn eval(f: FormulaView, env: spec_fn(Seq<char>) -> bool) -> bool
    decreases f,
{
    match f {
        FormulaView::Atom(s) => env(s),
        FormulaView::Not(a) => !eval(*a, env),
        FormulaView::And(a, b) => eval(*a, env) && eval(*b, env),
        FormulaView::Or(a, b) => eval(*a, env) || eval(*b, env),
        FormulaView::Implies(a, b) => !eval(*a, env) || eval(*b, env),
        FormulaView::Biconditional(a, b) => eval(*a, env) == eval(*b, env),
        FormulaView::Contradiction => false,
    }
}

/// The index of the first occurrence of `name` in `vars` at or after `i`.
pub open spec fn index_from(vars: Seq<Seq<char>>, name: Seq<char>, i: int) -> Option<nat>
    decreases vars.len() - i,
{
    if i < 0 || i >= vars.len() {
        None
    } else if vars[i] == name {
        Some(i as nat)
    } else {
        index_from(vars, name, i + 1)
    }
}

/// The index of the first occurrence of `name` in `vars`.
pub open spec fn index_in(vars: Seq<Seq<char>>, name: Seq<char>) -> Option<nat> {
    index_from(vars, name, 0)
}

/// The assignment of row `r` of a table whose variables are `vars`, `n` of
/// them in all: variable `i` takes its column's value; names not among the
/// variables are true.
pub open spec fn row_env(vars: Seq<Seq<char>>, n: u8, r: nat) -> spec_fn(Seq<char>) -> bool {
    |name: Seq<char>| match index_in(vars, name) {
        Some(i) => var_value(i as u8, n, r),
        None => true,
    }
}

/// The names held by a sequence of strings, in order.
pub open spec fn name_seq(v: Seq<String>) -> Seq<Seq<char>> {
    v.map_values(|s: String| s@)
}

/// `vars` lists each atom of `f` exactly once.
pub open spec fn enumerates(vars: Seq<Seq<char>>, f: FormulaView) -> bool {
    &&& vars.to_set() == atom_set(f)
    &&& forall|i: int, j: int| 0 <= i < j < vars.len() ==> vars[i] != vars[j]
}

/// The number of variables of a table over `vars`: one at least.
pub open spec fn width(vars: Seq<Seq<char>>) -> u8 {
    if vars.len() == 0 {
        1u8
    } else {
        vars.len() as u8
    }
}

/// Every row of the table over the variables `vars` makes `f` true.
pub open spec fn all_rows_true(f: FormulaView, vars: Seq<Seq<char>>) -> bool {
    forall|q: nat| q < row_count(width(vars)) ==> #[trigger] eval(f, row_env(vars, width(vars), q))
}

/// The five atoms of the 32-bit table.
pub open spec fn standard_atoms() -> Set<Seq<char>> {
    set![seq!['P'], seq!['Q'], seq!['R'], seq!['S'], seq!['T']]
}

/// A dynamic truth table.
#[derive(Debug)]
pub struct DynTruthTable {
    bits: Vec<u64>,
    num_vars: u8,
}

proof fn lemma_bits(x: u64, y: u64, k: u64)
    by (bit_vector)
    requires
        k < 64,
    ensures
        bit(!x, k) == !bit(x, k),
        bit(x & y, k) == (bit(x, k) && bit(y, k)),
        bit(x | y, k) == (bit(x, k) || bit(y, k)),
        bit(!(x ^ y), k) == (bit(x, k) == bit(y, k)),
        bit(!0u64, k),
        !bit(0u64, k),
{
}

proof fn lemma_set_bit(x: u64, b: u64, k: u64)
    by (bit_vector)
    requires
        k < 64,
        b < 64,
    ensures
        bit(x | (1u64 << b), k) == (bit(x, k) || k == b),
{
}

proof fn lemma_low_mask(x: u64, m: u64, k: u64)
    by (bit_vector)
    requires
        k < 64,
        0 < m < 64,
    ensures
        bit(x & (((1u64 << m) - 1) as u64), k) == (bit(x, k) && k < m),
        bit(((1u64 << m) - 1) as u64, k) == (k < m),
{
}

proof fn lemma_shift_bounds(n: u64)
    by (bit_vector)
    requires
        n <= 20,
    ensures
        1u64 <= (1u64 << n) <= 0x10_0000u64,
{
}

proof fn lemma_row_count(n: u8)
    requires
        n <= MAX_VARS,
    ensures
        1 <= row_count(n) <= 0x10_0000,
        row_count(n) % 64 == 0 <==> n >= 6,
{
    lemma_shift_bounds(n as u64);
    lemma_pow_rows(n as u64);
}

proof fn lemma_small_table(n: u64, m: u64)
    by (bit_vector)
    requires
        n <= 20,
        m < 64,
    ensures
        (1u64 << n) % 64 != 0 ==> (1u64 << n) < 64,
        (1u64 << m) >= 1,
{
}

proof fn lemma_pow_rows(n: u64)
    by (bit_vector)
    requires
        n <= 20,
    ensures
        ((1u64 << n) % 64 == 0) == (n >= 6),
{
}

impl DynTruthTable {
    /// The row `r` of the table.
    pub closed spec fn row(&self, r: nat) -> bool {
        bit(self.bits@[(r / 64) as int], (r % 64) as u64)
    }

    /// The words holding the rows.
    pub closed spec fn words_view(&self) -> Seq<u64> {
        self.bits@
    }

    /// The number of variables.
    pub closed spec fn vars(&self) -> u8 {
        self.num_vars
    }

    /// Well formed: at most 20 variables, the right number of words, and the
    /// padding bits after the last row clear.
    pub closed spec fn wf(&self) -> bool {
        &&& self.num_vars <= MAX_VARS
        &&& self.bits@.len() == word_count(self.num_vars)
        &&& forall|r: nat|
            row_count(self.num_vars) <= r < 64 * word_count(self.num_vars) ==> !#[trigger] self.row(r)
    }

    fn words(num_vars: u8) -> (r: usize)
        requires
            num_vars <= MAX_VARS,
        ensures
            r == word_count(num_vars),
    {
        proof {
            lemma_row_count(num_vars);
        }
        let total_bits = 1u64 << num_vars as u64;
        ((total_bits + 63) / 64) as usize
    }

    fn zeros(n: usize) -> (r: Vec<u64>)
        ensures
            r@.len() == n,
            forall|i: int| 0 <= i < n ==> r@[i] == 0u64,
    {
        let mut v: Vec<u64> = Vec::new();
        let mut i: usize = 0;
        while i < n
            invariant
                i <= n,
                v@.len() == i,
                forall|j: int| 0 <= j < i ==> v@[j] == 0u64,
            decreases n - i,
        {
            v.push(0u64);
            i = i + 1;
        }
        v
    }

    /// The column of variable `index` among `num_vars`.
    pub fn new_var(index: u8, num_vars: u8) -> (r: Self)
        requires
            index < num_vars <= MAX_VARS,
        ensures
            r.wf(),
            r.vars() == num_vars,
            forall|row: nat| row < row_count(num_vars) ==> #[trigger] r.row(row) == var_value(index, num_vars, row),
    {
        proof {
            lemma_row_count(num_vars);
            lemma_shift_bounds((num_vars - 1 - index) as u64);
        }
        let n_words = Self::words(num_vars);
        let mut bits = Self::zeros(n_words);
        let block_size: u64 = 1u64 << (num_vars as u64 - 1 - index as u64);
        let total_rows: u64 = 1u64 << num_vars as u64;
        let mut row: u64 = 0;
        proof {
            assert forall|q: nat| row <= q < 64 * n_words && q / 64 == row / 64 implies !#[trigger] bit(bits@[(q / 64) as int], (q % 64) as u64) by {
                lemma_bits(0u64, 0u64, (q % 64) as u64);
            }
        }
        while row < 64 * (n_words as u64)
            invariant
                bits@.len() == n_words,
                n_words == word_count(num_vars),
                total_rows == row_count(num_vars),
                block_size == block(index, num_vars),
                1 <= block_size,
                1 <= total_rows <= 0x10_0000,
                row <= 64 * n_words,
                forall|w: int| row / 64 <= w < n_words && (w > row / 64 || row % 64 == 0) ==> bits@[w] == 0u64,
                forall|q: nat|
                    q < row ==> #[trigger] bit(bits@[(q / 64) as int], (q % 64) as u64) == (q < total_rows
                        && var_value(index, num_vars, q)),
                forall|q: nat|
                    row <= q < 64 * n_words && q / 64 == row / 64 ==> !#[trigger] bit(bits@[(q / 64) as int], (q % 64) as u64),
            decreases 64 * n_words - row,
        {
            let word_idx = (row / 64) as usize;
            let bit_idx = row % 64;
            if row < total_rows && (row / block_size) % 2 == 0 {
                let old_word = bits[word_idx];
                bits.set(word_idx, old_word | (1u64 << bit_idx));
                proof {
                    assert forall|q: nat| q < row + 1 implies #[trigger] bit(bits@[(q / 64) as int], (q % 64) as u64)
                        == (q < total_rows && var_value(index, num_vars, q)) by {
                        if q / 64 == row / 64 {
                            lemma_set_bit(old_word, bit_idx, (q % 64) as u64);
                        }
                    }
                    assert forall|q: nat| row + 1 <= q < 64 * n_words && q / 64 == (row + 1) / 64 implies !#[trigger] bit(bits@[(q / 64) as int], (q % 64) as u64) by {
                        if q / 64 == row / 64 {
                            lemma_set_bit(old_word, bit_idx, (q % 64) as u64);
                        } else {
                            lemma_bits(0u64, 0u64, (q % 64) as u64);
                        }
                    }
                }
            } else {
                proof {
                    assert forall|q: nat| row + 1 <= q < 64 * n_words && q / 64 == (row + 1) / 64 implies !#[trigger] bit(bits@[(q / 64) as int], (q % 64) as u64) by {
                        if q / 64 != row / 64 {
                            lemma_bits(0u64, 0u64, (q % 64) as u64);
                        }
                    }
                }
            }
            row = row + 1;
        }
        let r = DynTruthTable { bits, num_vars };
        proof {
            assert forall|q: nat| row_count(num_vars) <= q < 64 * word_count(num_vars) implies !#[trigger] r.row(q) by {}
            assert forall|q: nat| q < row_count(num_vars) implies #[trigger] r.row(q) == var_value(index, num_vars, q) by {}
        }
        r
    }

    /// Clears the padding bits after the last row.
    fn finish(bits: Vec<u64>, num_vars: u8) -> (r: Self)
        requires
            num_vars <= MAX_VARS,
            bits@.len() == word_count(num_vars),
        ensures
            r.wf(),
            r.vars() == num_vars,
            forall|q: nat| q < row_count(num_vars) ==> #[trigger] r.row(q) == bit(bits@[(q / 64) as int], (q % 64) as u64),
    {
        proof {
            lemma_row_count(num_vars);
        }
        let total_bits: u64 = 1u64 << num_vars as u64;
        let remainder = total_bits % 64;
        let mut bits = bits;
        let ghost orig = bits@;
        if remainder != 0 && bits.len() > 0 {
            proof {
                lemma_small_table(num_vars as u64, remainder);
            }
            let last = bits.len() - 1;
            let w = bits[last];
            bits.set(last, w & ((1u64 << remainder) - 1));
            proof {
                assert(last == 0);
                assert forall|q: nat| q < 64 implies #[trigger] bit(bits@[0], q as u64) == (bit(orig[0], q as u64) && q < total_bits) by {
                    lemma_low_mask(w, remainder, q as u64);
                }
            }
        }
        let r = DynTruthTable { bits, num_vars };
        proof {
            assert forall|q: nat| row_count(num_vars) <= q < 64 * word_count(num_vars) implies !#[trigger] r.row(q) by {
                assert(q / 64 == 0);
            }
            assert forall|q: nat| q < row_count(num_vars) implies #[trigger] r.row(q) == bit(orig[(q / 64) as int], (q % 64) as u64) by {
                if remainder != 0 {
                    assert(q / 64 == 0);
                }
            }
        }
        r
    }

    fn filled(n: usize, w: u64) -> (r: Vec<u64>)
        ensures
            r@.len() == n,
            forall|i: int| 0 <= i < n ==> r@[i] == w,
    {
        let mut v: Vec<u64> = Vec::new();
        let mut i: usize = 0;
        while i < n
            invariant
                i <= n,
                v@.len() == i,
                forall|j: int| 0 <= j < i ==> v@[j] == w,
            decreases n - i,
        {
            v.push(w);
            i = i + 1;
        }
        v
    }

    /// The table that is true in every row.
    pub fn tautology(num_vars: u8) -> (r: Self)
        requires
            num_vars <= MAX_VARS,
        ensures
            r.wf(),
            r.vars() == num_vars,
            forall|q: nat| q < row_count(num_vars) ==> #[trigger] r.row(q),
    {
        let n_words = Self::words(num_vars);
        let bits = Self::filled(n_words, !0u64);
        let r = Self::finish(bits, num_vars);
        proof {
            assert forall|q: nat| q < row_count(num_vars) implies #[trigger] r.row(q) by {
                lemma_row_count(num_vars);
                lemma_bits(0u64, 0u64, (q % 64) as u64);
            }
        }
        r
    }

    /// The table that is false in every row.
    pub fn contradiction(num_vars: u8) -> (r: Self)
        requires
            num_vars <= MAX_VARS,
        ensures
            r.wf(),
            r.vars() == num_vars,
            forall|q: nat| q < row_count(num_vars) ==> !#[trigger] r.row(q),
    {
        let n_words = Self::words(num_vars);
        let bits = Self::filled(n_words, 0u64);
        let r = Self::finish(bits, num_vars);
        proof {
            assert forall|q: nat| q < row_count(num_vars) implies !#[trigger] r.row(q) by {
                lemma_row_count(num_vars);
                lemma_bits(0u64, 0u64, (q % 64) as u64);
            }
        }
        r
    }

    /// Row-wise negation.
    pub fn not(&self) -> (r: Self)
        requires
            self.wf(),
        ensures
            r.wf(),
            r.vars() == self.vars(),
            forall|q: nat| q < row_count(self.vars()) ==> #[trigger] r.row(q) == !self.row(q),
    {
        let mut bits: Vec<u64> = Vec::new();
        let mut i: usize = 0;
        while i < self.bits.len()
            invariant
                i <= self.bits@.len(),
                bits@.len() == i,
                forall|j: int| 0 <= j < i ==> bits@[j] == !self.bits@[j],
            decreases self.bits@.len() - i,
        {
            bits.push(!self.bits[i]);
            i = i + 1;
        }
        let r = Self::finish(bits, self.num_vars);
        proof {
            assert forall|q: nat| q < row_count(self.vars()) implies #[trigger] r.row(q) == !self.row(q) by {
                lemma_row_count(self.num_vars);
                lemma_bits(self.bits@[(q / 64) as int], 0u64, (q % 64) as u64);
            }
        }
        r
    }

    /// Row-wise conjunction.
    pub fn and(&self, other: &Self) -> (r: Self)
        requires
            self.wf(),
            other.wf(),
            self.vars() == other.vars(),
        ensures
            r.wf(),
            r.vars() == self.vars(),
            forall|q: nat| q < row_count(self.vars()) ==> #[trigger] r.row(q) == (self.row(q) && other.row(q)),
    {
        self.combine(other, 0)
    }

    /// Row-wise disjunction.
    pub fn or(&self, other: &Self) -> (r: Self)
        requires
            self.wf(),
            other.wf(),
            self.vars() == other.vars(),
        ensures
            r.wf(),
            r.vars() == self.vars(),
            forall|q: nat| q < row_count(self.vars()) ==> #[trigger] r.row(q) == (self.row(q) || other.row(q)),
    {
        self.combine(other, 1)
    }

    /// Row-wise implication.
    pub fn implies(&self, other: &Self) -> (r: Self)
        requires
            self.wf(),
            other.wf(),
            self.vars() == other.vars(),
        ensures
            r.wf(),
            r.vars() == self.vars(),
            forall|q: nat| q < row_count(self.vars()) ==> #[trigger] r.row(q) == (!self.row(q) || other.row(q)),
    {
        let n = self.not();
        let r = n.or(other);
        proof {
            assert forall|q: nat| q < row_count(self.vars()) implies #[trigger] r.row(q) == (!self.row(q) || other.row(q)) by {
                assert(n.row(q) == !self.row(q));
            }
        }
        r
    }

    /// Row-wise equivalence.
    pub fn biconditional(&self, other: &Self) -> (r: Self)
        requires
            self.wf(),
            other.wf(),
            self.vars() == other.vars(),
        ensures
            r.wf(),
            r.vars() == self.vars(),
            forall|q: nat| q < row_count(self.vars()) ==> #[trigger] r.row(q) == (self.row(q) == other.row(q)),
    {
        self.combine(other, 2)
    }

    /// Word-wise `&` (op 0), `|` (op 1) or equivalence (op 2).
    fn combine(&self, other: &Self, op: u8) -> (r: Self)
        requires
            self.wf(),
            other.wf(),
            self.vars() == other.vars(),
            op <= 2,
        ensures
            r.wf(),
            r.vars() == self.vars(),
            forall|q: nat|
                q < row_count(self.vars()) ==> #[trigger] r.row(q) == if op == 0 {
                    self.row(q) && other.row(q)
                } else if op == 1 {
                    self.row(q) || other.row(q)
                } else {
                    self.row(q) == other.row(q)
                },
    {
        let mut bits: Vec<u64> = Vec::new();
        let mut i: usize = 0;
        while i < self.bits.len()
            invariant
                i <= self.bits@.len(),
                self.bits@.len() == other.bits@.len(),
                bits@.len() == i,
                forall|j: int|
                    0 <= j < i ==> bits@[j] == if op == 0 {
                        self.bits@[j] & other.bits@[j]
                    } else if op == 1 {
                        self.bits@[j] | other.bits@[j]
                    } else {
                        !(self.bits@[j] ^ other.bits@[j])
                    },
            decreases self.bits@.len() - i,
        {
            let a = self.bits[i];
            let b = other.bits[i];
            let w = if op == 0 {
                a & b
            } else if op == 1 {
                a | b
            } else {
                !(a ^ b)
            };
            bits.push(w);
            i = i + 1;
        }
        let r = Self::finish(bits, self.num_vars);
        proof {
            assert forall|q: nat| q < row_count(self.vars()) implies #[trigger] r.row(q) == if op == 0 {
                self.row(q) && other.row(q)
            } else if op == 1 {
                self.row(q) || other.row(q)
            } else {
                self.row(q) == other.row(q)
            } by {
                lemma_row_count(self.num_vars);
                lemma_bits(self.bits@[(q / 64) as int], other.bits@[(q / 64) as int], (q % 64) as u64);
            }
        }
        r
    }

    /// Is every row true?
    pub fn is_tautology(&self) -> (r: bool)
        requires
            self.wf(),
        ensures
            r == forall|q: nat| q < row_count(self.vars()) ==> #[trigger] self.row(q),
    {
        self.all_rows(true)
    }

    /// Is every row false?
    pub fn is_contradiction(&self) -> (r: bool)
        requires
            self.wf(),
        ensures
            r == forall|q: nat| q < row_count(self.vars()) ==> !#[trigger] self.row(q),
    {
        self.all_rows(false)
    }

    fn all_rows(&self, value: bool) -> (r: bool)
        requires
            self.wf(),
        ensures
            r == forall|q: nat| q < row_count(self.vars()) ==> #[trigger] self.row(q) == value,
    {
        proof {
            lemma_row_count(self.num_vars);
        }
        let total: u64 = 1u64 << self.num_vars as u64;
        let mut q: u64 = 0;
        while q < total
            invariant
                self.wf(),
                total == row_count(self.vars()),
                total <= 0x10_0000,
                q <= total,
                forall|p: nat| p < q ==> #[trigger] self.row(p) == value,
            decreases total - q,
        {
            proof {
                assert((q / 64) < self.bits@.len()) by {
                    assert(q < 64 * word_count(self.num_vars));
                }
            }
            let w = self.bits[(q / 64) as usize];
            let b = (w >> (q % 64)) & 1u64 == 1u64;
            if b != value {
                proof {
                    assert(self.row(q as nat) != value);
                }
                return false;
            }
            q = q + 1;
        }
        true
    }

    /// Same number of variables and the same words.
    pub fn eq(&self, other: &Self) -> (r: bool)
        ensures
            r == (self.vars() == other.vars() && self.words_view() == other.words_view()),
    {
        if self.num_vars != other.num_vars || self.bits.len() != other.bits.len() {
            return false;
        }
        let mut i: usize = 0;
        while i < self.bits.len()
            invariant
                i <= self.bits@.len(),
                self.bits@.len() == other.bits@.len(),
                forall|j: int| 0 <= j < i ==> self.bits@[j] == other.bits@[j],
            decreases self.bits@.len() - i,
        {
            if self.bits[i] != other.bits[i] {
                return false;
            }
            i = i + 1;
        }
        proof {
            assert(self.bits@ =~= other.bits@);
        }
        true
    }
}


/// Looks up the variable index of an atom name.
fn lookup(vars: &Vec<String>, name: &str) -> (r: Option<usize>)
    ensures
        match index_in(name_seq(vars@), name@) {
            Some(i) => r == Some(i as usize),
            None => r is None,
        },
{
    let mut i: usize = 0;
    while i < vars.len()
        invariant
            i <= vars@.len(),
            index_in(name_seq(vars@), name@) == index_from(name_seq(vars@), name@, i as int),
        decreases vars@.len() - i,
    {
        if str_eq(vars[i].as_str(), name) {
            return Some(i);
        }
        i = i + 1;
    }
    None
}

fn eval_dyn(formula: &Formula, vars: &Vec<String>, num_vars: u8) -> (r: DynTruthTable)
    requires
        1 <= num_vars <= MAX_VARS,
        vars@.len() <= num_vars,
    ensures
        r.wf(),
        r.vars() == num_vars,
        forall|q: nat|
            q < row_count(num_vars) ==> #[trigger] r.row(q) == eval(
                formula@,
                row_env(name_seq(vars@), num_vars, q),
            ),
    decreases formula,
{
    match formula {
        Formula::Atom(name) => {
            match lookup(vars, name.as_str()) {
                Some(i) => {
                    proof {
                        lemma_index_bound(name_seq(vars@), name@, 0);
                    }
                    DynTruthTable::new_var(i as u8, num_vars)
                },
                None => DynTruthTable::tautology(num_vars),
            }
        },
        Formula::Not(a) => eval_dyn(a, vars, num_vars).not(),
        Formula::And(a, b) => eval_dyn(a, vars, num_vars).and(&eval_dyn(b, vars, num_vars)),
        Formula::Or(a, b) => eval_dyn(a, vars, num_vars).or(&eval_dyn(b, vars, num_vars)),
        Formula::Implies(a, b) => eval_dyn(a, vars, num_vars).implies(&eval_dyn(b, vars, num_vars)),
        Formula::Biconditional(a, b) => eval_dyn(a, vars, num_vars).biconditional(
            &eval_dyn(b, vars, num_vars),
        ),
        Formula::Contradiction => DynTruthTable::contradiction(num_vars),
    }
}

proof fn lemma_index_bound(vars: Seq<Seq<char>>, name: Seq<char>, i: int)
    ensures
        index_from(vars, name, i) matches Some(k) ==> i <= k < vars.len(),
    decreases vars.len() - i,
{
    if 0 <= i < vars.len() && vars[i] != name {
        lemma_index_bound(vars, name, i + 1);
    }
}

/// `a` comes before `b` in code-point order: at the first place where they
/// differ `a` has the smaller character, or `a` is a proper prefix of `b`.
pub open spec fn code_less(a: Seq<char>, b: Seq<char>) -> bool
    decreases a.len(),
{
    if a.len() == 0 {
        b.len() > 0
    } else if b.len() == 0 {
        false
    } else if a[0] != b[0] {
        a[0] < b[0]
    } else {
        code_less(a.drop_first(), b.drop_first())
    }
}

/// Each name comes before the next in code-point order.
pub open spec fn code_sorted(vars: Seq<Seq<char>>) -> bool {
    forall|i: int, j: int| 0 <= i < j < vars.len() ==> code_less(vars[i], vars[j])
}

proof fn lemma_code_less_trans(a: Seq<char>, b: Seq<char>, c: Seq<char>)
    requires
        code_less(a, b),
        code_less(b, c),
    ensures
        code_less(a, c),
    decreases a.len(),
{
    if a.len() > 0 && a[0] == b[0] && b[0] == c[0] {
        lemma_code_less_trans(a.drop_first(), b.drop_first(), c.drop_first());
    }
}

proof fn lemma_code_less_total(a: Seq<char>, b: Seq<char>)
    requires
        a != b,
    ensures
        code_less(a, b) || code_less(b, a),
    decreases a.len(),
{
    if a.len() > 0 && b.len() > 0 && a[0] == b[0] {
        assert(a =~= seq![a[0]] + a.drop_first());
        assert(b =~= seq![b[0]] + b.drop_first());
        lemma_code_less_total(a.drop_first(), b.drop_first());
    } else if a.len() == 0 && b.len() == 0 {
        assert(a =~= b);
    }
}

proof fn lemma_code_less_irreflexive(a: Seq<char>)
    ensures
        !code_less(a, a),
    decreases a.len(),
{
    if a.len() > 0 {
        lemma_code_less_irreflexive(a.drop_first());
    }
}

proof fn lemma_sorted_prefix_agree(v1: Seq<Seq<char>>, v2: Seq<Seq<char>>, f: FormulaView, k: int)
    requires
        enumerates(v1, f),
        code_sorted(v1),
        enumerates(v2, f),
        code_sorted(v2),
        0 <= k <= v1.len(),
        k <= v2.len(),
    ensures
        forall|i: int| 0 <= i < k ==> v1[i] == v2[i],
    decreases k,
{
    if k > 0 {
        lemma_sorted_prefix_agree(v1, v2, f, k - 1);
        let j = k - 1;
        if v1[j] != v2[j] {
            lemma_code_less_total(v1[j], v2[j]);
            lemma_sorted_prefix_step(v1, v2, j);
            lemma_sorted_prefix_step(v2, v1, j);
        }
    }
}

proof fn lemma_sorted_prefix_step(v1: Seq<Seq<char>>, v2: Seq<Seq<char>>, j: int)
    requires
        v1.to_set() == v2.to_set(),
        code_sorted(v1),
        code_sorted(v2),
        0 <= j < v1.len(),
        j < v2.len(),
        forall|i: int| 0 <= i < j ==> v1[i] == v2[i],
    ensures
        !code_less(v1[j], v2[j]),
{
    if !code_less(v1[j], v2[j]) {
        return;
    }
    assert(v1.to_set().contains(v1[j]));
    assert(v2.to_set().contains(v1[j]));
    let m = choose|m: int| 0 <= m < v2.len() && v2[m] == v1[j];
    lemma_code_less_irreflexive(v1[j]);
    if m < j {
        assert(v1[m] == v1[j]);
        assert(code_less(v1[m], v1[j]));
    } else if m > j {
        assert(code_less(v2[j], v2[m]));
        lemma_code_less_trans(v1[j], v2[j], v1[j]);
    }
}

/// A formula's atoms have one listing in code-point order: two listings
/// that each name every atom once, in that order, are the same.
pub proof fn law_sorted_atoms_unique(v1: Seq<Seq<char>>, v2: Seq<Seq<char>>, f: FormulaView)
    requires
        enumerates(v1, f),
        code_sorted(v1),
        enumerates(v2, f),
        code_sorted(v2),
    ensures
        v1 == v2,
{
    assert(v1.no_duplicates());
    assert(v2.no_duplicates());
    v1.unique_seq_to_set();
    v2.unique_seq_to_set();
    lemma_sorted_prefix_agree(v1, v2, f, v1.len() as int);
    assert(v1 =~= v2);
}

/// Does `a` come before `b` in code-point order?
pub(crate) fn str_less(a: &str, b: &str) -> (r: bool)
    ensures
        r == code_less(a@, b@),
{
    let n = a.unicode_len();
    let m = b.unicode_len();
    let mut i: usize = 0;
    proof {
        assert(a@.skip(0) =~= a@);
        assert(b@.skip(0) =~= b@);
    }
    while i < n && i < m
        invariant
            n == a@.len(),
            m == b@.len(),
            i <= n,
            i <= m,
            code_less(a@, b@) == code_less(a@.skip(i as int), b@.skip(i as int)),
        decreases n - i,
    {
        let x = a.get_char(i);
        let y = b.get_char(i);
        if x != y {
            return x < y;
        }
        proof {
            assert(a@.skip(i as int).drop_first() =~= a@.skip(i + 1));
            assert(b@.skip(i as int).drop_first() =~= b@.skip(i + 1));
        }
        i = i + 1;
    }
    n < m
}

/// The atoms of a formula, each once, in code-point order.
fn sorted_atoms(formula: &Formula) -> (r: Vec<String>)
    ensures
        enumerates(name_seq(r@), formula@),
        code_sorted(name_seq(r@)),
{
    let atoms = formula.atoms();
    let mut out: Vec<String> = Vec::new();
    let mut i: usize = 0;
    while i < atoms.len()
        invariant
            i <= atoms@.len(),
            forall|a: int, b: int| 0 <= a < b < atoms@.len() ==> atoms@[a]@ != atoms@[b]@,
            name_seq(out@).to_set() == name_seq(atoms@.subrange(0, i as int)).to_set(),
            forall|a: int, b: int| 0 <= a < b < out@.len() ==> out@[a]@ != out@[b]@,
            forall|a: int, b: int| 0 <= a < b < out@.len() ==> code_less(out@[a]@, out@[b]@),
        decreases atoms@.len() - i,
    {
        let mut pos: usize = 0;
        while pos < out.len() && str_less(out[pos].as_str(), atoms[i].as_str())
            invariant
                pos <= out@.len(),
                i < atoms@.len(),
                forall|k: int| 0 <= k < pos ==> code_less(out@[k]@, atoms@[i as int]@),
            decreases out@.len() - pos,
        {
            pos = pos + 1;
        }
        let ghost before = out@;
        proof {
            assert(!name_seq(before).to_set().contains(atoms@[i as int]@)) by {
                if name_seq(before).to_set().contains(atoms@[i as int]@) {
                    assert(name_seq(atoms@.subrange(0, i as int)).to_set().contains(atoms@[i as int]@));
                    let k = choose|k: int| 0 <= k < i && name_seq(atoms@.subrange(0, i as int))[k] == atoms@[i as int]@;
                    assert(atoms@[k]@ == atoms@[i as int]@);
                }
            }
        }
        out.insert(pos, atoms[i].clone());
        proof {
            assert(out@ == before.insert(pos as int, atoms@[i as int]));
            assert(name_seq(out@).to_set() =~= name_seq(before).to_set().insert(atoms@[i as int]@)) by {
                assert forall|x: Seq<char>| name_seq(out@).to_set().contains(x) <==> name_seq(before).to_set().insert(atoms@[i as int]@).contains(x) by {
                    if name_seq(out@).to_set().contains(x) {
                        let k = choose|k: int| 0 <= k < out@.len() && name_seq(out@)[k] == x;
                        if k < pos {
                            assert(name_seq(before)[k] == x);
                        } else if k > pos {
                            assert(name_seq(before)[k - 1] == x);
                        }
                    }
                    if name_seq(before).to_set().contains(x) {
                        let k = choose|k: int| 0 <= k < before.len() && name_seq(before)[k] == x;
                        if k < pos {
                            assert(name_seq(out@)[k] == x);
                        } else {
                            assert(name_seq(out@)[k + 1] == x);
                        }
                    }
                    if x == atoms@[i as int]@ {
                        assert(name_seq(out@)[pos as int] == x);
                    }
                }
            }
            assert(name_seq(atoms@.subrange(0, i + 1)).to_set() =~= name_seq(atoms@.subrange(0, i as int)).to_set().insert(atoms@[i as int]@)) by {
                let s0 = name_seq(atoms@.subrange(0, i as int));
                let s1 = name_seq(atoms@.subrange(0, i + 1));
                assert(s1 =~= s0.push(atoms@[i as int]@));
                assert forall|x: Seq<char>| s1.to_set().contains(x) <==> s0.to_set().insert(atoms@[i as int]@).contains(x) by {
                    if s1.to_set().contains(x) {
                        let k = choose|k: int| 0 <= k < s1.len() && s1[k] == x;
                        if k < i {
                            assert(s0[k] == x);
                        }
                    }
                    if s0.to_set().contains(x) {
                        let k = choose|k: int| 0 <= k < s0.len() && s0[k] == x;
                        assert(s1[k] == x);
                    }
                    if x == atoms@[i as int]@ {
                        assert(s1[i as int] == x);
                    }
                }
            }
            let x = atoms@[i as int]@;
            if pos < before.len() {
                assert(name_seq(before)[pos as int] == before[pos as int]@);
                assert(before[pos as int]@ != x);
                lemma_code_less_total(before[pos as int]@, x);
            }
            assert forall|a: int, b: int| 0 <= a < b < out@.len() implies code_less(out@[a]@, out@[b]@) by {
                if a == pos as int {
                    assert(out@[b] == before[b - 1]);
                    if b - 1 > pos {
                        lemma_code_less_trans(x, before[pos as int]@, before[b - 1]@);
                    }
                } else if b == pos as int {
                    assert(out@[a] == before[a]);
                } else {
                    let a2 = if a < pos { a } else { a - 1 };
                    let b2 = if b < pos { b } else { b - 1 };
                    assert(before[a2] == out@[a]);
                    assert(before[b2] == out@[b]);
                }
            }
            assert forall|a: int, b: int| 0 <= a < b < out@.len() implies out@[a]@ != out@[b]@ by {
                if a == pos as int {
                    assert(name_seq(before).contains(out@[b]@)) by {
                        assert(name_seq(before)[b - 1] == out@[b]@);
                    }
                } else if b == pos as int {
                    assert(name_seq(before)[a] == out@[a]@);
                } else {
                    let a2 = if a < pos { a } else { a - 1 };
                    let b2 = if b < pos { b } else { b - 1 };
                    assert(before[a2] == out@[a]);
                    assert(before[b2] == out@[b]);
                }
            }
        }
        i = i + 1;
    }
    proof {
        assert(atoms@.subrange(0, atoms@.len() as int) =~= atoms@);
        assert(name_seq(atoms@).to_set() =~= names(atoms@)) by {
            assert forall|x: Seq<char>| name_seq(atoms@).to_set().contains(x) <==> names(atoms@).contains(x) by {
                if names(atoms@).contains(x) {
                    let k = choose|k: int| 0 <= k < atoms@.len() && atoms@[k]@ == x;
                    assert(name_seq(atoms@)[k] == x);
                }
            }
        }
    }
    out
}

/// The dynamic truth table of a formula over its atoms in code-point order
/// (one variable at least); `None` when it has more than 20 atoms.
pub fn compute_truth_table_dynamic(formula: &Formula) -> (r: Option<DynTruthTable>)
    ensures
        r is None <==> atom_set(formula@).len() > 20,
        r matches Some(t) ==> t.wf() && exists|vars: Seq<Seq<char>>|
            enumerates(vars, formula@) && code_sorted(vars) && t.vars() == width(vars) && forall|q: nat|
                q < row_count(t.vars()) ==> #[trigger] t.row(q) == eval(
                    formula@,
                    row_env(vars, t.vars(), q),
                ),
{
    let vars = sorted_atoms(formula);
    proof {
        let w = name_seq(vars@);
        assert(w.no_duplicates()) by {
            assert forall|i: int, j: int| 0 <= i < w.len() && 0 <= j < w.len() && i != j implies w[i] != w[j] by {
                if i < j {
                    assert(w[i] != w[j]);
                } else {
                    assert(w[j] != w[i]);
                }
            }
        }
        w.unique_seq_to_set();
    }
    if vars.len() > MAX_VARS as usize {
        return None;
    }
    let num_vars: u8 = if vars.len() == 0 {
        1
    } else {
        vars.len() as u8
    };
    let t = eval_dyn(formula, &vars, num_vars);
    proof {
        let w = name_seq(vars@);
        assert(enumerates(w, formula@));
        assert(code_sorted(w));
        assert(w.len() == vars@.len());
        assert(t.vars() == width(w));
        assert(forall|q: nat|
            q < row_count(t.vars()) ==> #[trigger] t.row(q) == eval(formula@, row_env(w, t.vars(), q)));
    }
    Some(t)
}

/// Is every atom of the formula one of `P, Q, R, S, T`?
fn uses_standard_atoms(formula: &Formula) -> (r: bool)
    ensures
        r == atom_set(formula@).subset_of(standard_atoms()),
{
    let atoms = formula.atoms();
    let mut i: usize = 0;
    while i < atoms.len()
        invariant
            i <= atoms@.len(),
            names(atoms@) == atom_set(formula@),
            forall|j: int| 0 <= j < i ==> standard_atoms().contains(#[trigger] atoms@[j]@),
        decreases atoms@.len() - i,
    {
        let a = atoms[i].as_str();
        let ok = a.unicode_len() == 1 && {
            let c = a.get_char(0);
            c == 'P' || c == 'Q' || c == 'R' || c == 'S' || c == 'T'
        };
        proof {
            if a@.len() == 1 {
                assert(a@ =~= seq![a@[0]]);
            }
            assert(ok == standard_atoms().contains(a@));
        }
        if !ok {
            proof {
                assert(names(atoms@).contains(atoms@[i as int]@));
            }
            return false;
        }
        i = i + 1;
    }
    proof {
        assert forall|x: Seq<char>| atom_set(formula@).contains(x) implies standard_atoms().contains(x) by {
            assert(names(atoms@).contains(x));
            let k = choose|k: int| 0 <= k < atoms@.len() && atoms@[k]@ == x;
            assert(standard_atoms().contains(atoms@[k]@));
        }
    }
    true
}

/// True under every assignment, and within reach of the two-tier engine:
/// its atoms are among `P, Q, R, S, T`, or there are at most 20 of them.
pub open spec fn holds(f: FormulaView) -> bool {
    valid(f) && (atom_set(f).subset_of(standard_atoms()) || atom_set(f).len() <= 20)
}

/// What the two-tier check decides: over `P, Q, R, S, T` the 32-bit table
/// is all ones; otherwise every row of the dynamic table over some
/// enumeration of the atoms is true.
pub open spec fn tautology_by_engine(f: FormulaView) -> bool {
    if atom_set(f).subset_of(standard_atoms()) {
        tt32(f) == TAUTOLOGY
    } else {
        exists|vars: Seq<Seq<char>>| enumerates(vars, f) && vars.len() <= 20 && all_rows_true(f, vars)
    }
}

/// Is the formula a tautology? Uses the 32-bit table when its atoms are
/// among `P, Q, R, S, T`, the dynamic table otherwise (refusing formulas of
/// more than 20 atoms).
pub fn is_tautology_dynamic(formula: &Formula) -> (r: bool)
    ensures
        r == holds(formula@),
        r ==> tautology_by_engine(formula@),
        r ==> valid(formula@),
        atom_set(formula@).len() <= 20 ==> (r == valid(formula@)),
        atom_set(formula@).subset_of(standard_atoms()) ==> (r == (tt32(formula@) == TAUTOLOGY)),
{
    if uses_standard_atoms(formula) {
        let r = words_tautology(formula);
        proof {
            lemma_tt32_tautology(formula@);
            if r {
                law_engine_sound(formula@);
            } else {
                let k = choose|k: u32| k < 32 && !eval(formula@, env32(k));
                assert(!eval(formula@, env32(k)));
            }
        }
        r
    } else {
        match compute_truth_table_dynamic(formula) {
            Some(t) => {
                let r = t.is_tautology();
                proof {
                    let vars = choose|vars: Seq<Seq<char>>|
                        enumerates(vars, formula@) && t.vars() == width(vars) && forall|q: nat|
                            q < row_count(t.vars()) ==> #[trigger] t.row(q) == eval(
                                formula@,
                                row_env(vars, t.vars(), q),
                            );
                    assert(t.vars() == width(vars));
                    assert(r == all_rows_true(formula@, vars)) by {
                        if r {
                            assert forall|q: nat| q < row_count(width(vars)) implies #[trigger] eval(formula@, row_env(vars, width(vars), q)) by {
                                assert(t.row(q));
                            }
                        }
                        if !r {
                            let q = choose|q: nat| q < row_count(t.vars()) && !t.row(q);
                            assert(!eval(formula@, row_env(vars, width(vars), q)));
                        }
                    }
                    vars.unique_seq_to_set();
                    law_rows_mean_validity(formula@, vars);
                }
                r
            },
            None => false,
        }
    }
}


/// Bit `k` of a 32-bit word.
pub open spec fn bit32(x: u32, k: u32) -> bool {
    (x >> k) & 1u32 == 1u32
}

/// The assignment of row `k` of the 32-row table: each atom takes the bit
/// `k` of its fixed column.
pub open spec fn env32(k: u32) -> spec_fn(Seq<char>) -> bool {
    |name: Seq<char>| bit32(var_mask(name), k)
}

proof fn lemma_bits32(x: u32, y: u32, k: u32)
    by (bit_vector)
    requires
        k < 32,
    ensures
        bit32(!x, k) == !bit32(x, k),
        bit32(x & y, k) == (bit32(x, k) && bit32(y, k)),
        bit32(x | y, k) == (bit32(x, k) || bit32(y, k)),
        bit32(!(x ^ y), k) == (bit32(x, k) == bit32(y, k)),
        !bit32(0u32, k),
        bit32(0xFFFF_FFFFu32, k),
{
}

proof fn lemma_all_bits32(x: u32)
    by (bit_vector)
    requires
        bit32(x, 0u32),
        bit32(x, 1u32),
        bit32(x, 2u32),
        bit32(x, 3u32),
        bit32(x, 4u32),
        bit32(x, 5u32),
        bit32(x, 6u32),
        bit32(x, 7u32),
        bit32(x, 8u32),
        bit32(x, 9u32),
        bit32(x, 10u32),
        bit32(x, 11u32),
        bit32(x, 12u32),
        bit32(x, 13u32),
        bit32(x, 14u32),
        bit32(x, 15u32),
        bit32(x, 16u32),
        bit32(x, 17u32),
        bit32(x, 18u32),
        bit32(x, 19u32),
        bit32(x, 20u32),
        bit32(x, 21u32),
        bit32(x, 22u32),
        bit32(x, 23u32),
        bit32(x, 24u32),
        bit32(x, 25u32),
        bit32(x, 26u32),
        bit32(x, 27u32),
        bit32(x, 28u32),
        bit32(x, 29u32),
        bit32(x, 30u32),
        bit32(x, 31u32),
    ensures
        x == 0xFFFF_FFFFu32,
{
}

/// Bit `k` of the 32-row table of `f` is the value of `f` in row `k`.
pub proof fn lemma_tt32_row(f: FormulaView, k: u32)
    requires
        k < 32,
    ensures
        bit32(tt32(f), k) == eval(f, env32(k)),
    decreases f,
{
    match f {
        FormulaView::Atom(_) => {},
        FormulaView::Not(a) => {
            lemma_tt32_row(*a, k);
            lemma_bits32(tt32(*a), 0, k);
        },
        FormulaView::And(a, b) | FormulaView::Or(a, b) | FormulaView::Biconditional(a, b) => {
            lemma_tt32_row(*a, k);
            lemma_tt32_row(*b, k);
            lemma_bits32(tt32(*a), tt32(*b), k);
        },
        FormulaView::Implies(a, b) => {
            lemma_tt32_row(*a, k);
            lemma_tt32_row(*b, k);
            lemma_bits32(!tt32(*a), tt32(*b), k);
            lemma_bits32(tt32(*a), tt32(*b), k);
        },
        FormulaView::Contradiction => {
            lemma_bits32(0, 0, k);
        },
    }
}

/// The 32-row table is all ones exactly when every row makes `f` true.
pub proof fn lemma_tt32_tautology(f: FormulaView)
    ensures
        (tt32(f) == TAUTOLOGY) == (forall|k: u32| k < 32 ==> #[trigger] eval(f, env32(k))),
{
    if tt32(f) == TAUTOLOGY {
        assert forall|k: u32| k < 32 implies #[trigger] eval(f, env32(k)) by {
            lemma_tt32_row(f, k);
            lemma_bits32(0, 0, k);
        }
    }
    if forall|k: u32| k < 32 ==> #[trigger] eval(f, env32(k)) {
        assert forall|k: u32| k < 32 implies #[trigger] bit32(tt32(f), k) by {
            lemma_tt32_row(f, k);
        }
        lemma_all_bits32(tt32(f));
    }
}

/// The value of a formula depends only on the values of its atoms.
pub proof fn lemma_eval_local(f: FormulaView, e1: spec_fn(Seq<char>) -> bool, e2: spec_fn(Seq<char>) -> bool)
    requires
        forall|a: Seq<char>| #[trigger] atom_set(f).contains(a) ==> e1(a) == e2(a),
    ensures
        eval(f, e1) == eval(f, e2),
    decreases f,
{
    match f {
        FormulaView::Atom(s) => {
            assert(atom_set(f).contains(s));
        },
        FormulaView::Not(a) => {
            assert(atom_set(f) == atom_set(*a));
            lemma_eval_local(*a, e1, e2);
        },
        FormulaView::And(a, b) | FormulaView::Or(a, b) | FormulaView::Implies(a, b)
        | FormulaView::Biconditional(a, b) => {
            assert(atom_set(f) == atom_set(*a) + atom_set(*b));
            assert forall|x: Seq<char>| #[trigger] atom_set(*a).contains(x) implies e1(x) == e2(x) by {
                assert(atom_set(f).contains(x));
            }
            assert forall|x: Seq<char>| #[trigger] atom_set(*b).contains(x) implies e1(x) == e2(x) by {
                assert(atom_set(f).contains(x));
            }
            lemma_eval_local(*a, e1, e2);
            lemma_eval_local(*b, e1, e2);
        },
        FormulaView::Contradiction => {},
    }
}

proof fn lemma_word_row(p: u32, q: u32, r: u32, s: u32, t: u32, k: u32)
    by (bit_vector)
    requires
        p <= 1,
        q <= 1,
        r <= 1,
        s <= 1,
        t <= 1,
        k == p * 16 + q * 8 + r * 4 + s * 2 + t,
    ensures
        k < 32,
        bit32(0xFFFF_0000u32, k) == (p == 1),
        bit32(0xFF00_FF00u32, k) == (q == 1),
        bit32(0xF0F0_F0F0u32, k) == (r == 1),
        bit32(0xCCCC_CCCCu32, k) == (s == 1),
        bit32(0xAAAA_AAAAu32, k) == (t == 1),
{
}

/// Every assignment to `P, Q, R, S, T` is the assignment of some row of
/// the 32-row table.
pub proof fn lemma_row_for(env: spec_fn(Seq<char>) -> bool) -> (k: u32)
    ensures
        k < 32,
        forall|a: Seq<char>| standard_atoms().contains(a) ==> #[trigger] env32(k)(a) == env(a),
{
    let b = |x: bool| -> u32 { if x { 1u32 } else { 0u32 } };
    let p = b(env(seq!['P']));
    let q = b(env(seq!['Q']));
    let r = b(env(seq!['R']));
    let s = b(env(seq!['S']));
    let t = b(env(seq!['T']));
    let k = (p * 16 + q * 8 + r * 4 + s * 2 + t) as u32;
    lemma_word_row(p, q, r, s, t, k);
    assert forall|a: Seq<char>| standard_atoms().contains(a) implies #[trigger] env32(k)(a) == env(a) by {
        assert(seq!['P'] != seq!['Q']) by { assert(seq!['P'][0] != seq!['Q'][0]); }
        assert(seq!['P'] != seq!['R']) by { assert(seq!['P'][0] != seq!['R'][0]); }
        assert(seq!['P'] != seq!['S']) by { assert(seq!['P'][0] != seq!['S'][0]); }
        assert(seq!['P'] != seq!['T']) by { assert(seq!['P'][0] != seq!['T'][0]); }
        assert(seq!['Q'] != seq!['R']) by { assert(seq!['Q'][0] != seq!['R'][0]); }
        assert(seq!['Q'] != seq!['S']) by { assert(seq!['Q'][0] != seq!['S'][0]); }
        assert(seq!['Q'] != seq!['T']) by { assert(seq!['Q'][0] != seq!['T'][0]); }
        assert(seq!['R'] != seq!['S']) by { assert(seq!['R'][0] != seq!['S'][0]); }
        assert(seq!['R'] != seq!['T']) by { assert(seq!['R'][0] != seq!['T'][0]); }
        assert(seq!['S'] != seq!['T']) by { assert(seq!['S'][0] != seq!['T'][0]); }
    }
    k
}

/// Over `P, Q, R, S, T`, an all-ones 32-row table means every row of a
/// dynamic table over the formula's atoms is true.
pub proof fn law_words_tautology_gives_rows(f: FormulaView, vars: Seq<Seq<char>>)
    requires
        atom_set(f).subset_of(standard_atoms()),
        tt32(f) == TAUTOLOGY,
    ensures
        all_rows_true(f, vars),
{
    lemma_tt32_tautology(f);
    let n = width(vars);
    assert forall|q: nat| q < row_count(n) implies #[trigger] eval(f, row_env(vars, n, q)) by {
        let env = row_env(vars, n, q);
        let k = lemma_row_for(env);
        assert(eval(f, env32(k)));
        lemma_eval_local(f, env32(k), env);
    }
}


/// A row number whose bit `n - 1 - i` is clear exactly when `c(i)` holds,
/// for the first `m` variables.
pub open spec fn row_of_choice(c: spec_fn(int) -> bool, n: u8, m: int) -> u64
    decreases m,
{
    if m <= 0 {
        0u64
    } else {
        row_of_choice(c, n, m - 1) | if c(m - 1) {
            0u64
        } else {
            1u64 << ((n - 1 - (m - 1)) as u64)
        }
    }
}

proof fn lemma_or_bound(x: u64, b: u64, n: u64)
    by (bit_vector)
    requires
        n <= 20,
        b < n,
        x < (1u64 << n),
    ensures
        (x | (1u64 << b)) < (1u64 << n),
        (x | 0u64) == x,
{
}

proof fn lemma_low_bit(y: u64)
    by (bit_vector)
    ensures
        (y % 2 == 0) == (y & 1u64 == 0u64),
        y & 1u64 == 0u64 || y & 1u64 == 1u64,
{
}

proof fn lemma_column_bit(x: u64, j: u64)
    requires
        j < 20,
    ensures
        ((x as nat / ((1u64 << j) as nat)) % 2 == 0) == !bit(x, j),
{
    vstd::bits::lemma_u64_pow2_no_overflow(j as nat);
    vstd::bits::lemma_u64_shl_is_mul(1u64, j);
    vstd::bits::lemma_u64_shr_is_div(x, j);
    lemma_low_bit(x >> j);
    assert((1u64 << j) as nat == vstd::arithmetic::power2::pow2(j as nat));
    assert((x >> j) as nat == x as nat / ((1u64 << j) as nat));
}

proof fn lemma_row_of_choice(c: spec_fn(int) -> bool, n: u8, m: int)
    requires
        0 <= m <= n <= 20,
    ensures
        (row_of_choice(c, n, m) as nat) < row_count(n),
        forall|i: int| 0 <= i < m ==> #[trigger] bit(row_of_choice(c, n, m), (n - 1 - i) as u64) == !c(i),
        forall|j: u64| j < n - m ==> !#[trigger] bit(row_of_choice(c, n, m), j),
    decreases m,
{
    lemma_shift_bounds(n as u64);
    if m > 0 {
        lemma_row_of_choice(c, n, m - 1);
        let x = row_of_choice(c, n, m - 1);
        let b = (n - 1 - (m - 1)) as u64;
        lemma_or_bound(x, b, n as u64);
        assert forall|i: int| 0 <= i < m implies #[trigger] bit(row_of_choice(c, n, m), (n - 1 - i) as u64) == !c(i) by {
            if !c(m - 1) {
                lemma_set_bit(x, b, (n - 1 - i) as u64);
            } else {
                assert(row_of_choice(c, n, m) == x);
            }
        }
        assert forall|j: u64| j < n - m implies !#[trigger] bit(row_of_choice(c, n, m), j) by {
            if !c(m - 1) {
                lemma_set_bit(x, b, j);
            } else {
                assert(row_of_choice(c, n, m) == x);
            }
        }
    } else {
        assert forall|j: u64| j < n - m implies !#[trigger] bit(row_of_choice(c, n, m), j) by {
            lemma_bits(0u64, 0u64, j);
        }
    }
}

proof fn lemma_index_found(vars: Seq<Seq<char>>, a: Seq<char>, i: int)
    requires
        0 <= i <= vars.len(),
        exists|j: int| i <= j < vars.len() && vars[j] == a,
    ensures
        index_from(vars, a, i) matches Some(k) && k < vars.len() && vars[k as int] == a,
    decreases vars.len() - i,
{
    if vars[i] != a {
        lemma_index_found(vars, a, i + 1);
    }
}

/// Over `P, Q, R, S, T`, a dynamic table over the formula's atoms with every
/// row true means the 32-row table is all ones.
pub proof fn law_rows_give_words_tautology(f: FormulaView, vars: Seq<Seq<char>>)
    requires
        atom_set(f).subset_of(standard_atoms()),
        enumerates(vars, f),
        vars.len() <= 20,
        all_rows_true(f, vars),
    ensures
        tt32(f) == TAUTOLOGY,
{
    let n: u8 = width(vars);
    let m = vars.len() as int;
    assert forall|k: u32| k < 32 implies #[trigger] eval(f, env32(k)) by {
        let q = lemma_row_matching(f, vars, env32(k));
        assert(eval(f, row_env(vars, n, q)));
        lemma_eval_local(f, row_env(vars, n, q), env32(k));
    }
    lemma_tt32_tautology(f);
}

/// Over `P, Q, R, S, T` the two engines agree: the 32-row table is all ones
/// exactly when every row of a dynamic table over the formula's atoms (in
/// any order, at most 20 of them) is true.
pub proof fn law_two_tier_agree(f: FormulaView, vars: Seq<Seq<char>>)
    requires
        atom_set(f).subset_of(standard_atoms()),
        enumerates(vars, f),
        vars.len() <= 20,
    ensures
        (tt32(f) == TAUTOLOGY) == all_rows_true(f, vars),
{
    if tt32(f) == TAUTOLOGY {
        law_words_tautology_gives_rows(f, vars);
    }
    if all_rows_true(f, vars) {
        law_rows_give_words_tautology(f, vars);
    }
}


/// For any assignment there is a row of the table over `vars` whose
/// assignment agrees with it on the atoms of `f`.
pub proof fn lemma_row_matching(f: FormulaView, vars: Seq<Seq<char>>, env: spec_fn(Seq<char>) -> bool) -> (q: nat)
    requires
        enumerates(vars, f),
        vars.len() <= 20,
    ensures
        q < row_count(width(vars)),
        forall|a: Seq<char>| #[trigger] atom_set(f).contains(a) ==> row_env(vars, width(vars), q)(a) == env(a),
{
    let n = width(vars);
    let m = vars.len() as int;
    let c = |i: int| env(vars[i]);
    lemma_row_of_choice(c, n, m);
    let q = row_of_choice(c, n, m) as nat;
    assert forall|a: Seq<char>| #[trigger] atom_set(f).contains(a) implies row_env(vars, n, q)(a) == env(a) by {
        assert(vars.to_set().contains(a));
        let j = choose|j: int| 0 <= j < vars.len() && vars[j] == a;
        lemma_index_found(vars, a, 0);
        let i = index_from(vars, a, 0)->0 as int;
        assert(i == j) by {
            if i != j {
                assert(vars[i] != vars[j]);
            }
        }
        lemma_column_bit(q as u64, (n - 1 - i) as u64);
        assert(bit(q as u64, (n - 1 - i) as u64) == !c(i));
    }
    q
}

/// True under every assignment of its atoms.
pub open spec fn valid(f: FormulaView) -> bool {
    forall|env: spec_fn(Seq<char>) -> bool| #[trigger] eval(f, env)
}

/// Every row of a dynamic table over the formula's atoms (in any order, at
/// most 20 of them) is true exactly when the formula is true under every
/// assignment.
pub proof fn law_rows_mean_validity(f: FormulaView, vars: Seq<Seq<char>>)
    requires
        enumerates(vars, f),
        vars.len() <= 20,
    ensures
        all_rows_true(f, vars) == valid(f),
{
    if all_rows_true(f, vars) {
        assert forall|env: spec_fn(Seq<char>) -> bool| #[trigger] eval(f, env) by {
            let q = lemma_row_matching(f, vars, env);
            assert(eval(f, row_env(vars, width(vars), q)));
            lemma_eval_local(f, row_env(vars, width(vars), q), env);
        }
    }
}

/// Whatever the two-tier engine accepts is true under every assignment.
pub proof fn law_engine_sound(f: FormulaView)
    requires
        tautology_by_engine(f),
    ensures
        valid(f),
{
    if atom_set(f).subset_of(standard_atoms()) {
        lemma_tt32_tautology(f);
        assert forall|env: spec_fn(Seq<char>) -> bool| #[trigger] eval(f, env) by {
            let k = lemma_row_for(env);
            assert(eval(f, env32(k)));
            lemma_eval_local(f, env32(k), env);
        }
    } else {
        let vars = choose|vars: Seq<Seq<char>>| enumerates(vars, f) && vars.len() <= 20 && all_rows_true(f, vars);
        law_rows_mean_validity(f, vars);
    }
}

} // verus!
