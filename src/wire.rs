//! The proof wire format: justification strings such as `MP 1,2`, `DN 3` or
//! `CP 2-5`, and the replay of a submitted proof into a validation report.

use crate::checker::ProofVerifier;
use crate::deduction::{complete_spec, justification_text, lines_text, Justification, Proof};
use crate::formula::Formula;
use crate::parser::{chars_of, is_space, space};
use crate::rules::equivalence::{equivalence_abbreviation, EquivalenceRule};
use crate::rules::inference::{inference_abbreviation, InferenceRule};
use crate::rules::technique::{technique_abbreviation, ProofTechnique};
use crate::text::{decimal, digit_char, push_decimal, push_text, string_of};
use crate::theorem::{ascii_lower, Theorem};
use vstd::prelude::*;

verus! {

/// One submitted proof line, as read from the wire.
#[derive(Debug)]
pub struct ProofInput {
    pub line_number: usize,
    pub formula: String,
    pub justification: String,
    pub depth: usize,
}

/// The verdict on a submitted proof.
#[derive(Debug)]
pub struct ValidationReport {
    /// The proof is complete and no line drew an error.
    pub valid: bool,
    /// Lines beyond the premises.
    pub line_count: usize,
    pub errors: Vec<String>,
    /// The proof as replayed, each line carrying its verdict.
    pub proof: Proof,
}

/// The value of a string of decimal digits.
pub open spec fn digits_value(s: Seq<char>) -> nat
    decreases s.len(),
{
    if s.len() == 0 {
        0
    } else {
        (digits_value(s.drop_last()) * 10 + ((s.last() as int) - ('0' as int))) as nat
    }
}

/// An ASCII decimal digit.
pub open spec fn is_digit(c: char) -> bool {
    '0' <= c && c <= '9'
}

/// The number a piece of text denotes, as `usize::from_str` reads it: an
/// optional `+` and at least one digit, nothing else, and a value that fits.
pub open spec fn number_of(s: Seq<char>) -> Option<usize> {
    number_of_digits(unsigned_part(s))
}

/// The text without a leading `+`.
pub open spec fn unsigned_part(s: Seq<char>) -> Seq<char> {
    if s.len() > 0 && s[0] == '+' {
        s.drop_first()
    } else {
        s
    }
}

/// The number a non-empty string of digits denotes, if it fits.
pub open spec fn number_of_digits(d: Seq<char>) -> Option<usize> {
    if d.len() > 0 && (forall|i: int| 0 <= i < d.len() ==> is_digit(#[trigger] d[i])) && digits_value(
        d,
    ) <= usize::MAX {
        Some(digits_value(d) as usize)
    } else {
        None
    }
}

/// Reads `s[start..end]` as a number.
fn parse_number(s: &Vec<char>, start: usize, end: usize) -> (r: Option<usize>)
    requires
        start <= end <= s@.len(),
    ensures
        r == number_of(s@.subrange(start as int, end as int)),
{
    let ghost t = s@.subrange(start as int, end as int);
    let mut i = start;
    if i < end && s[i] == '+' {
        i = i + 1;
    }
    let ghost d = s@.subrange(i as int, end as int);
    proof {
        if t.len() > 0 && t[0] == '+' {
            assert(t.drop_first() =~= d);
        } else {
            assert(t =~= d);
        }
        assert(unsigned_part(t) == d);
    }
    if i == end {
        return None;
    }
    let mut k = i;
    while k < end
        invariant
            i <= k <= end <= s@.len(),
            d == s@.subrange(i as int, end as int),
            t == s@.subrange(start as int, end as int),
            number_of(t) == number_of_digits(d),
            forall|j: int| i <= j < k ==> is_digit(#[trigger] s@[j]),
        decreases end - k,
    {
        if !('0' <= s[k] && s[k] <= '9') {
            proof {
                assert(!is_digit(d[k - i]));
            }
            return None;
        }
        k = k + 1;
    }
    proof {
        assert forall|j: int| 0 <= j < d.len() implies is_digit(#[trigger] d[j]) by {
            assert(d[j] == s@[i + j]);
        }
    }
    let mut value: usize = 0;
    let mut k = i;
    while k < end
        invariant
            i <= k <= end <= s@.len(),
            d == s@.subrange(i as int, end as int),
            t == s@.subrange(start as int, end as int),
            d.len() > 0,
            number_of(t) == number_of_digits(d),
            forall|j: int| 0 <= j < d.len() ==> is_digit(#[trigger] d[j]),
            value == digits_value(s@.subrange(i as int, k as int)),
        decreases end - k,
    {
        let c = s[k];
        proof {
            assert(is_digit(d[k - i]));
        }
        let digit = (c as u32 - '0' as u32) as usize;
        proof {
            let p = s@.subrange(i as int, k + 1);
            assert(p.drop_last() =~= s@.subrange(i as int, k as int));
        }
        if value > (usize::MAX - digit) / 10 {
            proof {
                assert(value * 10 + digit > usize::MAX) by (nonlinear_arith)
                    requires
                        value > (usize::MAX - digit) / 10,
                        digit <= 9,
                ;
                lemma_digits_monotone(d, k + 1 - i);
                assert(d.subrange(0, k + 1 - i) =~= s@.subrange(i as int, k + 1));
            }
            return None;
        }
        value = value * 10 + digit;
        k = k + 1;
    }
    proof {
        assert(s@.subrange(i as int, k as int) =~= d);
    }
    Some(value)
}

/// A digit string is worth at least as much as any of its prefixes.
proof fn lemma_digits_monotone(d: Seq<char>, n: int)
    requires
        0 <= n <= d.len(),
        forall|j: int| 0 <= j < d.len() ==> is_digit(#[trigger] d[j]),
    ensures
        digits_value(d.subrange(0, n)) <= digits_value(d),
    decreases d.len(),
{
    if n < d.len() {
        assert(is_digit(d[d.len() - 1]));
        lemma_digits_monotone(d.drop_last(), n);
        assert(d.drop_last().subrange(0, n) =~= d.subrange(0, n));
    } else {
        assert(d.subrange(0, n) =~= d);
    }
}

/// Does `s[at..]` start with `word`, compared without ASCII case?
fn starts_with_ci(s: &Vec<char>, at: usize, end: usize, word: &str) -> (r: bool)
    requires
        at <= end <= s@.len(),
    ensures
        r == (at + word@.len() <= end && forall|j: int|
            0 <= j < word@.len() ==> ascii_lower(#[trigger] s@[at + j]) == ascii_lower(word@[j])),
{
    let n = word.unicode_len();
    if n > end - at {
        return false;
    }
    let mut j: usize = 0;
    while j < n
        invariant
            n == word@.len(),
            at + n <= end <= s@.len(),
            j <= n,
            forall|k: int| 0 <= k < j ==> ascii_lower(#[trigger] s@[at + k]) == ascii_lower(word@[k]),
        decreases n - j,
    {
        if lower(s[at + j]) != lower(word.get_char(j)) {
            return false;
        }
        j = j + 1;
    }
    true
}

fn lower(c: char) -> (r: char)
    ensures
        r == ascii_lower(c),
{
    if 'A' <= c && c <= 'Z' {
        ((c as u8) + 32) as char
    } else {
        c
    }
}

/// `s[a..b]` is `s[start..end]` without its leading and trailing white
/// space.
pub open spec fn trimmed(s: Seq<char>, start: int, end: int, a: int, b: int) -> bool {
    &&& start <= a <= b <= end
    &&& forall|i: int| start <= i < a ==> is_space(#[trigger] s[i])
    &&& forall|i: int| b <= i < end ==> is_space(#[trigger] s[i])
    &&& a < b ==> !is_space(s[a]) && !is_space(s[b - 1])
    &&& a == b ==> b == end
}

/// The trimmed bounds are unique.
proof fn lemma_trimmed_unique(s: Seq<char>, start: int, end: int, a: int, b: int, a2: int, b2: int)
    requires
        trimmed(s, start, end, a, b),
        trimmed(s, start, end, a2, b2),
    ensures
        a == a2 && b == b2,
{
    if a < a2 {
        if a < b {
            assert(is_space(s[a]));
        } else {
            assert(a2 <= end);
        }
    }
    if a2 < a {
        if a2 < b2 {
            assert(is_space(s[a2]));
        } else {
            assert(a <= end);
        }
    }
    if b < b2 {
        assert(is_space(s[b2 - 1]));
    }
    if b2 < b {
        assert(is_space(s[b - 1]));
    }
}

/// The first index from `i` on, before `end`, that is not white space
/// (`end` when there is none).
pub open spec fn trim_start(s: Seq<char>, i: int, end: int) -> int
    decreases end - i,
{
    if i >= end || !is_space(s[i]) {
        i
    } else {
        trim_start(s, i + 1, end)
    }
}

/// The end of `s[a..j]` without its trailing white space.
pub open spec fn trim_end(s: Seq<char>, a: int, j: int) -> int
    decreases j - a,
{
    if j <= a || !is_space(s[j - 1]) {
        j
    } else {
        trim_end(s, a, j - 1)
    }
}

/// A numeral is made of digits and reads back as its number.
proof fn lemma_decimal_number(n: nat)
    requires
        n <= usize::MAX,
    ensures
        decimal(n).len() >= 1,
        forall|i: int| 0 <= i < decimal(n).len() ==> is_digit(#[trigger] decimal(n)[i]),
        digits_value(decimal(n)) == n,
        number_of(decimal(n)) == Some(n as usize),
    decreases n,
{
    if n < 10 {
        assert(decimal(n) == seq![digit_char(n)]);
        assert(decimal(n).drop_last() =~= Seq::<char>::empty());
        assert((digit_char(n) as int) - ('0' as int) == n);
        assert(digits_value(Seq::<char>::empty()) == 0);
        assert(digits_value(decimal(n)) == (digits_value(decimal(n).drop_last()) * 10 + ((decimal(n).last() as int) - ('0' as int))) as nat);
    } else {
        lemma_decimal_number(n / 10);
        let p = decimal(n / 10);
        assert(decimal(n) == p.push(digit_char(n % 10)));
        assert(decimal(n).drop_last() =~= p);
        assert((digit_char(n % 10) as int) - ('0' as int) == n % 10);
        assert(digits_value(decimal(n)) == (digits_value(p) * 10 + ((decimal(n).last() as int) - ('0' as int))) as nat);
        assert(n == (n / 10) * 10 + n % 10);
        assert forall|i: int| 0 <= i < decimal(n).len() implies is_digit(#[trigger] decimal(n)[i]) by {
            if i < p.len() {
                assert(decimal(n)[i] == p[i]);
            }
        }
    }
    assert(is_digit(decimal(n)[0]));
    assert(unsigned_part(decimal(n)) == decimal(n));
    assert(number_of_digits(decimal(n)) == Some(n as usize));
}

/// The bounds of `s[start..end]` without leading and trailing white space.
fn trim_bounds(s: &Vec<char>, start: usize, end: usize) -> (r: (usize, usize))
    requires
        start <= end <= s@.len(),
    ensures
        trimmed(s@, start as int, end as int, r.0 as int, r.1 as int),
        r.0 == trim_start(s@, start as int, end as int),
        r.1 == trim_end(s@, r.0 as int, end as int),
{
    let mut a = start;
    while a < end && space(s[a])
        invariant
            start <= a <= end <= s@.len(),
            forall|i: int| start <= i < a ==> is_space(#[trigger] s@[i]),
            trim_start(s@, start as int, end as int) == trim_start(s@, a as int, end as int),
        decreases end - a,
    {
        a = a + 1;
    }
    let mut b = end;
    while b > a && space(s[b - 1])
        invariant
            a <= b <= end <= s@.len(),
            forall|i: int| b <= i < end ==> is_space(#[trigger] s@[i]),
            trim_end(s@, a as int, end as int) == trim_end(s@, a as int, b as int),
        decreases b,
    {
        b = b - 1;
    }
    (a, b)
}

/// The text `s[start..end]` as a string.
fn text_of(s: &Vec<char>, text: &str, start: usize, end: usize) -> (r: String)
    requires
        s@ == text@,
        start <= end <= s@.len(),
    ensures
        r@ == text@.subrange(start as int, end as int),
{
    string_of(text.substring_char(start, end))
}

/// After a rule abbreviation: the rest must be empty or begin with white
/// space or a digit.
fn boundary_ok(s: &Vec<char>, at: usize, end: usize) -> (r: bool)
    requires
        at <= end <= s@.len(),
    ensures
        r == (at == end || is_space(s@[at as int]) || is_digit(s@[at as int])),
{
    at == end || space(s[at]) || ('0' <= s[at] && s[at] <= '9')
}

/// `s[a..b]` starts with `w`, compared without ASCII case.
pub open spec fn ci_prefix(s: Seq<char>, a: int, b: int, w: Seq<char>) -> bool {
    &&& a + w.len() <= b
    &&& forall|j: int| 0 <= j < w.len() ==> ascii_lower(#[trigger] s[a + j]) == ascii_lower(w[j])
}

/// `s[a..b]` starts with `w`, compared without ASCII case, followed by its
/// end, white space or a digit.
pub open spec fn abbrev_at(s: Seq<char>, a: int, b: int, w: Seq<char>) -> bool {
    &&& ci_prefix(s, a, b, w)
    &&& (a + w.len() == b || is_space(s[a + w.len()]) || is_digit(s[a + w.len()]))
}

/// Matches `abbrev` at the start of `s[start..end]`, case-insensitively,
/// followed by a boundary; returns where the rest begins.
fn strip_prefix_ci(s: &Vec<char>, start: usize, end: usize, abbrev: &str) -> (r: Option<usize>)
    requires
        start <= end <= s@.len(),
    ensures
        r is Some <==> abbrev_at(s@, start as int, end as int, abbrev@),
        r matches Some(k) ==> start <= k <= end && k == start + abbrev@.len(),
{
    if starts_with_ci(s, start, end, abbrev) {
        let k = start + abbrev.unicode_len();
        if boundary_ok(s, k, end) {
            return Some(k);
        }
    }
    None
}

/// How many `-` stand in `s[c..k]`.
pub open spec fn dashes(s: Seq<char>, c: int, k: int) -> nat
    decreases k - c,
{
    if k <= c {
        0
    } else {
        dashes(s, c, k - 1) + if s[k - 1] == '-' {
            1nat
        } else {
            0nat
        }
    }
}

/// The first `-` in `s[i..d]` (`d` when there is none).
pub open spec fn first_dash(s: Seq<char>, i: int, d: int) -> int
    decreases d - i,
{
    if i >= d || s[i] == '-' {
        i
    } else {
        first_dash(s, i + 1, d)
    }
}

/// The number that `s[c..d]` denotes once trimmed.
pub open spec fn trimmed_number(s: Seq<char>, c: int, d: int) -> Option<usize> {
    let x = trim_start(s, c, d);
    number_of(s.subrange(x, trim_end(s, x, d)))
}

/// `a-b`: exactly one `-`, a number on each side.
pub open spec fn range_of(s: Seq<char>, c: int, d: int) -> Option<(usize, usize)> {
    if dashes(s, c, d) != 1 {
        None
    } else {
        let k = first_dash(s, c, d);
        match (trimmed_number(s, c, k), trimmed_number(s, k + 1, d)) {
            (Some(x), Some(y)) => Some((x, y)),
            _ => None,
        }
    }
}

proof fn lemma_first_dash(s: Seq<char>, c: int, d: int)
    requires
        c <= d,
    ensures
        c <= first_dash(s, c, d) <= d,
        dashes(s, c, d) > 0 ==> first_dash(s, c, d) < d,
        forall|i: int| c <= i < first_dash(s, c, d) ==> s[i] != '-',
        first_dash(s, c, d) < d ==> s[first_dash(s, c, d)] == '-',
    decreases d - c,
{
    if c < d && s[c] != '-' {
        lemma_first_dash(s, c + 1, d);
        lemma_dashes_split(s, c, d);
    }
}

proof fn lemma_dashes_split(s: Seq<char>, c: int, d: int)
    requires
        c < d,
    ensures
        dashes(s, c, d) == (if s[c] == '-' { 1nat } else { 0nat }) + dashes(s, c + 1, d),
    decreases d - c,
{
    if d - 1 > c {
        lemma_dashes_split(s, c, d - 1);
        assert(dashes(s, c + 1, d) == dashes(s, c + 1, d - 1) + if s[d - 1] == '-' { 1nat } else { 0nat });
    } else {
        assert(dashes(s, c + 1, d) == 0);
        assert(dashes(s, c, d) == dashes(s, c, c) + if s[c] == '-' { 1nat } else { 0nat });
    }
}

/// Reads `a-b`, each side a number (white space around them allowed).
fn parse_line_range(s: &Vec<char>, start: usize, end: usize) -> (r: Option<(usize, usize)>)
    requires
        start <= end <= s@.len(),
    ensures
        r == range_of(s@, start as int, end as int),
{
    let mut dash = start;
    let mut count: usize = 0;
    let mut k = start;
    proof {
        lemma_first_dash(s@, start as int, end as int);
    }
    while k < end
        invariant
            start <= k <= end <= s@.len(),
            start <= dash <= end,
            count == dashes(s@, start as int, k as int),
            count <= k - start,
            count > 0 ==> dash == first_dash(s@, start as int, end as int),
            count == 0 ==> forall|i: int| start <= i < k ==> s@[i] != '-',
            start <= first_dash(s@, start as int, end as int) <= end,
            forall|i: int| start <= i < first_dash(s@, start as int, end as int) ==> s@[i] != '-',
            first_dash(s@, start as int, end as int) < end ==> s@[first_dash(s@, start as int, end as int)] == '-',
        decreases end - k,
    {
        if s[k] == '-' {
            if count == 0 {
                dash = k;
            }
            count = count + 1;
        }
        k = k + 1;
    }
    if count != 1 || dash >= end {
        return None;
    }
    let (a0, a1) = trim_bounds(s, start, dash);
    let (b0, b1) = trim_bounds(s, dash + 1, end);
    match (parse_number(s, a0, a1), parse_number(s, b0, b1)) {
        (Some(a), Some(b)) => Some((a, b)),
        _ => None,
    }
}

/// A separator between cited line numbers.
pub open spec fn is_sep(c: char) -> bool {
    c == ',' || is_space(c)
}

/// The line numbers in `s[k..d]`, separated by commas or white space;
/// `piece` is where the number being read began (negative between
/// numbers). `None` when a piece is not a number.
pub open spec fn numbers_from(s: Seq<char>, k: int, d: int, piece: int) -> Option<Seq<usize>>
    decreases d - k,
{
    if k >= d {
        if piece < 0 {
            Some(Seq::empty())
        } else {
            match number_of(s.subrange(piece, d)) {
                Some(n) => Some(seq![n]),
                None => None,
            }
        }
    } else if is_sep(s[k]) {
        if piece < 0 {
            numbers_from(s, k + 1, d, -1)
        } else {
            match number_of(s.subrange(piece, k)) {
                Some(n) => match numbers_from(s, k + 1, d, -1) {
                    Some(rest) => Some(seq![n] + rest),
                    None => None,
                },
                None => None,
            }
        }
    } else {
        numbers_from(s, k + 1, d, if piece < 0 {
            k
        } else {
            piece
        })
    }
}

/// `done` followed by what `rest` holds, if anything.
pub open spec fn after(done: Seq<usize>, rest: Option<Seq<usize>>) -> Option<Seq<usize>> {
    match rest {
        Some(r) => Some(done + r),
        None => None,
    }
}

/// Reads line numbers separated by commas or white space.
fn parse_line_numbers(s: &Vec<char>, text: &str, start: usize, end: usize) -> (r: Result<Vec<usize>, String>)
    requires
        s@ == text@,
        start <= end <= s@.len(),
    ensures
        match numbers_from(s@, start as int, end as int, -1) {
            Some(ls) => r matches Ok(v) && v@ == ls,
            None => r is Err,
        },
{
    let mut out: Vec<usize> = Vec::new();
    let mut k = start;
    while k < end
        invariant
            s@ == text@,
            start <= k <= end <= s@.len(),
            numbers_from(s@, start as int, end as int, -1) == after(out@, numbers_from(s@, k as int, end as int, -1)),
        decreases end - k,
    {
        if s[k] == ',' || space(s[k]) {
            k = k + 1;
        } else {
            let piece_start = k;
            while k < end && !(s[k] == ',' || space(s[k]))
                invariant
                    piece_start < end,
                    piece_start <= k <= end <= s@.len(),
                    k > piece_start ==> numbers_from(s@, piece_start as int, end as int, -1)
                        == numbers_from(s@, k as int, end as int, piece_start as int),
                    !is_sep(s@[piece_start as int]),
                decreases end - k,
            {
                k = k + 1;
            }
            proof {
                assert(k > piece_start);
                if k < end {
                    assert(is_sep(s@[k as int]));
                }
            }
            match parse_number(s, piece_start, k) {
                Some(n) => {
                    let ghost before = out@;
                    out.push(n);
                    proof {
                        assert(out@ == before + seq![n]);
                        let rest = numbers_from(s@, k as int, end as int, -1);
                        if k < end {
                            assert(numbers_from(s@, k as int, end as int, -1) == numbers_from(s@, k + 1, end as int, -1));
                        }
                        match rest {
                            Some(r) => {
                                assert(before + (seq![n] + r) =~= out@ + r);
                            },
                            None => {},
                        }
                    }
                },
                None => {
                    let mut message = string_of("Invalid line number: '");
                    let piece = text_of(s, text, piece_start, k);
                    push_text(&mut message, piece.as_str());
                    push_text(&mut message, "'");
                    return Err(message);
                },
            }
        }
    }
    proof {
        assert(out@ + Seq::<usize>::empty() =~= out@);
    }
    Ok(out)
}

/// `s[a..b]` holds `I` followed by `P`, ignoring ASCII case.
pub open spec fn has_ip(s: Seq<char>, a: int, b: int) -> bool {
    exists|k: int| a <= k && k + 1 < b && ascii_lower(s[k]) == 'i' && ascii_lower(#[trigger] s[k + 1]) == 'p'
}

/// Does `s[start..end]` contain `I` followed by `P`, ignoring ASCII case?
fn mentions_ip(s: &Vec<char>, start: usize, end: usize) -> (r: bool)
    requires
        start <= end <= s@.len(),
    ensures
        r == has_ip(s@, start as int, end as int),
{
    let mut k = start;
    while k < end && k + 1 < end
        invariant
            start <= k <= end <= s@.len(),
            forall|m: int| start <= m < k && m + 1 < end ==> !(ascii_lower(s@[m]) == 'i' && ascii_lower(#[trigger] s@[m + 1]) == 'p'),
        decreases end - k,
    {
        if lower(s[k]) == 'i' && lower(s[k + 1]) == 'p' {
            return true;
        }
        k = k + 1;
    }
    false
}

proof fn lemma_run(s: Seq<char>, k: int, e: int, d: int, p: int)
    requires
        0 <= p <= k <= e <= d <= s.len(),
        forall|i: int| k <= i < e ==> !is_sep(#[trigger] s[i]),
    ensures
        numbers_from(s, k, d, p) == numbers_from(s, e, d, p),
    decreases e - k,
{
    if k < e {
        lemma_run(s, k + 1, e, d, p);
    }
}

/// `lines_text` read from the front.
proof fn lemma_lines_front(ls: Seq<usize>)
    requires
        ls.len() >= 1,
    ensures
        lines_text(ls) == if ls.len() == 1 {
            decimal(ls[0] as nat)
        } else {
            decimal(ls[0] as nat) + ", "@ + lines_text(ls.drop_first())
        },
    decreases ls.len(),
{
    if ls.len() == 2 {
        assert(ls.drop_last() =~= seq![ls[0]]);
        assert(ls.drop_first() =~= seq![ls[1]]);
        assert(lines_text(ls.drop_last()) == decimal(ls[0] as nat));
        assert(lines_text(ls.drop_first()) == decimal(ls[1] as nat));
    } else if ls.len() > 2 {
        let dl = ls.drop_last();
        let df = ls.drop_first();
        lemma_lines_front(dl);
        assert(dl.drop_first() =~= df.drop_last());
        assert(dl[0] == ls[0]);
        assert(df.last() == ls.last());
        assert(lines_text(df) == lines_text(df.drop_last()) + ", "@ + decimal(df.last() as nat));
        assert(lines_text(ls) == lines_text(dl) + ", "@ + decimal(ls.last() as nat));
        assert(lines_text(ls) =~= decimal(ls[0] as nat) + ", "@ + lines_text(df));
    }
}

/// Line numbers written out read back as the same numbers.
proof fn lemma_lines_read_back(s: Seq<char>, k: int, d: int, ls: Seq<usize>)
    requires
        ls.len() >= 1,
        0 <= k <= d <= s.len(),
        s.subrange(k, d) == lines_text(ls),
    ensures
        numbers_from(s, k, d, -1) == Some(ls),
    decreases ls.len(),
{
    reveal_strlit(", ");
    lemma_lines_front(ls);
    let n = ls[0] as nat;
    lemma_decimal_number(n);
    let e = k + decimal(n).len();
    assert(s.subrange(k, d).subrange(0, decimal(n).len() as int) == decimal(n));
    assert forall|i: int| k <= i < e implies !is_sep(#[trigger] s[i]) by {
        assert(s[i] == s.subrange(k, d)[i - k]);
        assert(is_digit(decimal(n)[i - k]));
    }
    assert(s.subrange(k, e) =~= decimal(n));
    assert(!is_sep(s[k]));
    lemma_run(s, k + 1, e, d, k);
    if ls.len() == 1 {
        assert(e == d);
        assert(Seq::<usize>::empty().push(ls[0]) =~= ls);
        assert(seq![ls[0]] =~= ls);
    } else {
        let rest = ls.drop_first();
        assert(lines_text(ls) == decimal(n) + ", "@ + lines_text(rest));
        assert(lines_text(ls)[e - k] == ',');
        assert(lines_text(ls)[e + 1 - k] == ' ');
        assert(s[e] == s.subrange(k, d)[e - k]);
        assert(s[e] == ',');
        assert(s[e + 1] == s.subrange(k, d)[e + 1 - k]);
        assert(s[e + 1] == ' ');
        assert(s.subrange(e + 2, d) =~= lines_text(rest)) by {
            assert forall|i: int| 0 <= i < d - (e + 2) implies s.subrange(e + 2, d)[i] == lines_text(rest)[i] by {
                assert(s.subrange(e + 2, d)[i] == s.subrange(k, d)[i + e + 2 - k]);
                assert(lines_text(ls)[i + e + 2 - k] == lines_text(rest)[i]);
            }
        }
        lemma_lines_read_back(s, e + 2, d, rest);
        assert(numbers_from(s, e + 1, d, -1) == numbers_from(s, e + 2, d, -1));
        assert(seq![ls[0]] + rest =~= ls);
    }
}

proof fn lemma_dashes_concat(s: Seq<char>, c: int, m: int, d: int)
    requires
        c <= m <= d,
    ensures
        dashes(s, c, d) == dashes(s, c, m) + dashes(s, m, d),
    decreases d - m,
{
    if d > m {
        lemma_dashes_concat(s, c, m, d - 1);
    }
}

proof fn lemma_no_dashes(s: Seq<char>, c: int, m: int)
    requires
        c <= m,
        forall|i: int| c <= i < m ==> s[i] != '-',
    ensures
        dashes(s, c, m) == 0,
        first_dash(s, c, m) == m,
    decreases m - c,
{
    if m > c {
        lemma_no_dashes(s, c, m - 1);
        lemma_no_dashes_front(s, c, m);
    }
}

proof fn lemma_no_dashes_front(s: Seq<char>, c: int, m: int)
    requires
        c <= m,
        forall|i: int| c <= i < m ==> s[i] != '-',
    ensures
        first_dash(s, c, m) == m,
    decreases m - c,
{
    if m > c {
        lemma_no_dashes_front(s, c + 1, m);
    }
}

proof fn lemma_first_dash_at(s: Seq<char>, c: int, k: int, d: int)
    requires
        c <= k < d,
        s[k] == '-',
        forall|i: int| c <= i < k ==> s[i] != '-',
    ensures
        first_dash(s, c, d) == k,
    decreases k - c,
{
    if c < k {
        lemma_first_dash_at(s, c + 1, k, d);
    }
}

/// A numeral standing alone between `c` and `d` reads back as its number
/// once trimmed.
proof fn lemma_numeral_at(s: Seq<char>, c: int, d: int, n: nat)
    requires
        n <= usize::MAX,
        0 <= c <= d <= s.len(),
        s.subrange(c, d) == decimal(n),
    ensures
        trim_start(s, c, d) == c,
        trim_end(s, c, d) == d,
        trimmed_number(s, c, d) == Some(n as usize),
        forall|i: int| c <= i < d ==> is_digit(#[trigger] s[i]) && s[i] != '-',
{
    lemma_decimal_number(n);
    assert forall|i: int| c <= i < d implies is_digit(#[trigger] s[i]) && s[i] != '-' by {
        assert(s[i] == s.subrange(c, d)[i - c]);
    }
    assert(is_digit(s[c]));
    assert(is_digit(s[d - 1]));
}

/// `x-y` written out reads back as the range.
proof fn lemma_range_read_back(s: Seq<char>, c: int, d: int, x: usize, y: usize)
    requires
        0 <= c <= d <= s.len(),
        s.subrange(c, d) == decimal(x as nat) + "-"@ + decimal(y as nat),
    ensures
        range_of(s, c, d) == Some((x, y)),
{
    reveal_strlit("-");
    let k = c + decimal(x as nat).len();
    lemma_decimal_number(x as nat);
    lemma_decimal_number(y as nat);
    assert(s.subrange(c, d).len() == d - c);
    assert(d - c == decimal(x as nat).len() + 1 + decimal(y as nat).len());
    assert(s.subrange(c, k) =~= decimal(x as nat)) by {
        assert forall|i: int| 0 <= i < k - c implies s.subrange(c, k)[i] == decimal(x as nat)[i] by {
            assert(s.subrange(c, k)[i] == s[c + i]);
            assert(s.subrange(c, d)[i] == s[c + i]);
            assert((decimal(x as nat) + "-"@ + decimal(y as nat))[i] == decimal(x as nat)[i]);
        }
    }
    assert(s[k] == s.subrange(c, d)[k - c]);
    assert((decimal(x as nat) + "-"@ + decimal(y as nat))[k - c] == '-');
    assert(s[k] == '-');
    assert(s.subrange(k + 1, d) =~= decimal(y as nat)) by {
        assert forall|i: int| 0 <= i < d - (k + 1) implies s.subrange(k + 1, d)[i] == decimal(y as nat)[i] by {
            assert(s.subrange(k + 1, d)[i] == s[k + 1 + i]);
            assert(s.subrange(c, d)[i + k + 1 - c] == s[k + 1 + i]);
            assert((decimal(x as nat) + "-"@ + decimal(y as nat))[i + k + 1 - c] == decimal(y as nat)[i]);
        }
    }
    lemma_numeral_at(s, c, k, x as nat);
    lemma_numeral_at(s, k + 1, d, y as nat);
    lemma_no_dashes(s, c, k);
    lemma_no_dashes(s, k + 1, d);
    lemma_dashes_concat(s, c, k, d);
    lemma_dashes_concat(s, k, k + 1, d);
    assert(dashes(s, k, k) == 0);
    assert(dashes(s, k, k + 1) == dashes(s, k, k) + 1);
    lemma_first_dash_at(s, c, k, d);
}

/// The inference rules with their abbreviations, in the order they are tried.
pub open spec fn inference_table() -> Seq<(Seq<char>, InferenceRule)> {
    seq![
        ("MP"@, InferenceRule::ModusPonens),
        ("MT"@, InferenceRule::ModusTollens),
        ("DS"@, InferenceRule::DisjunctiveSyllogism),
        ("HS"@, InferenceRule::HypotheticalSyllogism),
        ("Simp"@, InferenceRule::Simplification),
        ("Conj"@, InferenceRule::Conjunction),
        ("Add"@, InferenceRule::Addition),
        ("CD"@, InferenceRule::ConstructiveDilemma),
        ("NegE"@, InferenceRule::Contradiction),
    ]
}

/// The equivalence rules with their abbreviations, in the order they are tried.
pub open spec fn equivalence_table() -> Seq<(Seq<char>, EquivalenceRule)> {
    seq![
        ("DN"@, EquivalenceRule::DoubleNegation),
        ("DeM"@, EquivalenceRule::DeMorgan),
        ("Comm"@, EquivalenceRule::Commutation),
        ("Assoc"@, EquivalenceRule::Association),
        ("Dist"@, EquivalenceRule::Distribution),
        ("Contra"@, EquivalenceRule::Contraposition),
        ("Impl"@, EquivalenceRule::Implication),
        ("Exp"@, EquivalenceRule::Exportation),
        ("Taut"@, EquivalenceRule::Tautology),
        ("Equiv"@, EquivalenceRule::Equivalence),
    ]
}

/// The first entry of `t`, from `i` on, whose abbreviation begins `s[a..b]`.
pub open spec fn first_match<R>(s: Seq<char>, a: int, b: int, t: Seq<(Seq<char>, R)>, i: int) -> Option<int>
    decreases t.len() - i,
{
    if i < 0 || i >= t.len() {
        None
    } else if abbrev_at(s, a, b, t[i].0) {
        Some(i)
    } else {
        first_match(s, a, b, t, i + 1)
    }
}

fn inference_rules() -> (r: Vec<(&'static str, InferenceRule)>)
    ensures
        r@.len() == inference_table().len(),
        forall|k: int| 0 <= k < r@.len() ==> (#[trigger] r@[k]).0@ == inference_table()[k].0 && r@[k].1 == inference_table()[k].1,
{
    let r = vec![
        ("MP", InferenceRule::ModusPonens),
        ("MT", InferenceRule::ModusTollens),
        ("DS", InferenceRule::DisjunctiveSyllogism),
        ("HS", InferenceRule::HypotheticalSyllogism),
        ("Simp", InferenceRule::Simplification),
        ("Conj", InferenceRule::Conjunction),
        ("Add", InferenceRule::Addition),
        ("CD", InferenceRule::ConstructiveDilemma),
        ("NegE", InferenceRule::Contradiction),
    ];
    r
}

fn equivalence_rules() -> (r: Vec<(&'static str, EquivalenceRule)>)
    ensures
        r@.len() == equivalence_table().len(),
        forall|k: int| 0 <= k < r@.len() ==> (#[trigger] r@[k]).0@ == equivalence_table()[k].0 && r@[k].1 == equivalence_table()[k].1,
{
    let r = vec![
        ("DN", EquivalenceRule::DoubleNegation),
        ("DeM", EquivalenceRule::DeMorgan),
        ("Comm", EquivalenceRule::Commutation),
        ("Assoc", EquivalenceRule::Association),
        ("Dist", EquivalenceRule::Distribution),
        ("Contra", EquivalenceRule::Contraposition),
        ("Impl", EquivalenceRule::Implication),
        ("Exp", EquivalenceRule::Exportation),
        ("Taut", EquivalenceRule::Tautology),
        ("Equiv", EquivalenceRule::Equivalence),
    ];
    r
}

/// What a justification string means.
pub enum JustificationView {
    Premise,
    Assumption(ProofTechnique),
    Inference(InferenceRule, Seq<usize>),
    Equivalence(EquivalenceRule, usize),
    SubproofConclusion(ProofTechnique, usize, usize),
    /// The text has none of the shapes above.
    Malformed,
}

/// The meaning of a justification value.
pub open spec fn justification_view(j: Justification) -> JustificationView {
    match j {
        Justification::Premise => JustificationView::Premise,
        Justification::Assumption { technique } => JustificationView::Assumption(technique),
        Justification::Inference { rule, lines } => JustificationView::Inference(rule, lines@),
        Justification::Equivalence { rule, line } => JustificationView::Equivalence(rule, line),
        Justification::SubproofConclusion { technique, subproof_start, subproof_end } => {
            JustificationView::SubproofConclusion(technique, subproof_start, subproof_end)
        },
    }
}

/// A subproof conclusion `T a-b` for the technique abbreviation `w`, once
/// the text is trimmed to `s[a..b]`.
pub open spec fn range_after(s: Seq<char>, a: int, b: int, w: Seq<char>) -> Option<(usize, usize)> {
    if abbrev_at(s, a, b, w) {
        let c = trim_start(s, a + w.len(), b);
        range_of(s, c, trim_end(s, c, b))
    } else {
        None
    }
}

/// The meaning of the justification string `s`:
/// - `Premise` or `Pr`;
/// - anything starting `assume` (so `Assumption`), for indirect proof when
///   `IP` occurs in it, else conditional proof;
/// - `CP a-b` or `IP a-b`;
/// - an inference abbreviation then line numbers separated by commas or
///   white space;
/// - an equivalence abbreviation then one line number.
/// Abbreviations are compared without ASCII case and must be followed by
/// the end, white space or a digit; the first rule in table order that
/// fits is taken.
pub open spec fn justification_of(s: Seq<char>) -> JustificationView {
    let a = trim_start(s, 0, s.len() as int);
    let b = trim_end(s, a, s.len() as int);
    if (b - a == 7 && ci_prefix(s, a, b, "premise"@)) || (b - a == 2 && ci_prefix(s, a, b, "pr"@)) {
        JustificationView::Premise
    } else if ci_prefix(s, a, b, "assumption"@) || ci_prefix(s, a, b, "assume"@) {
        JustificationView::Assumption(
            if has_ip(s, a, b) {
                ProofTechnique::IndirectProof
            } else {
                ProofTechnique::ConditionalProof
            },
        )
    } else if range_after(s, a, b, "CP"@) is Some {
        match range_after(s, a, b, "CP"@) {
            Some((x, y)) => JustificationView::SubproofConclusion(ProofTechnique::ConditionalProof, x, y),
            None => JustificationView::Malformed,
        }
    } else if range_after(s, a, b, "IP"@) is Some {
        match range_after(s, a, b, "IP"@) {
            Some((x, y)) => JustificationView::SubproofConclusion(ProofTechnique::IndirectProof, x, y),
            None => JustificationView::Malformed,
        }
    } else {
        match first_match(s, a, b, inference_table(), 0) {
            Some(i) => {
                let c = trim_start(s, a + inference_table()[i].0.len(), b);
                let d = trim_end(s, c, b);
                if c == d {
                    JustificationView::Malformed
                } else {
                    match numbers_from(s, c, d, -1) {
                        Some(ls) => JustificationView::Inference(inference_table()[i].1, ls),
                        None => JustificationView::Malformed,
                    }
                }
            },
            None => match first_match(s, a, b, equivalence_table(), 0) {
                Some(i) => {
                    let c = trim_start(s, a + equivalence_table()[i].0.len(), b);
                    let d = trim_end(s, c, b);
                    if c == d {
                        JustificationView::Malformed
                    } else {
                        match number_of(s.subrange(c, d)) {
                            Some(n) => JustificationView::Equivalence(equivalence_table()[i].1, n),
                            None => JustificationView::Malformed,
                        }
                    }
                },
                None => JustificationView::Malformed,
            },
        }
    }
}

proof fn lemma_reveal_words()
    ensures
        "premise"@ =~= seq!['p', 'r', 'e', 'm', 'i', 's', 'e'],
        "pr"@ =~= seq!['p', 'r'],
        "assume"@ =~= seq!['a', 's', 's', 'u', 'm', 'e'],
        "assumption"@ =~= seq!['a', 's', 's', 'u', 'm', 'p', 't', 'i', 'o', 'n'],
        "CP"@ =~= seq!['C', 'P'],
        "IP"@ =~= seq!['I', 'P'],
        " "@ =~= seq![' '],
{
    reveal_strlit("premise");
    reveal_strlit("pr");
    reveal_strlit("assume");
    reveal_strlit("assumption");
    reveal_strlit("CP");
    reveal_strlit("IP");
    reveal_strlit(" ");
}

/// The text `w` then a space then `rest`, where `w` is a word and `rest`
/// starts and ends with a digit: trimming keeps it whole, and the part
/// after the word trims to `rest`.
proof fn lemma_word_then_rest(t: Seq<char>, w: Seq<char>, rest: Seq<char>)
    requires
        t == w + " "@ + rest,
        w.len() >= 2,
        !is_space(w[0]),
        rest.len() >= 1,
        is_digit(rest[0]),
        is_digit(rest.last()),
    ensures
        trim_start(t, 0, t.len() as int) == 0,
        trim_end(t, 0, t.len() as int) == t.len(),
        trim_start(t, w.len() as int, t.len() as int) == (w.len() + 1) as int,
        trim_end(t, (w.len() + 1) as int, t.len() as int) == t.len(),
        t.subrange((w.len() + 1) as int, t.len() as int) == rest,
        forall|i: int| 0 <= i < w.len() ==> t[i] == w[i],
        t[w.len() as int] == ' ',
        is_digit(t[(w.len() + 1) as int]),
{
    reveal_strlit(" ");
    assert(t[0] == w[0]);
    assert(t[t.len() - 1] == rest.last());
    assert(t[w.len() as int] == ' ');
    assert(t[(w.len() + 1) as int] == rest[0]);
    assert(trim_start(t, w.len() as int, t.len() as int) == trim_start(t, (w.len() + 1) as int, t.len() as int));
    assert(t.subrange((w.len() + 1) as int, t.len() as int) =~= rest);
}

proof fn lemma_reveal_abbreviations()
    ensures
        "MP"@ =~= seq!['M', 'P'],
        "MT"@ =~= seq!['M', 'T'],
        "DS"@ =~= seq!['D', 'S'],
        "HS"@ =~= seq!['H', 'S'],
        "Simp"@ =~= seq!['S', 'i', 'm', 'p'],
        "Conj"@ =~= seq!['C', 'o', 'n', 'j'],
        "Add"@ =~= seq!['A', 'd', 'd'],
        "CD"@ =~= seq!['C', 'D'],
        "NegE"@ =~= seq!['N', 'e', 'g', 'E'],
        "DN"@ =~= seq!['D', 'N'],
        "DeM"@ =~= seq!['D', 'e', 'M'],
        "Comm"@ =~= seq!['C', 'o', 'm', 'm'],
        "Assoc"@ =~= seq!['A', 's', 's', 'o', 'c'],
        "Dist"@ =~= seq!['D', 'i', 's', 't'],
        "Contra"@ =~= seq!['C', 'o', 'n', 't', 'r', 'a'],
        "Impl"@ =~= seq!['I', 'm', 'p', 'l'],
        "Exp"@ =~= seq!['E', 'x', 'p'],
        "Taut"@ =~= seq!['T', 'a', 'u', 't'],
        "Equiv"@ =~= seq!['E', 'q', 'u', 'i', 'v'],
{
    reveal_strlit("MP");
    reveal_strlit("MT");
    reveal_strlit("DS");
    reveal_strlit("HS");
    reveal_strlit("Simp");
    reveal_strlit("Conj");
    reveal_strlit("Add");
    reveal_strlit("CD");
    reveal_strlit("NegE");
    reveal_strlit("DN");
    reveal_strlit("DeM");
    reveal_strlit("Comm");
    reveal_strlit("Assoc");
    reveal_strlit("Dist");
    reveal_strlit("Contra");
    reveal_strlit("Impl");
    reveal_strlit("Exp");
    reveal_strlit("Taut");
    reveal_strlit("Equiv");
}

/// An equivalence justification, written out, reads back as itself.
#[verifier::rlimit(100)]
#[verifier::spinoff_prover]
proof fn lemma_equivalence_round_trip(rule: EquivalenceRule, n: usize)
    ensures
        justification_of(equivalence_abbreviation(rule) + " "@ + decimal(n as nat))
            == JustificationView::Equivalence(rule, n),
{
    lemma_reveal_words();
    lemma_reveal_abbreviations();
    lemma_decimal_number(n as nat);
    let w = equivalence_abbreviation(rule);
    let t = w + " "@ + decimal(n as nat);
    lemma_word_then_rest(t, w, decimal(n as nat));
    reveal_with_fuel(first_match, 11);
    let b = t.len() as int;
    assert(!is_digit(t[0]) && !is_space(t[0]));
    assert(!(b - 0 == 7 && ci_prefix(t, 0, b, "premise"@)) && !(b - 0 == 2 && ci_prefix(t, 0, b, "pr"@))) by {
        if ci_prefix(t, 0, b, "premise"@) {
            assert(ascii_lower(t[0]) == ascii_lower("premise"@[0]));
        }
        if ci_prefix(t, 0, b, "pr"@) {
            assert(ascii_lower(t[0]) == ascii_lower("pr"@[0]));
        }
    }
    assert(!ci_prefix(t, 0, b, "assumption"@) && !ci_prefix(t, 0, b, "assume"@)) by {
        if ci_prefix(t, 0, b, "assume"@) {
            assert(ascii_lower(t[0]) == ascii_lower("assume"@[0]));
            assert(ascii_lower(t[1]) == ascii_lower("assume"@[1]));
        }
        if ci_prefix(t, 0, b, "assumption"@) {
            assert(ascii_lower(t[0]) == ascii_lower("assumption"@[0]));
            assert(ascii_lower(t[1]) == ascii_lower("assumption"@[1]));
        }
    }
    assert(!abbrev_at(t, 0, b, "CP"@) && !abbrev_at(t, 0, b, "IP"@)) by {
        if abbrev_at(t, 0, b, "CP"@) {
            assert(ascii_lower(t[0]) == ascii_lower("CP"@[0]));
            assert(ascii_lower(t[1]) == ascii_lower("CP"@[1]));
        }
        if abbrev_at(t, 0, b, "IP"@) {
            assert(ascii_lower(t[0]) == ascii_lower("IP"@[0]));
            assert(ascii_lower(t[1]) == ascii_lower("IP"@[1]));
        }
    }
    assert forall|k: int| 0 <= k < inference_table().len() implies !abbrev_at(t, 0, b, #[trigger] inference_table()[k].0) by {
        let v = inference_table()[k].0;
        if abbrev_at(t, 0, b, v) {
            assert(ascii_lower(t[0]) == ascii_lower(v[0]));
            assert(ascii_lower(t[1]) == ascii_lower(v[1]));
            if v.len() > 2 {
                assert(ascii_lower(t[2]) == ascii_lower(v[2]));
            }
            if v.len() > 3 {
                assert(ascii_lower(t[3]) == ascii_lower(v[3]));
            }
        }
    }
    assert(first_match(t, 0, b, inference_table(), 0) is None);
    assert(range_after(t, 0, b, "CP"@) is None);
    assert(range_after(t, 0, b, "IP"@) is None);
}

/// The first two characters of a case-blind prefix match.
proof fn lemma_ci_front(s: Seq<char>, a: int, b: int, w: Seq<char>)
    requires
        ci_prefix(s, a, b, w),
        w.len() >= 2,
    ensures
        ascii_lower(s[a]) == ascii_lower(w[0]),
        ascii_lower(s[a + 1]) == ascii_lower(w[1]),
{
    let j0: int = 0;
    let j1: int = 1;
    assert(ascii_lower(s[a + j0]) == ascii_lower(w[j0]));
    assert(ascii_lower(s[a + j1]) == ascii_lower(w[j1]));
}

/// Written-out line numbers start and end with a digit.
proof fn lemma_lines_ends(ls: Seq<usize>)
    requires
        ls.len() >= 1,
    ensures
        lines_text(ls).len() >= 1,
        is_digit(lines_text(ls)[0]),
        is_digit(lines_text(ls).last()),
{
    lemma_lines_front(ls);
    lemma_decimal_number(ls[0] as nat);
    lemma_decimal_number(ls.last() as nat);
    assert(lines_text(ls)[0] == decimal(ls[0] as nat)[0]);
    if ls.len() > 1 {
        assert(lines_text(ls) == lines_text(ls.drop_last()) + ", "@ + decimal(ls.last() as nat));
    }
}

/// An inference justification, written out, reads back as itself.
#[verifier::rlimit(100)]
#[verifier::spinoff_prover]
proof fn lemma_inference_round_trip(rule: InferenceRule, ls: Seq<usize>)
    requires
        ls.len() >= 1,
    ensures
        justification_of(inference_abbreviation(rule) + " "@ + lines_text(ls)) == JustificationView::Inference(rule, ls),
{
    lemma_reveal_words();
    lemma_reveal_abbreviations();
    lemma_lines_ends(ls);
    let w = inference_abbreviation(rule);
    let t = w + " "@ + lines_text(ls);
    lemma_word_then_rest(t, w, lines_text(ls));
    reveal_with_fuel(first_match, 11);
    let b = t.len() as int;
    lemma_lines_read_back(t, (w.len() + 1) as int, b, ls);
    assert(!is_digit(t[0]) && !is_space(t[0]));
    assert(!(b - 0 == 7 && ci_prefix(t, 0, b, "premise"@)) && !(b - 0 == 2 && ci_prefix(t, 0, b, "pr"@))) by {
        if ci_prefix(t, 0, b, "premise"@) {
            assert(ascii_lower(t[0]) == ascii_lower("premise"@[0]));
        }
        if ci_prefix(t, 0, b, "pr"@) {
            assert(ascii_lower(t[0]) == ascii_lower("pr"@[0]));
        }
    }
    assert(!ci_prefix(t, 0, b, "assumption"@) && !ci_prefix(t, 0, b, "assume"@)) by {
        if ci_prefix(t, 0, b, "assume"@) {
            assert(ascii_lower(t[0]) == ascii_lower("assume"@[0]));
            assert(ascii_lower(t[1]) == ascii_lower("assume"@[1]));
        }
        if ci_prefix(t, 0, b, "assumption"@) {
            assert(ascii_lower(t[0]) == ascii_lower("assumption"@[0]));
            assert(ascii_lower(t[1]) == ascii_lower("assumption"@[1]));
        }
    }
    assert(!abbrev_at(t, 0, b, "CP"@) && !abbrev_at(t, 0, b, "IP"@)) by {
        if abbrev_at(t, 0, b, "CP"@) {
            lemma_ci_front(t, 0, b, "CP"@);
        }
        if abbrev_at(t, 0, b, "IP"@) {
            assert(ascii_lower(t[0]) == ascii_lower("IP"@[0]));
            assert(ascii_lower(t[1]) == ascii_lower("IP"@[1]));
        }
    }
    assert(range_after(t, 0, b, "CP"@) is None);
    assert(range_after(t, 0, b, "IP"@) is None);
}

/// A subproof conclusion, written out, reads back as itself.
#[verifier::rlimit(100)]
#[verifier::spinoff_prover]
proof fn lemma_subproof_round_trip(technique: ProofTechnique, x: usize, y: usize)
    ensures
        justification_of(technique_abbreviation(technique) + " "@ + decimal(x as nat) + "-"@ + decimal(y as nat))
            == JustificationView::SubproofConclusion(technique, x, y),
{
    lemma_reveal_words();
    reveal_strlit("-");
    lemma_decimal_number(x as nat);
    lemma_decimal_number(y as nat);
    let w = technique_abbreviation(technique);
    let rest = decimal(x as nat) + "-"@ + decimal(y as nat);
    let t = w + " "@ + rest;
    assert(t =~= w + " "@ + decimal(x as nat) + "-"@ + decimal(y as nat));
    assert(rest[0] == decimal(x as nat)[0]);
    assert(rest.last() == decimal(y as nat).last());
    lemma_word_then_rest(t, w, rest);
    let b = t.len() as int;
    lemma_range_read_back(t, 3, b, x, y);
    assert(!is_digit(t[0]) && !is_space(t[0]));
    assert(!(b - 0 == 7 && ci_prefix(t, 0, b, "premise"@)) && !(b - 0 == 2 && ci_prefix(t, 0, b, "pr"@))) by {
        if ci_prefix(t, 0, b, "premise"@) {
            assert(ascii_lower(t[0]) == ascii_lower("premise"@[0]));
        }
        if ci_prefix(t, 0, b, "pr"@) {
            assert(ascii_lower(t[0]) == ascii_lower("pr"@[0]));
        }
    }
    assert(!ci_prefix(t, 0, b, "assumption"@) && !ci_prefix(t, 0, b, "assume"@)) by {
        if ci_prefix(t, 0, b, "assume"@) {
            assert(ascii_lower(t[0]) == ascii_lower("assume"@[0]));
        }
        if ci_prefix(t, 0, b, "assumption"@) {
            assert(ascii_lower(t[0]) == ascii_lower("assumption"@[0]));
        }
    }
    if technique is IndirectProof {
        assert(!abbrev_at(t, 0, b, "CP"@)) by {
            if abbrev_at(t, 0, b, "CP"@) {
                lemma_ci_front(t, 0, b, "CP"@);
            }
        }
    }
}

/// An assumption, written out, reads back as itself.
proof fn lemma_assumption_round_trip(technique: ProofTechnique)
    ensures
        justification_of("Assumption ("@ + technique_abbreviation(technique) + ")"@)
            == JustificationView::Assumption(technique),
{
    lemma_reveal_words();
    reveal_strlit("Assumption (");
    reveal_strlit(")");
    let t = "Assumption ("@ + technique_abbreviation(technique) + ")"@;
    let b = t.len() as int;
    assert(b == 15);
    assert(t[0] == 'A' && t[14] == ')');
    assert(trim_start(t, 0, b) == 0);
    assert(trim_end(t, 0, b) == b);
    assert(ci_prefix(t, 0, b, "assumption"@)) by {
        assert forall|j: int| 0 <= j < 10 implies ascii_lower(#[trigger] t[0 + j]) == ascii_lower("assumption"@[j]) by {
            assert(t[j] == "Assumption ("@[j]);
        }
    }
    if technique is IndirectProof {
        assert(t[12] == 'I' && t[13] == 'P');
        assert(ascii_lower(t[12]) == 'i' && ascii_lower(t[12int + 1]) == 'p');
        assert(has_ip(t, 0, b));
    } else {
        assert(!has_ip(t, 0, b)) by {
            assert forall|k: int| 0 <= k && k + 1 < b implies !(ascii_lower(t[k]) == 'i' && ascii_lower(#[trigger] t[k + 1]) == 'p') by {
                if k < 11 {
                    assert(t[k + 1] == "Assumption ("@[k + 1]);
                } else {
                    assert(t[k + 1] == "(CP)"@[k + 1 - 11]) by {
                        reveal_strlit("(CP)");
                        assert(t =~= "Assumption (CP)"@) by {
                            reveal_strlit("Assumption (CP)");
                        }
                    }
                }
            }
        }
    }
}

/// A premise justification, written out, reads back as itself.
proof fn lemma_premise_round_trip()
    ensures
        justification_of("Premise"@) == JustificationView::Premise,
{
    lemma_reveal_words();
    reveal_strlit("Premise");
    let t = "Premise"@;
    assert(trim_start(t, 0, 7) == 0);
    assert(trim_end(t, 0, 7) == 7);
    assert(ci_prefix(t, 0, 7, "premise"@)) by {
        assert forall|j: int| 0 <= j < 7 implies ascii_lower(#[trigger] t[0 + j]) == ascii_lower("premise"@[j]) by {}
    }
}

/// Writing a justification out and reading it back gives it again (an
/// inference must cite at least one line).
pub proof fn law_justification_round_trip(j: Justification)
    requires
        j matches Justification::Inference { lines, .. } ==> lines@.len() >= 1,
    ensures
        justification_of(justification_text(j)) == justification_view(j),
{
    match j {
        Justification::Premise => lemma_premise_round_trip(),
        Justification::Assumption { technique } => lemma_assumption_round_trip(technique),
        Justification::Inference { rule, lines } => lemma_inference_round_trip(rule, lines@),
        Justification::Equivalence { rule, line } => lemma_equivalence_round_trip(rule, line),
        Justification::SubproofConclusion { technique, subproof_start, subproof_end } => {
            lemma_subproof_round_trip(technique, subproof_start, subproof_end)
        },
    }
}

/// Reads a justification: `Premise` or `Pr`; `Assumption` (conditional
/// proof unless `IP` is mentioned); `CP a-b` or `IP a-b`; an inference rule
/// with line numbers (`MP 1,2`); an equivalence rule with one line number
/// (`DN 3`). Abbreviations are matched without ASCII case and must be
/// followed by white space, a digit or the end.
pub fn parse_justification(text: &str) -> (r: Result<Justification, String>)
    ensures
        match r {
            Ok(j) => justification_view(j) == justification_of(text@),
            Err(_) => justification_of(text@) is Malformed,
        },
{
    let s = chars_of(text);
    let (a, b) = trim_bounds(&s, 0, s.len());
    proof {
        reveal_strlit("premise");
        reveal_strlit("pr");
        reveal_strlit("assume");
        reveal_strlit("assumption");
        reveal_strlit("CP");
        reveal_strlit("IP");
    }
    if (b - a == 7 && starts_with_ci(&s, a, b, "premise")) || (b - a == 2 && starts_with_ci(&s, a, b, "pr")) {
        return Ok(Justification::Premise);
    }
    if starts_with_ci(&s, a, b, "assumption") || starts_with_ci(&s, a, b, "assume") {
        let technique = if mentions_ip(&s, a, b) {
            ProofTechnique::IndirectProof
        } else {
            ProofTechnique::ConditionalProof
        };
        return Ok(Justification::Assumption { technique });
    }
    match strip_prefix_ci(&s, a, b, "CP") {
        Some(k) => {
            let (c, d) = trim_bounds(&s, k, b);
            match parse_line_range(&s, c, d) {
                Some((start, end)) => {
                    return Ok(
                        Justification::SubproofConclusion {
                            technique: ProofTechnique::ConditionalProof,
                            subproof_start: start,
                            subproof_end: end,
                        },
                    );
                },
                None => {},
            }
        },
        None => {},
    }
    match strip_prefix_ci(&s, a, b, "IP") {
        Some(k) => {
            let (c, d) = trim_bounds(&s, k, b);
            match parse_line_range(&s, c, d) {
                Some((start, end)) => {
                    return Ok(
                        Justification::SubproofConclusion {
                            technique: ProofTechnique::IndirectProof,
                            subproof_start: start,
                            subproof_end: end,
                        },
                    );
                },
                None => {},
            }
        },
        None => {},
    }
    let ghost sv = s@;
    let inference = inference_rules();
    let mut i: usize = 0;
    while i < inference.len()
        invariant
            i <= inference@.len(),
            s@ == text@,
            sv == s@,
            a <= b <= s@.len(),
            a == trim_start(sv, 0, sv.len() as int),
            b == trim_end(sv, a as int, sv.len() as int),
            inference@.len() == inference_table().len(),
            forall|k: int| 0 <= k < inference@.len() ==> (#[trigger] inference@[k]).0@ == inference_table()[k].0 && inference@[k].1 == inference_table()[k].1,
            first_match(sv, a as int, b as int, inference_table(), 0) == first_match(sv, a as int, b as int, inference_table(), i as int),
            !((b - a == 7 && ci_prefix(sv, a as int, b as int, "premise"@)) || (b - a == 2 && ci_prefix(sv, a as int, b as int, "pr"@))),
            !(ci_prefix(sv, a as int, b as int, "assumption"@) || ci_prefix(sv, a as int, b as int, "assume"@)),
            range_after(sv, a as int, b as int, "CP"@) is None,
            range_after(sv, a as int, b as int, "IP"@) is None,
        decreases inference@.len() - i,
    {
        let (abbrev, rule) = inference[i];
        match strip_prefix_ci(&s, a, b, abbrev) {
            Some(k) => {
                let (c, d) = trim_bounds(&s, k, b);
                if c == d {
                    return Err(
                        {
                            let mut m = string_of("Missing line numbers for ");
                            push_text(&mut m, abbrev);
                            m
                        },
                    );
                }
                return match parse_line_numbers(&s, text, c, d) {
                    Ok(lines) => Ok(Justification::Inference { rule, lines }),
                    Err(e) => Err(e),
                };
            },
            None => {},
        }
        i = i + 1;
    }
    let equivalence = equivalence_rules();
    let mut i: usize = 0;
    while i < equivalence.len()
        invariant
            i <= equivalence@.len(),
            s@ == text@,
            sv == s@,
            a <= b <= s@.len(),
            a == trim_start(sv, 0, sv.len() as int),
            b == trim_end(sv, a as int, sv.len() as int),
            equivalence@.len() == equivalence_table().len(),
            forall|k: int| 0 <= k < equivalence@.len() ==> (#[trigger] equivalence@[k]).0@ == equivalence_table()[k].0 && equivalence@[k].1 == equivalence_table()[k].1,
            first_match(sv, a as int, b as int, equivalence_table(), 0) == first_match(sv, a as int, b as int, equivalence_table(), i as int),
            first_match(sv, a as int, b as int, inference_table(), 0) is None,
            !((b - a == 7 && ci_prefix(sv, a as int, b as int, "premise"@)) || (b - a == 2 && ci_prefix(sv, a as int, b as int, "pr"@))),
            !(ci_prefix(sv, a as int, b as int, "assumption"@) || ci_prefix(sv, a as int, b as int, "assume"@)),
            range_after(sv, a as int, b as int, "CP"@) is None,
            range_after(sv, a as int, b as int, "IP"@) is None,
        decreases equivalence@.len() - i,
    {
        let (abbrev, rule) = equivalence[i];
        match strip_prefix_ci(&s, a, b, abbrev) {
            Some(k) => {
                let (c, d) = trim_bounds(&s, k, b);
                if c == d {
                    let mut m = string_of("Missing line number for ");
                    push_text(&mut m, abbrev);
                    return Err(m);
                }
                return match parse_number(&s, c, d) {
                    Some(line) => Ok(Justification::Equivalence { rule, line }),
                    None => {
                        let mut m = string_of("Invalid line number for ");
                        push_text(&mut m, abbrev);
                        push_text(&mut m, ": '");
                        let rest = text_of(&s, text, c, d);
                        push_text(&mut m, rest.as_str());
                        push_text(&mut m, "'");
                        Err(m)
                    },
                };
            },
            None => {},
        }
        i = i + 1;
    }
    let mut m = string_of("Unrecognized justification: '");
    let whole = text_of(&s, text, a, b);
    push_text(&mut m, whole.as_str());
    push_text(&mut m, "'");
    Err(m)
}

fn line_error(line_number: usize, text: &str) -> String {
    let mut m = string_of("Line ");
    push_decimal(&mut m, line_number);
    push_text(&mut m, ": ");
    push_text(&mut m, text);
    m
}

/// Checks the newest line of the proof and records the verdict on it;
/// returns the message of a failing verdict.
fn check_last_line(proof: &mut Proof) -> (r: Option<String>)
    ensures
        final(proof).lines@.len() == old(proof).lines@.len(),
        final(proof).theorem == old(proof).theorem,
        final(proof).scope_manager == old(proof).scope_manager,
{
    let n = proof.lines.len();
    if n == 0 {
        return None;
    }
    let result = ProofVerifier::verify_line(&proof.lines[n - 1], proof);
    match proof.lines.pop() {
        Some(mut line) => {
            line.is_valid = result.is_valid;
            line.validation_message = match &result.message {
                Some(m) => Some(m.clone()),
                None => None,
            };
            proof.lines.push(line);
        },
        None => {},
    }
    if result.is_valid {
        None
    } else {
        match result.message {
            Some(m) => Some(m),
            None => Some(string_of("Invalid")),
        }
    }
}

/// Replays a submitted proof of the theorem line by line: each formula is
/// parsed, each justification read, assumptions open subproofs, subproof
/// conclusions close them, and every other line is appended; each new line
/// is checked at once. The report is valid when the proof is complete and
/// no line drew an error.
pub fn validate_proof(theorem: Theorem, input: &Vec<ProofInput>) -> (r: ValidationReport)
    ensures
        r.proof.theorem == theorem,
        r.proof.lines@.len() >= theorem.premises@.len(),
        r.line_count == r.proof.lines@.len() - theorem.premises@.len(),
        r.valid == (r.errors@.len() == 0 && complete_spec(
            r.proof.lines@,
            r.proof.scope_manager@,
            theorem.conclusion@,
        )),
        r.proof.is_complete == complete_spec(r.proof.lines@, r.proof.scope_manager@, theorem.conclusion@),
{
    let ghost original = theorem;
    let premise_count = theorem.premises.len();
    let mut proof = Proof::new(theorem);
    let mut errors: Vec<String> = Vec::new();
    let mut i: usize = 0;
    while i < input.len()
        invariant
            i <= input@.len(),
            proof.theorem == original,
            premise_count == original.premises@.len(),
            proof.lines@.len() >= proof.theorem.premises@.len(),
        decreases input@.len() - i,
    {
        let item = &input[i];
        i = i + 1;
        if proof.lines.len() >= usize::MAX - 1 {
            errors.push(line_error(item.line_number, "Proof too long"));
            break;
        }
        let formula = match Formula::parse(item.formula.as_str()) {
            Ok(f) => f,
            Err(e) => {
                let mut m = string_of("Invalid formula '");
                push_text(&mut m, item.formula.as_str());
                push_text(&mut m, "': ");
                push_text(&mut m, e.describe().as_str());
                errors.push(line_error(item.line_number, m.as_str()));
                continue;
            },
        };
        let justification = match parse_justification(item.justification.as_str()) {
            Ok(j) => j,
            Err(e) => {
                let mut m = string_of("Invalid justification '");
                push_text(&mut m, item.justification.as_str());
                push_text(&mut m, "': ");
                push_text(&mut m, e.as_str());
                errors.push(line_error(item.line_number, m.as_str()));
                continue;
            },
        };
        match justification {
            Justification::Assumption { technique } => {
                proof.open_subproof(formula, technique);
            },
            Justification::SubproofConclusion { technique, .. } => {
                let closed = proof.close_subproof(formula, technique).is_some();
                if closed {
                    match check_last_line(&mut proof) {
                        Some(m) => errors.push(line_error(item.line_number, m.as_str())),
                        None => {},
                    }
                } else {
                    errors.push(line_error(item.line_number, "No open subproof to close"));
                }
            },
            other => {
                proof.add_line(formula, other);
                match check_last_line(&mut proof) {
                    Some(m) => errors.push(line_error(item.line_number, m.as_str())),
                    None => {},
                }
            },
        }
    }
    let complete = proof.check_complete();
    if !complete {
        if proof.scope_manager.has_open_scopes() {
            let mut m = string_of("Proof incomplete: ");
            push_decimal(&mut m, proof.scope_manager.current_depth());
            push_text(&mut m, " subproof scope(s) still open (unclosed)");
            errors.push(m);
        }
        let mut has_conclusion = false;
        let mut invalid = string_of("");
        let mut any_invalid = false;
        let mut k: usize = 0;
        while k < proof.lines.len()
            invariant
                k <= proof.lines@.len(),
            decreases proof.lines@.len() - k,
        {
            let l = &proof.lines[k];
            if l.depth == 0 && l.is_valid && l.formula.equals(&proof.theorem.conclusion) {
                has_conclusion = true;
            }
            if !l.is_valid {
                if any_invalid {
                    push_text(&mut invalid, ", ");
                }
                push_decimal(&mut invalid, l.line_number);
                any_invalid = true;
            }
            k = k + 1;
        }
        if !has_conclusion {
            errors.push(string_of("Proof incomplete: conclusion not established at depth 0"));
        }
        if any_invalid {
            let mut m = string_of("Proof incomplete: invalid lines: [");
            push_text(&mut m, invalid.as_str());
            push_text(&mut m, "]");
            errors.push(m);
        }
    }
    let line_count = proof.lines.len() - premise_count;
    let valid = complete && errors.len() == 0;
    ValidationReport { valid, line_count, errors, proof }
}

} // verus!
