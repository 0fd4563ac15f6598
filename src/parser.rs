//! The concrete syntax of formulas: a recursive-descent parser that accepts
//! several spellings of each connective.

use crate::formula::{Formula, FormulaView};
use crate::text::{push_decimal, push_text, string_of};
use vstd::prelude::*;
use vstd::string::*;

verus! {

/// How deeply connectives and brackets may nest while parsing.
pub const MAX_PARSE_DEPTH: usize = 100;

/// Inputs longer than this many characters are refused.
pub const MAX_INPUT_CHARS: usize = 10000;

/// Why an input could not be parsed, and where (a character offset).
#[derive(Debug)]
pub struct ParseError {
    pub message: String,
    pub position: usize,
}

impl ParseError {
    /// `Parse error at position N: message`.
    pub fn describe(&self) -> String {
        let mut s = string_of("Parse error at position ");
        push_decimal(&mut s, self.position);
        push_text(&mut s, ": ");
        push_text(&mut s, self.message.as_str());
        s
    }
}

/// A parser over one input string.
pub struct FormulaParser {
    text: String,
    chars: Vec<char>,
    pos: usize,
    depth: usize,
}

/// Unicode white space, as `char::is_whitespace` defines it.
pub open spec fn is_space(c: char) -> bool {
    ('\u{9}' <= c && c <= '\u{d}') || c == ' ' || c == '\u{85}' || c == '\u{a0}' || c == '\u{1680}'
        || ('\u{2000}' <= c && c <= '\u{200a}') || c == '\u{2028}' || c == '\u{2029}' || c
        == '\u{202f}' || c == '\u{205f}' || c == '\u{3000}'
}

/// A character that may appear in an atom name.
pub open spec fn is_name_char(c: char) -> bool {
    ('a' <= c && c <= 'z') || ('A' <= c && c <= 'Z') || ('0' <= c && c <= '9') || c == '_' || c
        == '\''
}

/// Nothing but white space from `pos` on.
pub open spec fn blank_from(s: Seq<char>, pos: int) -> bool {
    forall|i: int| pos <= i < s.len() ==> is_space(#[trigger] s[i])
}

/// Every atom of the formula has a non-empty name made of letters, digits,
/// `_` and `'`.
pub open spec fn names_ok(f: FormulaView) -> bool
    decreases f,
{
    match f {
        FormulaView::Atom(s) => s.len() > 0 && forall|i: int| 0 <= i < s.len() ==> is_name_char(#[trigger] s[i]),
        FormulaView::Not(a) => names_ok(*a),
        FormulaView::And(a, b) | FormulaView::Or(a, b) | FormulaView::Implies(a, b)
        | FormulaView::Biconditional(a, b) => names_ok(*a) && names_ok(*b),
        FormulaView::Contradiction => true,
    }
}

pub(crate) fn space(c: char) -> (r: bool)
    ensures
        r == is_space(c),
{
    ('\u{9}' <= c && c <= '\u{d}') || c == ' ' || c == '\u{85}' || c == '\u{a0}' || c == '\u{1680}'
        || ('\u{2000}' <= c && c <= '\u{200a}') || c == '\u{2028}' || c == '\u{2029}' || c
        == '\u{202f}' || c == '\u{205f}' || c == '\u{3000}'
}

fn name_char(c: char) -> (r: bool)
    ensures
        r == is_name_char(c),
{
    ('a' <= c && c <= 'z') || ('A' <= c && c <= 'Z') || ('0' <= c && c <= '9') || c == '_' || c
        == '\''
}

/// The characters of a string.
pub(crate) fn chars_of(s: &str) -> (r: Vec<char>)
    ensures
        r@ == s@,
{
    let n = s.unicode_len();
    let mut out: Vec<char> = Vec::new();
    let mut i: usize = 0;
    while i < n
        invariant
            n == s@.len(),
            i <= n,
            out@ == s@.subrange(0, i as int),
        decreases n - i,
    {
        out.push(s.get_char(i));
        i = i + 1;
        proof {
            assert(out@ =~= s@.subrange(0, i as int));
        }
    }
    proof {
        assert(out@ =~= s@);
    }
    out
}

fn error_at(message: String, position: usize) -> (r: ParseError)
    ensures
        r.position == position,
{
    ParseError { message, position }
}

impl FormulaParser {
    /// A parser at the start of `input`.
    pub fn new(input: &str) -> (r: Self)
        ensures
            r.wf(),
            r.input() == input@,
            r.position() == 0,
    {
        let chars = chars_of(input);
        FormulaParser { text: string_of(input), chars, pos: 0, depth: 0 }
    }

    /// The characters being parsed.
    pub closed spec fn input(&self) -> Seq<char> {
        self.chars@
    }

    /// Where parsing resumes.
    pub closed spec fn position(&self) -> nat {
        self.pos as nat
    }

    /// The parser's state is consistent.
    pub closed spec fn wf(&self) -> bool {
        self.chars@ == self.text@ && self.pos <= self.chars@.len() && self.depth <= MAX_PARSE_DEPTH
    }

    fn skip_whitespace(&self, pos: usize) -> (r: usize)
        requires
            self.wf(),
            pos <= self.chars@.len(),
        ensures
            pos <= r <= self.chars@.len(),
            blank_from(self.chars@, pos as int) ==> r == self.chars@.len() && blank_from(self.chars@, r as int),
    {
        let mut p = pos;
        while p < self.chars.len() && space(self.chars[p])
            invariant
                pos <= p <= self.chars@.len(),
            decreases self.chars@.len() - p,
        {
            p = p + 1;
        }
        p
    }

    /// Skips white space, then consumes `tok` if it comes next. Returns
    /// whether it did and the position after.
    fn matches(&self, pos: usize, tok: &str) -> (r: (bool, usize))
        requires
            self.wf(),
            pos <= self.chars@.len(),
        ensures
            pos <= r.1 <= self.chars@.len(),
            r.0 ==> r.1 > pos || tok@.len() == 0,
            blank_from(self.chars@, pos as int) && tok@.len() > 0 ==> !r.0 && blank_from(self.chars@, r.1 as int),
    {
        let p = self.skip_whitespace(pos);
        let n = tok.unicode_len();
        if n > self.chars.len() - p {
            return (false, p);
        }
        let mut i: usize = 0;
        while i < n
            invariant
                i <= n,
                n == tok@.len(),
                blank_from(self.chars@, pos as int) ==> n == 0,
                pos <= p,
                p + n <= self.chars@.len(),
                self.chars@.len() == self.chars.len(),
            decreases n - i,
        {
            if self.chars[p + i] != tok.get_char(i) {
                return (false, p);
            }
            i = i + 1;
        }
        (true, p + n)
    }

    fn any_of(&self, pos: usize, toks: &[&str]) -> (r: (bool, usize))
        requires
            self.wf(),
            pos <= self.chars@.len(),
            forall|k: int| 0 <= k < toks@.len() ==> (#[trigger] toks@[k])@.len() > 0,
        ensures
            pos <= r.1 <= self.chars@.len(),
            r.0 ==> r.1 > pos,
            blank_from(self.chars@, pos as int) ==> !r.0 && blank_from(self.chars@, r.1 as int),
    {
        let mut p = pos;
        let mut k: usize = 0;
        while k < toks.len()
            invariant
                pos <= p <= self.chars@.len(),
                self.wf(),
                forall|k: int| 0 <= k < toks@.len() ==> (#[trigger] toks@[k])@.len() > 0,
                blank_from(self.chars@, pos as int) ==> blank_from(self.chars@, p as int),
            decreases toks@.len() - k,
        {
            let (hit, q) = self.matches(p, toks[k]);
            if hit {
                return (true, q);
            }
            p = q;
            k = k + 1;
        }
        (false, p)
    }

    fn too_deep(pos: usize) -> ParseError {
        let mut message = string_of("Formula too deeply nested (max ");
        push_decimal(&mut message, MAX_PARSE_DEPTH);
        push_text(&mut message, " levels)");
        error_at(message, pos)
    }

    fn parse_biconditional(&self, pos: usize, depth: usize) -> (r: Result<(Formula, usize), ParseError>)
        requires
            self.wf(),
            pos <= self.chars@.len(),
            depth <= MAX_PARSE_DEPTH,
        ensures
            r matches Ok((_, q)) ==> pos <= q <= self.chars@.len(),
            r matches Ok((f, _)) ==> names_ok(f@),
            blank_from(self.chars@, pos as int) ==> r is Err,
        decreases self.chars@.len() - pos, 5nat,
    {
        let (mut left, mut p) = match self.parse_implication(pos, depth) {
            Ok(x) => x,
            Err(e) => {
                return Err(e);
            },
        };
        p = self.skip_whitespace(p);
        loop
            invariant
                self.wf(),
                pos <= p <= self.chars@.len(),
                depth <= MAX_PARSE_DEPTH,
                names_ok(left@),
                !blank_from(self.chars@, pos as int),
            decreases self.chars@.len() - p,
        {
            proof {
                reveal_strlit("<->");
                reveal_strlit("≡");
                reveal_strlit("<=>");
                reveal_strlit("<>");
            }
            let (hit, q) = self.any_of(p, &["<->", "≡", "<=>", "<>"]);
            if !hit {
                return Ok((left, q));
            }
            if depth + 1 > MAX_PARSE_DEPTH {
                return Err(Self::too_deep(q));
            }
            let (right, q2) = match self.parse_implication(q, depth + 1) {
                Ok(x) => x,
                Err(e) => {
                    return Err(e);
                },
            };
            left = Formula::Biconditional(Box::new(left), Box::new(right));
            p = self.skip_whitespace(q2);
        }
    }

    fn parse_implication(&self, pos: usize, depth: usize) -> (r: Result<(Formula, usize), ParseError>)
        requires
            self.wf(),
            pos <= self.chars@.len(),
            depth <= MAX_PARSE_DEPTH,
        ensures
            r matches Ok((_, q)) ==> pos <= q <= self.chars@.len(),
            r matches Ok((f, _)) ==> names_ok(f@),
            blank_from(self.chars@, pos as int) ==> r is Err,
        decreases self.chars@.len() - pos, 4nat,
    {
        let (mut left, mut p) = match self.parse_disjunction(pos, depth) {
            Ok(x) => x,
            Err(e) => {
                return Err(e);
            },
        };
        p = self.skip_whitespace(p);
        loop
            invariant
                self.wf(),
                pos <= p <= self.chars@.len(),
                depth <= MAX_PARSE_DEPTH,
                names_ok(left@),
                !blank_from(self.chars@, pos as int),
            decreases self.chars@.len() - p,
        {
            proof {
                reveal_strlit("->");
                reveal_strlit("⊃");
                reveal_strlit("=>");
                reveal_strlit(">");
            }
            let (hit, q) = self.any_of(p, &["->", "⊃", "=>", ">"]);
            if !hit {
                return Ok((left, q));
            }
            if depth + 1 > MAX_PARSE_DEPTH {
                return Err(Self::too_deep(q));
            }
            let (right, q2) = match self.parse_implication(q, depth + 1) {
                Ok(x) => x,
                Err(e) => {
                    return Err(e);
                },
            };
            left = Formula::Implies(Box::new(left), Box::new(right));
            p = self.skip_whitespace(q2);
        }
    }

    fn parse_disjunction(&self, pos: usize, depth: usize) -> (r: Result<(Formula, usize), ParseError>)
        requires
            self.wf(),
            pos <= self.chars@.len(),
            depth <= MAX_PARSE_DEPTH,
        ensures
            r matches Ok((_, q)) ==> pos <= q <= self.chars@.len(),
            r matches Ok((f, _)) ==> names_ok(f@),
            blank_from(self.chars@, pos as int) ==> r is Err,
        decreases self.chars@.len() - pos, 3nat,
    {
        let (mut left, mut p) = match self.parse_conjunction(pos, depth) {
            Ok(x) => x,
            Err(e) => {
                return Err(e);
            },
        };
        p = self.skip_whitespace(p);
        loop
            invariant
                self.wf(),
                pos <= p <= self.chars@.len(),
                depth <= MAX_PARSE_DEPTH,
                names_ok(left@),
                !blank_from(self.chars@, pos as int),
            decreases self.chars@.len() - p,
        {
            proof {
                reveal_strlit("|");
                reveal_strlit("∨");
                reveal_strlit("v");
                reveal_strlit("V");
            }
            let (hit, q) = self.any_of(p, &["|", "∨", "v", "V"]);
            if !hit {
                return Ok((left, q));
            }
            if depth + 1 > MAX_PARSE_DEPTH {
                return Err(Self::too_deep(q));
            }
            let (right, q2) = match self.parse_conjunction(q, depth + 1) {
                Ok(x) => x,
                Err(e) => {
                    return Err(e);
                },
            };
            left = Formula::Or(Box::new(left), Box::new(right));
            p = self.skip_whitespace(q2);
        }
    }

    fn parse_conjunction(&self, pos: usize, depth: usize) -> (r: Result<(Formula, usize), ParseError>)
        requires
            self.wf(),
            pos <= self.chars@.len(),
            depth <= MAX_PARSE_DEPTH,
        ensures
            r matches Ok((_, q)) ==> pos <= q <= self.chars@.len(),
            r matches Ok((f, _)) ==> names_ok(f@),
            blank_from(self.chars@, pos as int) ==> r is Err,
        decreases self.chars@.len() - pos, 2nat,
    {
        let (mut left, mut p) = match self.parse_negation(pos, depth) {
            Ok(x) => x,
            Err(e) => {
                return Err(e);
            },
        };
        p = self.skip_whitespace(p);
        loop
            invariant
                self.wf(),
                pos <= p <= self.chars@.len(),
                depth <= MAX_PARSE_DEPTH,
                names_ok(left@),
                !blank_from(self.chars@, pos as int),
            decreases self.chars@.len() - p,
        {
            proof {
                reveal_strlit("&");
                reveal_strlit("·");
                reveal_strlit("^");
                reveal_strlit(".");
                reveal_strlit("*");
            }
            let (hit, q) = self.any_of(p, &["&", "·", "^", ".", "*"]);
            if !hit {
                return Ok((left, q));
            }
            if depth + 1 > MAX_PARSE_DEPTH {
                return Err(Self::too_deep(q));
            }
            let (right, q2) = match self.parse_negation(q, depth + 1) {
                Ok(x) => x,
                Err(e) => {
                    return Err(e);
                },
            };
            left = Formula::And(Box::new(left), Box::new(right));
            p = self.skip_whitespace(q2);
        }
    }

    fn parse_negation(&self, pos: usize, depth: usize) -> (r: Result<(Formula, usize), ParseError>)
        requires
            self.wf(),
            pos <= self.chars@.len(),
            depth <= MAX_PARSE_DEPTH,
        ensures
            r matches Ok((_, q)) ==> pos <= q <= self.chars@.len(),
            r matches Ok((f, _)) ==> names_ok(f@),
            blank_from(self.chars@, pos as int) ==> r is Err,
        decreases self.chars@.len() - pos, 1nat,
    {
        let p = self.skip_whitespace(pos);
        proof {
            reveal_strlit("~");
            reveal_strlit("!");
            reveal_strlit("¬");
            reveal_strlit("-");
        }
        let (hit, q) = self.any_of(p, &["~", "!", "¬", "-"]);
        if hit {
            if depth + 1 > MAX_PARSE_DEPTH {
                return Err(Self::too_deep(q));
            }
            match self.parse_negation(q, depth + 1) {
                Ok((inner, q2)) => Ok((Formula::Not(Box::new(inner)), q2)),
                Err(e) => Err(e),
            }
        } else {
            self.parse_atom(q, depth)
        }
    }

    fn parse_group(&self, pos: usize, depth: usize, close: &str, message: &str) -> (r: Result<
        (Formula, usize),
        ParseError,
    >)
        requires
            self.wf(),
            0 < pos <= self.chars@.len(),
            depth <= MAX_PARSE_DEPTH,
        ensures
            r matches Ok((_, q)) ==> pos <= q <= self.chars@.len(),
            r matches Ok((f, _)) ==> names_ok(f@),
            blank_from(self.chars@, pos as int) ==> r is Err,
        decreases self.chars@.len() - pos, 6nat,
    {
        if depth + 1 > MAX_PARSE_DEPTH {
            return Err(Self::too_deep(pos));
        }
        let (inner, q) = match self.parse_biconditional(pos, depth + 1) {
            Ok(x) => x,
            Err(e) => {
                return Err(e);
            },
        };
        let q = self.skip_whitespace(q);
        let (hit, q2) = self.matches(q, close);
        if !hit {
            return Err(error_at(string_of(message), q2));
        }
        Ok((inner, q2))
    }

    fn parse_atom(&self, pos: usize, depth: usize) -> (r: Result<(Formula, usize), ParseError>)
        requires
            self.wf(),
            pos <= self.chars@.len(),
            depth <= MAX_PARSE_DEPTH,
        ensures
            r matches Ok((_, q)) ==> pos <= q <= self.chars@.len(),
            r matches Ok((f, _)) ==> names_ok(f@),
            blank_from(self.chars@, pos as int) ==> r is Err,
        decreases self.chars@.len() - pos, 0nat,
    {
        let p = self.skip_whitespace(pos);
        proof {
            reveal_strlit("_|_");
            reveal_strlit("⊥");
            reveal_strlit("#");
            reveal_strlit("(");
            reveal_strlit("[");
            reveal_strlit("{");
        }
        let (hit, p) = self.any_of(p, &["_|_", "⊥", "#"]);
        if hit {
            return Ok((Formula::Contradiction, p));
        }
        let (hit, q) = self.matches(p, "(");
        if hit {
            return self.parse_group(q, depth, ")", "Expected closing parenthesis ')'");
        }
        let (hit, q) = self.matches(q, "[");
        if hit {
            return self.parse_group(q, depth, "]", "Expected closing bracket ']'");
        }
        let (hit, q) = self.matches(q, "{");
        if hit {
            return self.parse_group(q, depth, "}", "Expected closing brace '}'");
        }
        let start = q;
        let mut end = q;
        while end < self.chars.len() && name_char(self.chars[end])
            invariant
                start <= end <= self.chars@.len(),
                forall|j: int| start <= j < end ==> is_name_char(#[trigger] self.chars@[j]),
            decreases self.chars@.len() - end,
        {
            end = end + 1;
        }
        if end == start {
            return Err(
                error_at(string_of("Expected atom, negation, or parenthesized expression"), end),
            );
        }
        let name = string_of(self.text.as_str().substring_char(start, end));
        proof {
            assert forall|i: int| 0 <= i < name@.len() implies is_name_char(#[trigger] name@[i]) by {
                assert(name@[i] == self.chars@[start + i]);
            }
        }
        Ok((Formula::Atom(name), end))
    }

    /// Parses the whole input as one formula.
    pub fn parse(&mut self) -> (r: Result<Formula, ParseError>)
        requires
            old(self).wf(),
        ensures
            final(self).wf(),
            r matches Ok(f) ==> names_ok(f@),
            blank_from(old(self).input(), old(self).position() as int) ==> r is Err,
    {
        let p = self.skip_whitespace(self.pos);
        let (f, q) = match self.parse_biconditional(p, self.depth) {
            Ok(x) => x,
            Err(e) => {
                return Err(e);
            },
        };
        let q = self.skip_whitespace(q);
        self.pos = q;
        if q < self.chars.len() {
            let mut message = string_of("Unexpected character: '");
            push_text(&mut message, self.text.as_str().substring_char(q, q + 1));
            push_text(&mut message, "'");
            return Err(error_at(message, q));
        }
        Ok(f)
    }
}

impl Formula {
    /// Parses a formula; inputs of more than 10 000 characters are refused.
    pub fn parse(input: &str) -> (r: Result<Formula, ParseError>)
        ensures
            input@.len() > MAX_INPUT_CHARS ==> (r matches Err(e) && e.position == 0),
            r matches Ok(f) ==> names_ok(f@),
            blank_from(input@, 0) ==> r is Err,
    {
        if input.unicode_len() > MAX_INPUT_CHARS {
            return Err(error_at(string_of("Formula too long (max 10000 chars)"), 0));
        }
        let mut parser = FormulaParser::new(input);
        parser.parse()
    }
}

} // verus!
