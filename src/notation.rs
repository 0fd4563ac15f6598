//! Writing formulas out: the bracketed ASCII form that the parser reads
//! back, a plain ASCII form, and a form with logical symbols.

use crate::formula::{Formula, FormulaView};
use crate::text::{push_text, string_of};
use vstd::prelude::*;

verus! {

/// Does a negated formula need brackets? Only binary connectives do.
pub open spec fn needs_parens_for_not(f: FormulaView) -> bool {
    !(f is Atom || f is Not || f is Contradiction)
}

/// An atom, the constant, or the negation of an atom: never bracketed.
pub open spec fn is_simple(f: FormulaView) -> bool {
    match f {
        FormulaView::Atom(_) | FormulaView::Contradiction => true,
        FormulaView::Not(a) => *a is Atom,
        _ => false,
    }
}

/// How many bracket levels the formula needs inside it, counted up to 3.
pub open spec fn bracket_depth(f: FormulaView) -> nat
    decreases f, 0nat,
{
    match f {
        FormulaView::Atom(_) | FormulaView::Contradiction => 0,
        FormulaView::Not(a) => if needs_parens_for_not(*a) {
            cap3(1 + bracket_depth(*a))
        } else {
            bracket_depth(*a)
        },
        FormulaView::And(a, b) | FormulaView::Or(a, b) | FormulaView::Implies(a, b)
        | FormulaView::Biconditional(a, b) => {
            let da = operand_depth(*a);
            let db = operand_depth(*b);
            if da >= db {
                da
            } else {
                db
            }
        },
    }
}

/// The bracket levels an operand of a binary connective takes, counted up to 3.
pub open spec fn operand_depth(f: FormulaView) -> nat
    decreases f, 1nat,
{
    if is_simple(f) {
        0
    } else {
        cap3(1 + bracket_depth(f))
    }
}

pub open spec fn cap3(n: nat) -> nat {
    if n > 3 {
        3
    } else {
        n
    }
}

/// Binding strength of the main connective: higher binds tighter.
pub open spec fn precedence_of(f: FormulaView) -> u8 {
    match f {
        FormulaView::Atom(_) | FormulaView::Contradiction => 6,
        FormulaView::Not(_) => 5,
        FormulaView::And(_, _) => 4,
        FormulaView::Or(_, _) => 3,
        FormulaView::Implies(_, _) => 2,
        FormulaView::Biconditional(_, _) => 1,
    }
}

/// The symbol form (`.`, `∨`, `⊃`, `≡`, `~`, `⊥`): compound operands
/// bracketed by their own nesting depth, a negated compound bracketed by
/// the depth of the whole.
pub open spec fn symbolic(f: FormulaView) -> Seq<char>
    decreases f, 1nat,
{
    symbolic_at(f, 0, bracket_depth(f))
}

/// The bracket level used at nesting `current` of `max` levels.
pub open spec fn level_at(current: nat, max: nat) -> nat {
    if max > current + 1 {
        (max - current - 1) as nat
    } else {
        0
    }
}

pub open spec fn symbolic_at(f: FormulaView, current: nat, max: nat) -> Seq<char>
    decreases f, 0nat,
{
    match f {
        FormulaView::Atom(s) => s,
        FormulaView::Contradiction => seq!['⊥'],
        FormulaView::Not(a) => if needs_parens_for_not(*a) {
            seq!['~'] + open_bracket(level_at(current, max)) + symbolic_at(*a, current + 1, max)
                + close_bracket(level_at(current, max))
        } else {
            seq!['~'] + symbolic_at(*a, current, max)
        },
        FormulaView::And(a, b) => symbolic_operand(*a) + seq![' ', '.', ' '] + symbolic_operand(*b),
        FormulaView::Or(a, b) => symbolic_operand(*a) + seq![' ', '∨', ' '] + symbolic_operand(*b),
        FormulaView::Implies(a, b) => symbolic_operand(*a) + seq![' ', '⊃', ' '] + symbolic_operand(*b),
        FormulaView::Biconditional(a, b) => symbolic_operand(*a) + seq![' ', '≡', ' '] + symbolic_operand(*b),
    }
}

/// An operand of a binary connective in symbol form.
pub open spec fn symbolic_operand(f: FormulaView) -> Seq<char>
    decreases f, 2nat,
{
    if is_simple(f) {
        symbolic(f)
    } else {
        open_bracket(bracket_depth(f)) + symbolic(f) + close_bracket(bracket_depth(f))
    }
}

/// The plain ASCII form: `&`, `|`, `->`, `<->`, `~`, `_|_`, with brackets
/// only around an operand that binds more loosely than its connective, or
/// equally on the right of an implication.
pub open spec fn plain(f: FormulaView) -> Seq<char>
    decreases f, 1nat,
{
    match f {
        FormulaView::Atom(s) => s,
        FormulaView::Contradiction => seq!['_', '|', '_'],
        FormulaView::Not(a) => if needs_parens_for_not(*a) {
            seq!['~', '('] + plain(*a) + seq![')']
        } else {
            seq!['~'] + plain(*a)
        },
        FormulaView::And(a, b) => plain_operand(*a, f, true) + seq![' ', '&', ' '] + plain_operand(*b, f, false),
        FormulaView::Or(a, b) => plain_operand(*a, f, true) + seq![' ', '|', ' '] + plain_operand(*b, f, false),
        FormulaView::Implies(a, b) => plain_operand(*a, f, true) + seq![' ', '-', '>', ' '] + plain_operand(*b, f, false),
        FormulaView::Biconditional(a, b) => plain_operand(*a, f, true) + seq![' ', '<', '-', '>', ' ']
            + plain_operand(*b, f, false),
    }
}

/// An operand of `outer` in plain form.
pub open spec fn plain_operand(inner: FormulaView, outer: FormulaView, is_left: bool) -> Seq<char>
    decreases inner, 2nat,
{
    if precedence_of(inner) < precedence_of(outer) || (precedence_of(inner) == precedence_of(outer)
        && !is_left && outer is Implies) {
        seq!['('] + plain(inner) + seq![')']
    } else {
        plain(inner)
    }
}

/// Opening bracket for a level counted from the inside: `(`, `[`, then `{`.
pub open spec fn open_bracket(level: nat) -> Seq<char> {
    if level == 0 {
        seq!['(']
    } else if level == 1 {
        seq!['[']
    } else {
        seq!['{']
    }
}

/// Closing bracket for a level counted from the inside.
pub open spec fn close_bracket(level: nat) -> Seq<char> {
    if level == 0 {
        seq![')']
    } else if level == 1 {
        seq![']']
    } else {
        seq!['}']
    }
}

/// The bracketed ASCII form: `.` and, `v` or, `>` implies, `<>` if and only
/// if, `~` not, `#` contradiction; every compound operand of a binary
/// connective bracketed by its own nesting depth.
pub open spec fn bracketed(f: FormulaView) -> Seq<char>
    decreases f, 0nat,
{
    match f {
        FormulaView::Atom(s) => s,
        FormulaView::Contradiction => seq!['#'],
        FormulaView::Not(a) => if needs_parens_for_not(*a) {
            seq!['~'] + open_bracket(bracket_depth(*a)) + bracketed(*a) + close_bracket(
                bracket_depth(*a),
            )
        } else {
            seq!['~'] + bracketed(*a)
        },
        FormulaView::And(a, b) => wrapped(*a) + seq![' ', '.', ' '] + wrapped(*b),
        FormulaView::Or(a, b) => wrapped(*a) + seq![' ', 'v', ' '] + wrapped(*b),
        FormulaView::Implies(a, b) => wrapped(*a) + seq![' ', '>', ' '] + wrapped(*b),
        FormulaView::Biconditional(a, b) => wrapped(*a) + seq![' ', '<', '>', ' '] + wrapped(*b),
    }
}

/// An operand of a binary connective in bracketed form.
pub open spec fn wrapped(f: FormulaView) -> Seq<char>
    decreases f, 1nat,
{
    if is_simple(f) {
        bracketed(f)
    } else {
        open_bracket(bracket_depth(f)) + bracketed(f) + close_bracket(bracket_depth(f))
    }
}

proof fn lemma_depth_capped(f: FormulaView)
    ensures
        bracket_depth(f) <= 3,
        operand_depth(f) <= 3,
    decreases f,
{
    match f {
        FormulaView::Not(a) => lemma_depth_capped(*a),
        FormulaView::And(a, b) | FormulaView::Or(a, b) | FormulaView::Implies(a, b)
        | FormulaView::Biconditional(a, b) => {
            lemma_depth_capped(*a);
            lemma_depth_capped(*b);
        },
        _ => {},
    }
}

fn brackets(level: usize) -> (r: (&'static str, &'static str))
    ensures
        r.0@ == open_bracket(level as nat),
        r.1@ == close_bracket(level as nat),
{
    proof {
        reveal_strlit("(");
        reveal_strlit(")");
        reveal_strlit("[");
        reveal_strlit("]");
        reveal_strlit("{");
        reveal_strlit("}");
    }
    let r = if level == 0 {
        ("(", ")")
    } else if level == 1 {
        ("[", "]")
    } else {
        ("{", "}")
    };
    proof {
        assert(r.0@ =~= open_bracket(level as nat));
        assert(r.1@ =~= close_bracket(level as nat));
    }
    r
}

impl Formula {
    fn needs_parens_for_not(&self) -> (r: bool)
        ensures
            r == needs_parens_for_not(self@),
    {
        match self {
            Formula::Atom(_) | Formula::Not(_) | Formula::Contradiction => false,
            _ => true,
        }
    }

    fn is_simple(&self) -> (r: bool)
        ensures
            r == is_simple(self@),
    {
        proof {
            reveal_with_fuel(crate::formula::view_of, 2);
        }
        match self {
            Formula::Atom(_) | Formula::Contradiction => true,
            Formula::Not(a) => match &**a {
                Formula::Atom(_) => true,
                _ => false,
            },
            _ => false,
        }
    }

    fn bracket_depth(&self) -> (r: usize)
        ensures
            r == bracket_depth(self@),
        decreases self, 0nat,
    {
        match self {
            Formula::Atom(_) | Formula::Contradiction => 0,
            Formula::Not(a) => {
                let d = a.bracket_depth();
                if a.needs_parens_for_not() {
                    if d >= 3 {
                        3
                    } else {
                        d + 1
                    }
                } else {
                    d
                }
            },
            Formula::And(a, b) | Formula::Or(a, b) | Formula::Implies(a, b)
            | Formula::Biconditional(a, b) => {
                let da = a.operand_depth();
                let db = b.operand_depth();
                if da >= db {
                    da
                } else {
                    db
                }
            },
        }
    }

    fn operand_depth(&self) -> (r: usize)
        ensures
            r == operand_depth(self@),
        decreases self, 1nat,
    {
        if self.is_simple() {
            0
        } else {
            let d = self.bracket_depth();
            if d >= 3 {
                3
            } else {
                d + 1
            }
        }
    }

    fn write_bracketed(&self, out: &mut String)
        ensures
            final(out)@ == old(out)@ + bracketed(self@),
        decreases self, 0nat,
    {
        match self {
            Formula::Atom(name) => push_text(out, name.as_str()),
            Formula::Contradiction => {
                proof {
                    reveal_strlit("#");
                }
                push_text(out, "#");
            },
            Formula::Not(a) => {
                proof {
                    reveal_strlit("~");
                }
                push_text(out, "~");
                if a.needs_parens_for_not() {
                    let (open, close) = brackets(a.bracket_depth());
                    push_text(out, open);
                    a.write_bracketed(out);
                    push_text(out, close);
                } else {
                    a.write_bracketed(out);
                }
                proof {
                    assert(out@ =~= old(out)@ + bracketed(self@));
                }
            },
            Formula::And(a, b) => {
                proof {
                    reveal_strlit(" . ");
                }
                a.write_operand(out);
                push_text(out, " . ");
                b.write_operand(out);
                proof {
                    assert(out@ =~= old(out)@ + bracketed(self@));
                }
            },
            Formula::Or(a, b) => {
                proof {
                    reveal_strlit(" v ");
                }
                a.write_operand(out);
                push_text(out, " v ");
                b.write_operand(out);
                proof {
                    assert(out@ =~= old(out)@ + bracketed(self@));
                }
            },
            Formula::Implies(a, b) => {
                proof {
                    reveal_strlit(" > ");
                }
                a.write_operand(out);
                push_text(out, " > ");
                b.write_operand(out);
                proof {
                    assert(out@ =~= old(out)@ + bracketed(self@));
                }
            },
            Formula::Biconditional(a, b) => {
                proof {
                    reveal_strlit(" <> ");
                }
                a.write_operand(out);
                push_text(out, " <> ");
                b.write_operand(out);
                proof {
                    assert(out@ =~= old(out)@ + bracketed(self@));
                }
            },
        }
    }

    fn write_operand(&self, out: &mut String)
        ensures
            final(out)@ == old(out)@ + wrapped(self@),
        decreases self, 1nat,
    {
        if self.is_simple() {
            self.write_bracketed(out);
        } else {
            let (open, close) = brackets(self.bracket_depth());
            push_text(out, open);
            self.write_bracketed(out);
            push_text(out, close);
            proof {
                assert(out@ =~= old(out)@ + wrapped(self@));
            }
        }
    }

    /// The form with logical symbols (`.`, `∨`, `⊃`, `≡`, `~`, `⊥`), brackets
    /// cycling `()`, `[]`, `{}` from the inside out.
    pub fn display_string(&self) -> (r: String)
        ensures
            r@ == symbolic(self@),
        decreases self, 1nat,
    {
        proof {
            lemma_depth_capped(self@);
        }
        let max_depth = self.bracket_depth();
        self.display_with_depth(0, max_depth)
    }

    fn display_with_depth(&self, current_depth: usize, max_depth: usize) -> (r: String)
        requires
            max_depth <= 3,
            current_depth <= 3,
        ensures
            r@ == symbolic_at(self@, current_depth as nat, max_depth as nat),
        decreases self, 0nat,
    {
        proof {
            reveal_strlit("~");
            reveal_strlit(" . ");
            reveal_strlit(" ∨ ");
            reveal_strlit(" ⊃ ");
            reveal_strlit(" ≡ ");
            reveal_strlit("⊥");
            lemma_depth_capped(self@);
        }
        match self {
            Formula::Atom(name) => string_of(name.as_str()),
            Formula::Not(a) => {
                let mut s = string_of("~");
                if a.needs_parens_for_not() {
                    let next = if current_depth < 3 {
                        current_depth + 1
                    } else {
                        3
                    };
                    let inner = a.display_with_depth(next, max_depth);
                    let level = max_depth.saturating_sub(current_depth).saturating_sub(1);
                    let (open, close) = brackets(level);
                    push_text(&mut s, open);
                    push_text(&mut s, inner.as_str());
                    push_text(&mut s, close);
                    proof {
                        assert(level as nat == level_at(current_depth as nat, max_depth as nat));
                        assert(a@ is And || a@ is Or || a@ is Implies || a@ is Biconditional);
                        assert(symbolic_at(a@, next as nat, max_depth as nat) == symbolic_at(a@, current_depth as nat + 1, max_depth as nat));
                        assert(s@ =~= symbolic_at(self@, current_depth as nat, max_depth as nat));
                    }
                } else {
                    let inner = a.display_with_depth(current_depth, max_depth);
                    push_text(&mut s, inner.as_str());
                    proof {
                        assert(s@ =~= symbolic_at(self@, current_depth as nat, max_depth as nat));
                    }
                }
                s
            },
            Formula::And(a, b) => {
                let s = Self::join(a.wrap_if_compound(), " . ", b.wrap_if_compound());
                proof {
                    assert(s@ =~= symbolic_at(self@, current_depth as nat, max_depth as nat));
                }
                s
            },
            Formula::Or(a, b) => {
                let s = Self::join(a.wrap_if_compound(), " ∨ ", b.wrap_if_compound());
                proof {
                    assert(s@ =~= symbolic_at(self@, current_depth as nat, max_depth as nat));
                }
                s
            },
            Formula::Implies(a, b) => {
                let s = Self::join(a.wrap_if_compound(), " ⊃ ", b.wrap_if_compound());
                proof {
                    assert(s@ =~= symbolic_at(self@, current_depth as nat, max_depth as nat));
                }
                s
            },
            Formula::Biconditional(a, b) => {
                let s = Self::join(a.wrap_if_compound(), " ≡ ", b.wrap_if_compound());
                proof {
                    assert(s@ =~= symbolic_at(self@, current_depth as nat, max_depth as nat));
                }
                s
            },
            Formula::Contradiction => {
                let s = string_of("⊥");
                proof {
                    assert(s@ =~= symbolic_at(self@, current_depth as nat, max_depth as nat));
                }
                s
            },
        }
    }

    fn join(left: String, op: &str, right: String) -> (r: String)
        ensures
            r@ == left@ + op@ + right@,
    {
        let mut s = left;
        push_text(&mut s, op);
        push_text(&mut s, right.as_str());
        s
    }

    /// An operand in symbol form, bracketed by its own depth unless simple.
    fn wrap_if_compound(&self) -> (r: String)
        ensures
            r@ == symbolic_operand(self@),
        decreases self, 2nat,
    {
        if self.is_simple() {
            self.display_string()
        } else {
            let (open, close) = brackets(self.bracket_depth());
            let mut s = string_of(open);
            let inner = self.display_string();
            push_text(&mut s, inner.as_str());
            push_text(&mut s, close);
            proof {
                assert(s@ =~= symbolic_operand(self@));
            }
            s
        }
    }

    /// Binding strength: higher binds tighter.
    fn precedence(&self) -> (r: u8)
        ensures
            r == precedence_of(self@),
    {
        match self {
            Formula::Atom(_) | Formula::Contradiction => 6,
            Formula::Not(_) => 5,
            Formula::And(_, _) => 4,
            Formula::Or(_, _) => 3,
            Formula::Implies(_, _) => 2,
            Formula::Biconditional(_, _) => 1,
        }
    }

    /// The plain ASCII form (`&`, `|`, `->`, `<->`, `~`, `_|_`), with
    /// brackets only where precedence needs them.
    pub fn ascii_string(&self) -> (r: String)
        ensures
            r@ == plain(self@),
        decreases self, 1nat,
    {
        proof {
            reveal_strlit("~");
            reveal_strlit("(");
            reveal_strlit(")");
            reveal_strlit(" & ");
            reveal_strlit(" | ");
            reveal_strlit(" -> ");
            reveal_strlit(" <-> ");
            reveal_strlit("_|_");
        }
        match self {
            Formula::Atom(name) => string_of(name.as_str()),
            Formula::Not(a) => {
                let inner = a.ascii_string();
                let mut s = string_of("~");
                if a.needs_parens_for_not() {
                    push_text(&mut s, "(");
                    push_text(&mut s, inner.as_str());
                    push_text(&mut s, ")");
                } else {
                    push_text(&mut s, inner.as_str());
                }
                proof {
                    assert(s@ =~= plain(self@));
                }
                s
            },
            Formula::And(a, b) => {
                let s = Self::join(a.maybe_paren_ascii(self, true), " & ", b.maybe_paren_ascii(self, false));
                proof {
                    assert(s@ =~= plain(self@));
                }
                s
            },
            Formula::Or(a, b) => {
                let s = Self::join(a.maybe_paren_ascii(self, true), " | ", b.maybe_paren_ascii(self, false));
                proof {
                    assert(s@ =~= plain(self@));
                }
                s
            },
            Formula::Implies(a, b) => {
                let s = Self::join(a.maybe_paren_ascii(self, true), " -> ", b.maybe_paren_ascii(self, false));
                proof {
                    assert(s@ =~= plain(self@));
                }
                s
            },
            Formula::Biconditional(a, b) => {
                let s = Self::join(a.maybe_paren_ascii(self, true), " <-> ", b.maybe_paren_ascii(self, false));
                proof {
                    assert(s@ =~= plain(self@));
                }
                s
            },
            Formula::Contradiction => {
                let s = string_of("_|_");
                proof {
                    assert(s@ =~= plain(self@));
                }
                s
            },
        }
    }

    /// An operand in plain ASCII form, bracketed where it binds more loosely
    /// than its connective, or equally on the right of an implication.
    fn maybe_paren_ascii(&self, outer: &Formula, is_left: bool) -> (r: String)
        ensures
            r@ == plain_operand(self@, outer@, is_left),
        decreases self, 2nat,
    {
        proof {
            reveal_strlit("(");
            reveal_strlit(")");
        }
        let inner_prec = self.precedence();
        let outer_prec = outer.precedence();
        let outer_implies = match outer {
            Formula::Implies(_, _) => true,
            _ => false,
        };
        let needs_parens = inner_prec < outer_prec || (inner_prec == outer_prec && !is_left
            && outer_implies);
        let inner = self.ascii_string();
        if needs_parens {
            let mut s = string_of("(");
            push_text(&mut s, inner.as_str());
            push_text(&mut s, ")");
            proof {
                assert(s@ =~= plain_operand(self@, outer@, is_left));
            }
            s
        } else {
            inner
        }
    }

    /// The bracketed ASCII form, which the parser reads back.
    pub fn ascii_string_bracketed(&self) -> (r: String)
        ensures
            r@ == bracketed(self@),
    {
        let mut out = String::new();
        self.write_bracketed(&mut out);
        proof {
            assert(out@ =~= bracketed(self@));
        }
        out
    }
}

} // verus!
