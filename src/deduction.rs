//! A natural-deduction proof under construction: its lines and its scopes.

use crate::formula::{fimp, Formula, FormulaView};
use crate::rules::equivalence::{equivalence_abbreviation, EquivalenceRule};
use crate::rules::inference::{inference_abbreviation, InferenceRule};
use crate::rules::technique::{
    is_contradiction, is_contradiction_spec, technique_abbreviation, technique_conclusion, ProofTechnique,
};
use crate::scope::{accessible, last_open, open_count, ProofScope, ScopeManager};
use crate::text::{decimal, push_decimal, push_text, string_of};
use crate::theorem::{fresh_id, Theorem};
use vstd::prelude::*;

verus! {

/// Why a line may stand where it does.
#[derive(Debug)]
pub enum Justification {
    /// A premise of the theorem.
    Premise,
    /// The assumption that opens a subproof.
    Assumption { technique: ProofTechnique },
    /// An argument form applied to earlier lines.
    Inference { rule: InferenceRule, lines: Vec<usize> },
    /// An equivalence rewrite of an earlier line.
    Equivalence { rule: EquivalenceRule, line: usize },
    /// The discharge of the subproof spanning `subproof_start`-`subproof_end`.
    SubproofConclusion { technique: ProofTechnique, subproof_start: usize, subproof_end: usize },
}

/// One line of a proof.
#[derive(Debug)]
pub struct ProofLine {
    pub id: String,
    pub line_number: usize,
    pub formula: Formula,
    pub justification: Justification,
    pub depth: usize,
    pub scope_id: Option<String>,
    pub is_valid: bool,
    pub validation_message: Option<String>,
}

/// A proof of a theorem: its lines and the subproof scopes among them.
#[derive(Debug)]
pub struct Proof {
    pub id: String,
    pub theorem: Theorem,
    pub lines: Vec<ProofLine>,
    pub scope_manager: ScopeManager,
    pub is_complete: bool,
}

pub(crate) fn copy_numbers(v: &Vec<usize>) -> (r: Vec<usize>)
    ensures
        r@ == v@,
{
    let mut out: Vec<usize> = Vec::new();
    let mut i: usize = 0;
    while i < v.len()
        invariant
            i <= v@.len(),
            out@ == v@.subrange(0, i as int),
        decreases v@.len() - i,
    {
        out.push(v[i]);
        i = i + 1;
        proof {
            assert(out@ =~= v@.subrange(0, i as int));
        }
    }
    proof {
        assert(out@ =~= v@);
    }
    out
}

impl Clone for Justification {
    fn clone(&self) -> (r: Self)
        ensures
            match (r, *self) {
                (
                    Justification::Inference { rule: r1, lines: l1 },
                    Justification::Inference { rule: r2, lines: l2 },
                ) => r1 == r2 && l1@ == l2@,
                _ => r == *self,
            },
            r is Inference <==> *self is Inference,
    {
        match self {
            Justification::Premise => Justification::Premise,
            Justification::Assumption { technique } => Justification::Assumption {
                technique: *technique,
            },
            Justification::Inference { rule, lines } => Justification::Inference {
                rule: *rule,
                lines: copy_numbers(lines),
            },
            Justification::Equivalence { rule, line } => Justification::Equivalence {
                rule: *rule,
                line: *line,
            },
            Justification::SubproofConclusion { technique, subproof_start, subproof_end } => {
                Justification::SubproofConclusion {
                    technique: *technique,
                    subproof_start: *subproof_start,
                    subproof_end: *subproof_end,
                }
            },
        }
    }
}

/// The line numbers a justification cites.
pub open spec fn cited_lines(j: Justification) -> Seq<usize> {
    match j {
        Justification::Premise | Justification::Assumption { .. } => Seq::empty(),
        Justification::Inference { lines, .. } => lines@,
        Justification::Equivalence { line, .. } => seq![line],
        Justification::SubproofConclusion { subproof_start, subproof_end, .. } => seq![
            subproof_start,
            subproof_end,
        ],
    }
}

/// Line numbers written out, separated by `, `.
pub open spec fn lines_text(ls: Seq<usize>) -> Seq<char>
    decreases ls.len(),
{
    if ls.len() == 0 {
        Seq::empty()
    } else if ls.len() == 1 {
        decimal(ls[0] as nat)
    } else {
        lines_text(ls.drop_last()) + ", "@ + decimal(ls.last() as nat)
    }
}

/// How a justification is written beside its line.
pub open spec fn justification_text(j: Justification) -> Seq<char> {
    match j {
        Justification::Premise => "Premise"@,
        Justification::Assumption { technique } => "Assumption ("@ + technique_abbreviation(technique) + ")"@,
        Justification::Inference { rule, lines } => inference_abbreviation(rule) + " "@ + lines_text(lines@),
        Justification::Equivalence { rule, line } => equivalence_abbreviation(rule) + " "@ + decimal(line as nat),
        Justification::SubproofConclusion { technique, subproof_start, subproof_end } => technique_abbreviation(technique)
            + " "@ + decimal(subproof_start as nat) + "-"@ + decimal(subproof_end as nat),
    }
}

impl Justification {
    /// The justification as written beside a line: `Premise`,
    /// `Assumption (CP)`, `MP 1, 2`, `DN 3` or `CP 2-5`.
    pub fn display_string(&self) -> (r: String)
        ensures
            r@ == justification_text(*self),
    {
        proof {
            reveal_strlit("Premise");
            reveal_strlit("Assumption (");
            reveal_strlit(")");
            reveal_strlit(" ");
            reveal_strlit(", ");
            reveal_strlit("-");
        }
        match self {
            Justification::Premise => string_of("Premise"),
            Justification::Assumption { technique } => {
                let mut s = string_of("Assumption (");
                push_text(&mut s, technique.abbreviation());
                push_text(&mut s, ")");
                s
            },
            Justification::Inference { rule, lines } => {
                let mut s = string_of(rule.abbreviation());
                push_text(&mut s, " ");
                let ghost head = s@;
                let mut i: usize = 0;
                proof {
                    assert(lines@.subrange(0, 0) =~= Seq::<usize>::empty());
                    assert(head + lines_text(lines@.subrange(0, 0)) =~= s@);
                }
                while i < lines.len()
                    invariant
                        i <= lines@.len(),
                        s@ == head + lines_text(lines@.subrange(0, i as int)),
                    decreases lines@.len() - i,
                {
                    let ghost before = s@;
                    if i > 0 {
                        push_text(&mut s, ", ");
                    }
                    push_decimal(&mut s, lines[i]);
                    proof {
                        let t = lines@.subrange(0, i + 1);
                        assert(t.drop_last() =~= lines@.subrange(0, i as int));
                        if i == 0 {
                            assert(s@ =~= head + lines_text(t));
                        } else {
                            assert(s@ =~= head + lines_text(t));
                        }
                    }
                    i = i + 1;
                }
                proof {
                    assert(lines@.subrange(0, i as int) =~= lines@);
                }
                s
            },
            Justification::Equivalence { rule, line } => {
                let mut s = string_of(rule.abbreviation());
                push_text(&mut s, " ");
                push_decimal(&mut s, *line);
                s
            },
            Justification::SubproofConclusion { technique, subproof_start, subproof_end } => {
                let mut s = string_of(technique.abbreviation());
                push_text(&mut s, " ");
                push_decimal(&mut s, *subproof_start);
                push_text(&mut s, "-");
                push_decimal(&mut s, *subproof_end);
                proof {
                    assert(s@ =~= justification_text(*self));
                }
                s
            },
        }
    }

    /// The line numbers the justification cites.
    pub fn referenced_lines(&self) -> (r: Vec<usize>)
        ensures
            r@ == cited_lines(*self),
    {
        match self {
            Justification::Premise | Justification::Assumption { .. } => Vec::new(),
            Justification::Inference { lines, .. } => copy_numbers(lines),
            Justification::Equivalence { line, .. } => {
                let r = vec![*line];
                proof {
                    assert(r@ =~= seq![*line]);
                }
                r
            },
            Justification::SubproofConclusion { subproof_start, subproof_end, .. } => {
                let r = vec![*subproof_start, *subproof_end];
                proof {
                    assert(r@ =~= seq![*subproof_start, *subproof_end]);
                }
                r
            },
        }
    }
}

impl ProofLine {
    /// A valid line with a fresh id.
    pub fn new(
        line_number: usize,
        formula: Formula,
        justification: Justification,
        depth: usize,
        scope_id: Option<String>,
    ) -> (r: Self)
        ensures
            r.line_number == line_number,
            r.formula == formula,
            r.justification == justification,
            r.depth == depth,
            r.scope_id == scope_id,
            r.is_valid,
            r.validation_message is None,
    {
        ProofLine {
            id: fresh_id(),
            line_number,
            formula,
            justification,
            depth,
            scope_id,
            is_valid: true,
            validation_message: None,
        }
    }

    /// Records the verdict on the line.
    pub fn set_valid(&mut self, valid: bool, message: Option<String>)
        ensures
            *final(self) == (ProofLine { is_valid: valid, validation_message: message, ..*old(self) }),
    {
        self.is_valid = valid;
        self.validation_message = message;
    }
}

/// The index of the first line numbered `n`.
pub open spec fn find_line(lines: Seq<ProofLine>, n: int, i: int) -> Option<int>
    decreases lines.len() - i,
{
    if i < 0 || i >= lines.len() {
        None
    } else if lines[i].line_number == n {
        Some(i)
    } else {
        find_line(lines, n, i + 1)
    }
}

/// Is the proof done: no open scope, the conclusion stands as a valid line
/// at depth 0, and every line is valid?
pub open spec fn complete_spec(lines: Seq<ProofLine>, scopes: Seq<ProofScope>, conclusion: FormulaView) -> bool {
    last_open(scopes) is None && (exists|i: int|
        0 <= i < lines.len() && (#[trigger] lines[i]).depth == 0 && lines[i].formula@ == conclusion
            && lines[i].is_valid) && forall|i: int| 0 <= i < lines.len() ==> (#[trigger] lines[i]).is_valid
}

/// The conclusion that closing the innermost open scope would call for:
/// for conditional proof the assumption implies the last line; for
/// indirect proof the opposite of the assumption, once some line of the
/// scope is a syntactic contradiction (the latest such line is taken).
pub open spec fn auto_close(lines: Seq<ProofLine>, scopes: Seq<ProofScope>) -> Option<(ProofTechnique, FormulaView)> {
    match last_open(scopes) {
        None => None,
        Some(k) => {
            let scope = scopes[k];
            match scope.technique {
                ProofTechnique::IndirectProof => match last_contradiction(lines, scope.start_line as int, lines.len() as int) {
                    Some(i) => match technique_conclusion(scope.technique, scope.assumption@, lines[i].formula@) {
                        Some(c) => Some((scope.technique, c)),
                        None => None,
                    },
                    None => None,
                },
                ProofTechnique::ConditionalProof => if lines.len() > 0 && lines.last().line_number >= scope.start_line {
                    Some((scope.technique, fimp(scope.assumption@, lines.last().formula@)))
                } else {
                    None
                },
            }
        },
    }
}

/// Walking back from line index `n - 1` while line numbers are at least
/// `start`, the index of the first syntactic contradiction met.
pub open spec fn last_contradiction(lines: Seq<ProofLine>, start: int, n: int) -> Option<int>
    decreases n,
{
    if n <= 0 || n > lines.len() {
        None
    } else if lines[n - 1].line_number < start {
        None
    } else if is_contradiction_spec(lines[n - 1].formula@) {
        Some(n - 1)
    } else {
        last_contradiction(lines, start, n - 1)
    }
}

/// The line appended by `add_line` and its kin.
pub open spec fn appended(
    line_number: int,
    formula: Formula,
    justification: Justification,
    depth: int,
    scope_id: Option<String>,
    l: ProofLine,
) -> bool {
    l.line_number == line_number && l.formula == formula && l.justification == justification
        && l.depth == depth && l.scope_id == scope_id && l.is_valid && l.validation_message is None
}

impl Proof {
    /// A proof whose first lines are the theorem's premises, at depth 0.
    pub fn new(theorem: Theorem) -> (r: Self)
        ensures
            r.theorem == theorem,
            r.lines@.len() == theorem.premises@.len(),
            forall|i: int|
                0 <= i < r.lines@.len() ==> #[trigger] appended(
                    i + 1,
                    theorem.premises@[i],
                    Justification::Premise,
                    0,
                    None,
                    r.lines@[i],
                ),
            r.scope_manager@ == Seq::<ProofScope>::empty(),
            !r.is_complete,
    {
        let mut lines: Vec<ProofLine> = Vec::new();
        let mut i: usize = 0;
        while i < theorem.premises.len()
            invariant
                i <= theorem.premises@.len(),
                lines@.len() == i,
                forall|j: int|
                    0 <= j < i ==> #[trigger] appended(
                        j + 1,
                        theorem.premises@[j],
                        Justification::Premise,
                        0,
                        None,
                        lines@[j],
                    ),
            decreases theorem.premises@.len() - i,
        {
            let line = ProofLine::new(
                i + 1,
                theorem.premises[i].clone(),
                Justification::Premise,
                0,
                None,
            );
            lines.push(line);
            i = i + 1;
        }
        Proof {
            id: fresh_id(),
            theorem,
            lines,
            scope_manager: ScopeManager::new(),
            is_complete: false,
        }
    }

    /// The number of the last line (0 when there are none).
    pub fn current_line_number(&self) -> (r: usize)
        ensures
            r == self.lines@.len(),
    {
        self.lines.len()
    }

    /// The number the next line will get.
    pub fn next_line_number(&self) -> (r: usize)
        requires
            self.lines@.len() < usize::MAX,
        ensures
            r == self.lines@.len() + 1,
    {
        self.lines.len() + 1
    }

    /// How many scopes are open.
    pub fn current_depth(&self) -> (r: usize)
        ensures
            r == open_count(self.scope_manager@),
    {
        self.scope_manager.current_depth()
    }

    /// The first line numbered `line_number`.
    pub fn get_line(&self, line_number: usize) -> (r: Option<&ProofLine>)
        ensures
            match find_line(self.lines@, line_number as int, 0) {
                Some(k) => r is Some && *r->0 == self.lines@[k],
                None => r is None,
            },
    {
        let mut i: usize = 0;
        while i < self.lines.len()
            invariant
                i <= self.lines@.len(),
                find_line(self.lines@, line_number as int, 0) == find_line(
                    self.lines@,
                    line_number as int,
                    i as int,
                ),
            decreases self.lines@.len() - i,
        {
            if self.lines[i].line_number == line_number {
                return Some(&self.lines[i]);
            }
            i = i + 1;
        }
        None
    }

    /// The first line numbered `line_number`, for changing its verdict.
    pub fn get_line_mut(&mut self, line_number: usize) -> (r: Option<&mut ProofLine>)
        ensures
            match find_line(old(self).lines@, line_number as int, 0) {
                Some(k) => r is Some,
                None => r is None,
            },
    {
        let mut i: usize = 0;
        while i < self.lines.len()
            invariant
                i <= self.lines@.len(),
                self.lines@ == old(self).lines@,
                find_line(self.lines@, line_number as int, 0) == find_line(
                    self.lines@,
                    line_number as int,
                    i as int,
                ),
            decreases self.lines@.len() - i,
        {
            if self.lines[i].line_number == line_number {
                return Some(&mut self.lines[i]);
            }
            i = i + 1;
        }
        None
    }

    /// Appends a line at the current depth, in the innermost open scope.
    pub fn add_line(&mut self, formula: Formula, justification: Justification) -> (r: &ProofLine)
        requires
            old(self).lines@.len() < usize::MAX,
        ensures
            final(self).theorem == old(self).theorem,
            final(self).scope_manager == old(self).scope_manager,
            final(self).lines@.len() == old(self).lines@.len() + 1,
            final(self).lines@.drop_last() == old(self).lines@,
            appended(
                (old(self).lines@.len() + 1) as int,
                formula,
                justification,
                open_count(old(self).scope_manager@) as int,
                final(self).lines@.last().scope_id,
                final(self).lines@.last(),
            ),
            match last_open(old(self).scope_manager@) {
                Some(k) => final(self).lines@.last().scope_id == Some(old(self).scope_manager@[k].id),
                None => final(self).lines@.last().scope_id is None,
            },
            *r == final(self).lines@.last(),
    {
        let line_number = self.next_line_number();
        let depth = self.current_depth();
        let scope_id = self.scope_manager.current_scope_id();
        let line = ProofLine::new(line_number, formula, justification, depth, scope_id);
        self.lines.push(line);
        proof {
            assert(self.lines@.drop_last() =~= old(self).lines@);
        }
        let n = self.lines.len();
        &self.lines[n - 1]
    }

    /// Opens a subproof: pushes a scope and appends its assumption line
    /// inside it.
    pub fn open_subproof(&mut self, assumption: Formula, technique: ProofTechnique) -> (r: &ProofLine)
        requires
            old(self).lines@.len() < usize::MAX,
        ensures
            final(self).theorem == old(self).theorem,
            final(self).lines@.len() == old(self).lines@.len() + 1,
            final(self).lines@.drop_last() == old(self).lines@,
            final(self).scope_manager@.len() == old(self).scope_manager@.len() + 1,
            final(self).scope_manager@.drop_last() == old(self).scope_manager@,
            final(self).scope_manager@.last().start_line == old(self).lines@.len() + 1,
            final(self).scope_manager@.last().end_line is None,
            final(self).scope_manager@.last().assumption == assumption,
            final(self).scope_manager@.last().technique == technique,
            appended(
                (old(self).lines@.len() + 1) as int,
                assumption,
                Justification::Assumption { technique },
                open_count(final(self).scope_manager@) as int,
                Some(final(self).scope_manager@.last().id),
                final(self).lines@.last(),
            ),
            *r == final(self).lines@.last(),
    {
        let line_number = self.next_line_number();
        let scope_id = self.scope_manager.open_scope(line_number, assumption.clone(), technique);
        let depth = self.current_depth();
        let line = ProofLine::new(
            line_number,
            assumption,
            Justification::Assumption { technique },
            depth,
            Some(scope_id),
        );
        self.lines.push(line);
        proof {
            assert(self.lines@.drop_last() =~= old(self).lines@);
            assert(self.scope_manager@.drop_last() =~= old(self).scope_manager@);
        }
        let n = self.lines.len();
        &self.lines[n - 1]
    }

    /// Closes the innermost open subproof just before the next line and
    /// appends `conclusion` as its discharge, one level out. `None`, and no
    /// change, when no subproof is open.
    pub fn close_subproof(&mut self, conclusion: Formula, technique: ProofTechnique) -> (r: Option<
        &ProofLine,
    >)
        requires
            old(self).lines@.len() < usize::MAX,
        ensures
            final(self).theorem == old(self).theorem,
            match last_open(old(self).scope_manager@) {
                None => r is None && final(self).lines@ == old(self).lines@
                    && final(self).scope_manager@ == old(self).scope_manager@,
                Some(k) => {
                    &&& final(self).scope_manager@ == old(self).scope_manager@.update(
                        k,
                        ProofScope {
                            end_line: Some(old(self).lines@.len() as usize),
                            ..old(self).scope_manager@[k]
                        },
                    )
                    &&& final(self).lines@.drop_last() == old(self).lines@
                    &&& final(self).lines@.len() == old(self).lines@.len() + 1
                    &&& appended(
                        (old(self).lines@.len() + 1) as int,
                        conclusion,
                        Justification::SubproofConclusion {
                            technique,
                            subproof_start: old(self).scope_manager@[k].start_line,
                            subproof_end: old(self).lines@.len() as usize,
                        },
                        open_count(final(self).scope_manager@) as int,
                        final(self).lines@.last().scope_id,
                        final(self).lines@.last(),
                    )
                    &&& r is Some && *r->0 == final(self).lines@.last()
                },
            },
    {
        let subproof_start = match self.scope_manager.current_scope() {
            Some(scope) => scope.start_line,
            None => {
                return None;
            },
        };
        let end_line = self.next_line_number();
        self.scope_manager.close_scope(end_line - 1);
        let depth = self.current_depth();
        let scope_id = self.scope_manager.current_scope_id();
        let line = ProofLine::new(
            end_line,
            conclusion,
            Justification::SubproofConclusion { technique, subproof_start, subproof_end: end_line - 1 },
            depth,
            scope_id,
        );
        self.lines.push(line);
        proof {
            assert(self.lines@.drop_last() =~= old(self).lines@);
        }
        let n = self.lines.len();
        Some(&self.lines[n - 1])
    }

    /// Removes the last line, unless it is a premise; removing an
    /// assumption also removes the scope it opened.
    pub fn remove_last_line(&mut self) -> (r: Option<ProofLine>)
        ensures
            final(self).theorem == old(self).theorem,
            old(self).lines@.len() <= old(self).theorem.premises@.len() ==> r is None
                && final(self).lines@ == old(self).lines@
                && final(self).scope_manager@ == old(self).scope_manager@,
            old(self).lines@.len() > old(self).theorem.premises@.len() ==> {
                &&& r == Some(old(self).lines@.last())
                &&& final(self).lines@ == old(self).lines@.drop_last()
                &&& old(self).lines@.last().justification is Assumption ==> match crate::scope::last_open_at(
                    old(self).scope_manager@,
                    old(self).lines@.last().line_number as int,
                ) {
                    Some(k) => final(self).scope_manager@ == old(self).scope_manager@.remove(k),
                    None => final(self).scope_manager@ == old(self).scope_manager@,
                }
                &&& !(old(self).lines@.last().justification is Assumption)
                    ==> final(self).scope_manager@ == old(self).scope_manager@
            },
    {
        if self.lines.len() <= self.theorem.premises.len() {
            return None;
        }
        let removed = self.lines.pop();
        match &removed {
            Some(line) => {
                match line.justification {
                    Justification::Assumption { .. } => {
                        self.scope_manager.pop_scope(line.line_number);
                    },
                    _ => {},
                }
            },
            None => {},
        }
        proof {
            assert(self.lines@ =~= old(self).lines@.drop_last());
        }
        removed
    }

    /// May line `from_line` refer to line `to_line`?
    pub fn is_line_accessible(&self, from_line: usize, to_line: usize) -> (r: bool)
        ensures
            r == accessible(self.scope_manager@, from_line as int, to_line as int),
    {
        self.scope_manager.is_accessible(from_line, to_line)
    }

    /// Records and returns whether the proof is complete: no open scope,
    /// the conclusion stands as a valid line at depth 0, every line valid.
    pub fn check_complete(&mut self) -> (r: bool)
        ensures
            r == complete_spec(old(self).lines@, old(self).scope_manager@, old(self).theorem.conclusion@),
            final(self).is_complete == r,
            final(self).lines == old(self).lines,
            final(self).theorem == old(self).theorem,
            final(self).scope_manager == old(self).scope_manager,
    {
        if self.scope_manager.has_open_scopes() {
            self.is_complete = false;
            return false;
        }
        let mut has_conclusion = false;
        let mut all_valid = true;
        let mut i: usize = 0;
        while i < self.lines.len()
            invariant
                i <= self.lines@.len(),
                has_conclusion == exists|j: int|
                    0 <= j < i && (#[trigger] self.lines@[j]).depth == 0 && self.lines@[j].formula@
                        == self.theorem.conclusion@ && self.lines@[j].is_valid,
                all_valid == forall|j: int| 0 <= j < i ==> (#[trigger] self.lines@[j]).is_valid,
            decreases self.lines@.len() - i,
        {
            let l = &self.lines[i];
            if l.depth == 0 && l.is_valid && l.formula.equals(&self.theorem.conclusion) {
                has_conclusion = true;
            }
            if !l.is_valid {
                all_valid = false;
            }
            i = i + 1;
        }
        self.is_complete = has_conclusion && all_valid;
        self.is_complete
    }

    /// The lines that the next line may refer to, in increasing order.
    pub fn accessible_lines(&self) -> (r: Vec<usize>)
        requires
            self.lines@.len() < usize::MAX,
        ensures
            forall|n: usize|
                #[trigger] r@.contains(n) <==> 1 <= n <= self.lines@.len() && accessible(
                    self.scope_manager@,
                    (self.lines@.len() + 1) as int,
                    n as int,
                ),
            forall|i: int, j: int| 0 <= i < j < r@.len() ==> r@[i] < r@[j],
    {
        let current = self.next_line_number();
        let mut out: Vec<usize> = Vec::new();
        let mut line: usize = 1;
        while line < current
            invariant
                1 <= line <= current,
                current == self.lines@.len() + 1,
                forall|k: int| 0 <= k < out@.len() ==> 1 <= #[trigger] out@[k] < line,
                forall|i: int, j: int| 0 <= i < j < out@.len() ==> out@[i] < out@[j],
                forall|n: usize|
                    1 <= n < line ==> (#[trigger] out@.contains(n) <==> accessible(
                        self.scope_manager@,
                        current as int,
                        n as int,
                    )),
            decreases current - line,
        {
            let ghost before = out@;
            let ok = self.is_line_accessible(current, line);
            if ok {
                out.push(line);
            }
            proof {
                assert forall|n: usize| 1 <= n < line + 1 implies (#[trigger] out@.contains(n)
                    <==> accessible(self.scope_manager@, current as int, n as int)) by {
                    if ok {
                        assert(out@ == before.push(line));
                        if n < line {
                            if out@.contains(n) {
                                let k = choose|k: int| 0 <= k < out@.len() && out@[k] == n;
                                assert(k < before.len());
                                assert(before[k] == n);
                            }
                            if before.contains(n) {
                                let k = choose|k: int| 0 <= k < before.len() && before[k] == n;
                                assert(out@[k] == n);
                            }
                        } else {
                            assert(out@[out@.len() - 1] == line);
                        }
                    } else {
                        if n == line && out@.contains(n) {
                            let k = choose|k: int| 0 <= k < out@.len() && out@[k] == n;
                            assert(out@[k] < line);
                        }
                    }
                }
            }
            line = line + 1;
        }
        proof {
            assert forall|n: usize| #[trigger] out@.contains(n) implies 1 <= n <= self.lines@.len() by {
                let k = choose|k: int| 0 <= k < out@.len() && out@[k] == n;
                assert(1 <= out@[k] < line);
            }
        }
        out
    }

    /// The technique and conclusion with which the innermost open subproof
    /// can be closed, if it can be.
    pub fn get_auto_close_conclusion(&self) -> (r: Option<(ProofTechnique, Formula)>)
        ensures
            match auto_close(self.lines@, self.scope_manager@) {
                Some((t, c)) => r matches Some((t2, c2)) && t2 == t && c2@ == c,
                None => r is None,
            },
    {
        let scope = match self.scope_manager.current_scope() {
            Some(s) => s,
            None => {
                return None;
            },
        };
        let ghost k = last_open(self.scope_manager@)->0;
        let technique = scope.technique;
        let start = scope.start_line;
        if technique.requires_contradiction() {
            let mut n = self.lines.len();
            while n > 0
                invariant
                    n <= self.lines@.len(),
                    last_open(self.scope_manager@) == Some(k),
                    *scope == self.scope_manager@[k],
                    technique == scope.technique,
                    start == scope.start_line,
                    technique is IndirectProof,
                    last_contradiction(self.lines@, start as int, self.lines@.len() as int)
                        == last_contradiction(self.lines@, start as int, n as int),
                decreases n,
            {
                let line = &self.lines[n - 1];
                if line.line_number < start {
                    return None;
                }
                if is_contradiction(&line.formula) {
                    return match technique.get_conclusion(&scope.assumption, &line.formula) {
                        Some(c) => Some((technique, c)),
                        None => None,
                    };
                }
                n = n - 1;
            }
            None
        } else {
            let n = self.lines.len();
            if n == 0 {
                return None;
            }
            let last = &self.lines[n - 1];
            if last.line_number < start {
                return None;
            }
            match technique.get_conclusion(&scope.assumption, &last.formula) {
                Some(c) => Some((technique, c)),
                None => None,
            }
        }
    }
}

} // verus!
