//! Subproof scopes and which lines a line may refer to.

use crate::formula::Formula;
use crate::rules::technique::ProofTechnique;
use crate::text::{decimal, lemma_decimal_injective, push_decimal, string_of};
use vstd::prelude::*;

verus! {

/// One subproof: opened by an assumption at `start_line`, closed once
/// `end_line` is set.
#[derive(Debug)]
pub struct ProofScope {
    pub id: String,
    pub start_line: usize,
    pub end_line: Option<usize>,
    pub assumption: Formula,
    pub technique: ProofTechnique,
    pub depth: usize,
    pub parent_scope_id: Option<String>,
}

/// Does the scope cover the line? A closed scope covers its range
/// inclusively, an open one every line from its start on.
pub open spec fn covers(s: ProofScope, line: int) -> bool {
    match s.end_line {
        Some(end) => s.start_line <= line <= end,
        None => s.start_line <= line,
    }
}

/// How many of the scopes are open.
pub open spec fn open_count(s: Seq<ProofScope>) -> nat
    decreases s.len(),
{
    if s.len() == 0 {
        0
    } else {
        open_count(s.drop_last()) + if s.last().end_line is None {
            1nat
        } else {
            0nat
        }
    }
}

/// How many of the scopes cover the line.
pub open spec fn cover_count(s: Seq<ProofScope>, line: int) -> nat
    decreases s.len(),
{
    if s.len() == 0 {
        0
    } else {
        cover_count(s.drop_last(), line) + if covers(s.last(), line) {
            1nat
        } else {
            0nat
        }
    }
}

/// The index of the innermost (last) open scope.
pub open spec fn last_open(s: Seq<ProofScope>) -> Option<int>
    decreases s.len(),
{
    if s.len() == 0 {
        None
    } else if s.last().end_line is None {
        Some(s.len() - 1)
    } else {
        last_open(s.drop_last())
    }
}

/// The index of the last open scope that starts at `start`.
pub open spec fn last_open_at(s: Seq<ProofScope>, start: int) -> Option<int>
    decreases s.len(),
{
    if s.len() == 0 {
        None
    } else if s.last().end_line is None && s.last().start_line == start {
        Some(s.len() - 1)
    } else {
        last_open_at(s.drop_last(), start)
    }
}

/// The index of the first scope at or after `i` with the identifier `id`.
pub open spec fn find_id_from(s: Seq<ProofScope>, id: Seq<char>, i: int) -> Option<int>
    decreases s.len() - i,
{
    if i < 0 || i >= s.len() {
        None
    } else if s[i].id@ == id {
        Some(i)
    } else {
        find_id_from(s, id, i + 1)
    }
}

/// The index of the first scope at or after `i` spanning exactly the lines
/// `start` to `end`.
pub open spec fn find_range_from(s: Seq<ProofScope>, start: int, end: int, i: int) -> Option<int>
    decreases s.len() - i,
{
    if i < 0 || i >= s.len() {
        None
    } else if s[i].start_line == start && s[i].end_line == Some(end as usize) {
        Some(i)
    } else {
        find_range_from(s, start, end, i + 1)
    }
}

/// A line may refer to an earlier line unless that line lies in a scope
/// that does not also cover the referring line.
pub open spec fn accessible(s: Seq<ProofScope>, from: int, to: int) -> bool {
    to < from && forall|i: int| 0 <= i < s.len() && covers(#[trigger] s[i], to) ==> covers(s[i], from)
}

/// `n + 1`, or the largest `usize` where that does not fit.
pub open spec fn saturating_inc(n: nat) -> usize {
    if n < usize::MAX {
        (n + 1) as usize
    } else {
        usize::MAX
    }
}

/// The identifier given to the n-th scope.
pub open spec fn scope_label(n: nat) -> Seq<char> {
    seq!['s', 'c', 'o', 'p', 'e', '-'] + decimal(n)
}

impl ProofScope {
    /// A new open scope.
    pub fn new(
        id: String,
        start_line: usize,
        assumption: Formula,
        technique: ProofTechnique,
        depth: usize,
        parent_scope_id: Option<String>,
    ) -> (r: Self)
        ensures
            r.id == id,
            r.start_line == start_line,
            r.end_line is None,
            r.assumption == assumption,
            r.technique == technique,
            r.depth == depth,
            r.parent_scope_id == parent_scope_id,
    {
        ProofScope { id, start_line, end_line: None, assumption, technique, depth, parent_scope_id }
    }

    /// Is the scope still open?
    pub fn is_open(&self) -> (r: bool)
        ensures
            r == (self.end_line is None),
    {
        self.end_line.is_none()
    }

    /// Closes the scope at `end_line`.
    pub fn close(&mut self, end_line: usize)
        ensures
            *final(self) == (ProofScope { end_line: Some(end_line), ..*old(self) }),
    {
        self.end_line = Some(end_line);
    }

    /// Does the scope cover the line?
    pub fn contains_line(&self, line_number: usize) -> (r: bool)
        ensures
            r == covers(*self, line_number as int),
    {
        match self.end_line {
            Some(end) => line_number >= self.start_line && line_number <= end,
            None => line_number >= self.start_line,
        }
    }
}

impl Clone for ProofScope {
    fn clone(&self) -> (r: Self)
        ensures
            r == *self,
    {
        ProofScope {
            id: self.id.clone(),
            start_line: self.start_line,
            end_line: self.end_line,
            assumption: self.assumption.clone(),
            technique: self.technique,
            depth: self.depth,
            parent_scope_id: match &self.parent_scope_id {
                Some(p) => Some(p.clone()),
                None => None,
            },
        }
    }
}

/// The scopes of a proof, in the order in which they were opened.
#[derive(Debug)]
pub struct ScopeManager {
    scopes: Vec<ProofScope>,
    next_scope_id: usize,
}

impl Clone for ScopeManager {
    fn clone(&self) -> (r: Self)
        ensures
            r@ == self@,
    {
        let mut scopes: Vec<ProofScope> = Vec::new();
        let mut i: usize = 0;
        while i < self.scopes.len()
            invariant
                i <= self.scopes@.len(),
                scopes@ == self.scopes@.subrange(0, i as int),
            decreases self.scopes@.len() - i,
        {
            scopes.push(self.scopes[i].clone());
            i = i + 1;
            proof {
                assert(scopes@ =~= self.scopes@.subrange(0, i as int));
            }
        }
        proof {
            assert(scopes@ =~= self.scopes@);
        }
        ScopeManager { scopes, next_scope_id: self.next_scope_id }
    }
}

impl View for ScopeManager {
    type V = Seq<ProofScope>;

    closed spec fn view(&self) -> Seq<ProofScope> {
        self.scopes@
    }
}

impl ScopeManager {
    /// The number the next scope's identifier will carry.
    pub closed spec fn next_id(&self) -> nat {
        self.next_scope_id as nat
    }

    /// Every scope's identifier carries a number below `next_id`.
    pub closed spec fn ids_below_next(&self) -> bool {
        forall|i: int|
            0 <= i < self.scopes@.len() ==> exists|k: nat| k < self.next_scope_id && (#[trigger] self.scopes@[i]).id@ == scope_label(k)
    }

    /// No scopes yet.
    pub fn new() -> (r: Self)
        ensures
            r@ == Seq::<ProofScope>::empty(),
            r.next_id() == 1,
            r.ids_below_next(),
    {
        ScopeManager { scopes: Vec::new(), next_scope_id: 1 }
    }

    /// Opens a scope at `start_line`, nested in the currently open ones, and
    /// returns its identifier.
    pub fn open_scope(&mut self, start_line: usize, assumption: Formula, technique: ProofTechnique) -> (r:
        String)
        ensures
            r@ == scope_label(old(self).next_id()),
            final(self).next_id() == if old(self).next_id() < usize::MAX {
                old(self).next_id() + 1
            } else {
                old(self).next_id()
            },
            final(self)@ == old(self)@.push(
                ProofScope {
                    id: final(self)@.last().id,
                    start_line,
                    end_line: None,
                    assumption,
                    technique,
                    depth: saturating_inc(open_count(old(self)@)),
                    parent_scope_id: final(self)@.last().parent_scope_id,
                },
            ),
            final(self)@.last().id == r,
            old(self).ids_below_next() && old(self).next_id() < usize::MAX ==> final(self).ids_below_next()
                && forall|i: int| 0 <= i < old(self)@.len() ==> (#[trigger] old(self)@[i]).id@ != r@,
            match last_open(old(self)@) {
                Some(k) => final(self)@.last().parent_scope_id is Some
                    && final(self)@.last().parent_scope_id->0@ == old(self)@[k].id@,
                None => final(self)@.last().parent_scope_id is None,
            },
    {
        let depth = self.current_depth().saturating_add(1);
        let parent_id = self.current_scope_id();
        let mut scope_id = string_of("scope-");
        proof {
            reveal_strlit("scope-");
            assert(scope_id@ =~= seq!['s', 'c', 'o', 'p', 'e', '-']);
        }
        push_decimal(&mut scope_id, self.next_scope_id);
        self.next_scope_id = self.next_scope_id.saturating_add(1);
        proof {
            lemma_open_count_bound(old(self)@);
        }
        let scope = ProofScope::new(scope_id.clone(), start_line, assumption, technique, depth, parent_id);
        self.scopes.push(scope);
        proof {
            if old(self).ids_below_next() && old(self).next_id() < usize::MAX {
                let n = old(self).next_scope_id as nat;
                assert forall|i: int| 0 <= i < old(self)@.len() implies (#[trigger] old(self)@[i]).id@ != scope_id@ by {
                    let k = choose|k: nat| k < old(self).next_scope_id && old(self).scopes@[i].id@ == scope_label(k);
                    if old(self)@[i].id@ == scope_id@ {
                        assert(scope_label(k) == scope_label(n));
                        assert(decimal(k) =~= scope_label(k).subrange(6, scope_label(k).len() as int));
                        assert(decimal(n) =~= scope_label(n).subrange(6, scope_label(n).len() as int));
                        lemma_decimal_injective(k, n);
                    }
                }
                assert forall|i: int| 0 <= i < self.scopes@.len() implies exists|k: nat| k < self.next_scope_id && (#[trigger] self.scopes@[i]).id@ == scope_label(k) by {
                    if i < old(self).scopes@.len() {
                        assert(self.scopes@[i] == old(self).scopes@[i]);
                        let k = choose|k: nat| k < old(self).next_scope_id && old(self).scopes@[i].id@ == scope_label(k);
                        assert(k < self.next_scope_id);
                    } else {
                        assert(self.scopes@[i].id@ == scope_label(n));
                    }
                }
            }
        }
        scope_id
    }

    /// Closes the innermost open scope at `end_line` and returns it.
    pub fn close_scope(&mut self, end_line: usize) -> (r: Option<ProofScope>)
        ensures
            final(self).next_id() == old(self).next_id(),
            old(self).ids_below_next() ==> final(self).ids_below_next(),
            match last_open(old(self)@) {
                Some(k) => final(self)@ == old(self)@.update(
                    k,
                    ProofScope { end_line: Some(end_line), ..old(self)@[k] },
                ) && r == Some(final(self)@[k]),
                None => final(self)@ == old(self)@ && r is None,
            },
    {
        let mut i = self.scopes.len();
        proof {
            assert(self.scopes@.subrange(0, i as int) =~= self.scopes@);
        }
        while i > 0
            invariant
                i <= self.scopes@.len(),
                self.scopes@ == old(self).scopes@,
                self.next_scope_id == old(self).next_scope_id,
                last_open(self.scopes@) == last_open(self.scopes@.subrange(0, i as int)),
            decreases i,
        {
            proof {
                let s = self.scopes@.subrange(0, i as int);
                assert(s.drop_last() =~= self.scopes@.subrange(0, i - 1));
            }
            if self.scopes[i - 1].is_open() {
                let mut scope = self.scopes[i - 1].clone();
                scope.close(end_line);
                let copy = scope.clone();
                self.scopes.set(i - 1, scope);
                return Some(copy);
            }
            i = i - 1;
        }
        proof {
            assert(self.scopes@.subrange(0, 0) =~= Seq::<ProofScope>::empty());
        }
        None
    }

    /// Removes the last open scope that starts at `start_line` and returns it.
    pub fn pop_scope(&mut self, start_line: usize) -> (r: Option<ProofScope>)
        ensures
            final(self).next_id() == old(self).next_id(),
            old(self).ids_below_next() ==> final(self).ids_below_next(),
            match last_open_at(old(self)@, start_line as int) {
                Some(k) => final(self)@ == old(self)@.remove(k) && r == Some(old(self)@[k]),
                None => final(self)@ == old(self)@ && r is None,
            },
    {
        let mut i = self.scopes.len();
        proof {
            assert(self.scopes@.subrange(0, i as int) =~= self.scopes@);
        }
        while i > 0
            invariant
                i <= self.scopes@.len(),
                self.scopes@ == old(self).scopes@,
                self.next_scope_id == old(self).next_scope_id,
                last_open_at(self.scopes@, start_line as int) == last_open_at(
                    self.scopes@.subrange(0, i as int),
                    start_line as int,
                ),
            decreases i,
        {
            proof {
                let s = self.scopes@.subrange(0, i as int);
                assert(s.drop_last() =~= self.scopes@.subrange(0, i - 1));
            }
            if self.scopes[i - 1].start_line == start_line && self.scopes[i - 1].is_open() {
                return Some(self.scopes.remove(i - 1));
            }
            i = i - 1;
        }
        proof {
            assert(self.scopes@.subrange(0, 0) =~= Seq::<ProofScope>::empty());
        }
        None
    }

    /// How many scopes are open.
    pub fn current_depth(&self) -> (r: usize)
        ensures
            r == open_count(self@),
    {
        let mut count: usize = 0;
        let mut i: usize = 0;
        while i < self.scopes.len()
            invariant
                i <= self.scopes@.len(),
                count == open_count(self.scopes@.subrange(0, i as int)),
                count <= i,
            decreases self.scopes@.len() - i,
        {
            proof {
                let s = self.scopes@.subrange(0, i + 1);
                assert(s.drop_last() =~= self.scopes@.subrange(0, i as int));
            }
            if self.scopes[i].is_open() {
                count = count + 1;
            }
            i = i + 1;
        }
        proof {
            assert(self.scopes@.subrange(0, i as int) =~= self.scopes@);
        }
        count
    }

    fn innermost_open(&self) -> (r: Option<usize>)
        ensures
            match r {
                Some(i) => last_open(self@) == Some(i as int) && i < self@.len(),
                None => last_open(self@) is None,
            },
            last_open(self@) matches Some(k) ==> 0 <= k < self@.len() && self@[k].end_line is None,
    {
        proof {
            lemma_last_open_bounds(self@);
        }
        let mut i = self.scopes.len();
        proof {
            assert(self.scopes@.subrange(0, i as int) =~= self.scopes@);
        }
        while i > 0
            invariant
                i <= self.scopes@.len(),
                last_open(self.scopes@) == last_open(self.scopes@.subrange(0, i as int)),
            decreases i,
        {
            proof {
                let s = self.scopes@.subrange(0, i as int);
                assert(s.drop_last() =~= self.scopes@.subrange(0, i - 1));
            }
            if self.scopes[i - 1].is_open() {
                return Some(i - 1);
            }
            i = i - 1;
        }
        proof {
            assert(self.scopes@.subrange(0, 0) =~= Seq::<ProofScope>::empty());
        }
        None
    }

    /// The identifier of the innermost open scope.
    pub fn current_scope_id(&self) -> (r: Option<String>)
        ensures
            match last_open(self@) {
                Some(k) => r is Some && r->0 == self@[k].id,
                None => r is None,
            },
    {
        match self.innermost_open() {
            Some(k) => Some(self.scopes[k].id.clone()),
            None => None,
        }
    }

    /// The innermost open scope.
    pub fn current_scope(&self) -> (r: Option<&ProofScope>)
        ensures
            match last_open(self@) {
                Some(k) => r is Some && *r->0 == self@[k],
                None => r is None,
            },
    {
        match self.innermost_open() {
            Some(k) => Some(&self.scopes[k]),
            None => None,
        }
    }

    /// The first scope with the given identifier.
    pub fn get_scope(&self, scope_id: &str) -> (r: Option<&ProofScope>)
        ensures
            match find_id_from(self@, scope_id@, 0) {
                Some(k) => r is Some && *r->0 == self@[k],
                None => r is None,
            },
    {
        let mut i: usize = 0;
        while i < self.scopes.len()
            invariant
                i <= self.scopes@.len(),
                find_id_from(self@, scope_id@, 0) == find_id_from(self@, scope_id@, i as int),
            decreases self.scopes@.len() - i,
        {
            if crate::formula::str_eq(self.scopes[i].id.as_str(), scope_id) {
                return Some(&self.scopes[i]);
            }
            i = i + 1;
        }
        None
    }

    /// How many scopes cover the line.
    pub fn depth_at_line(&self, line_number: usize) -> (r: usize)
        ensures
            r == cover_count(self@, line_number as int),
    {
        let mut count: usize = 0;
        let mut i: usize = 0;
        while i < self.scopes.len()
            invariant
                i <= self.scopes@.len(),
                count == cover_count(self.scopes@.subrange(0, i as int), line_number as int),
                count <= i,
            decreases self.scopes@.len() - i,
        {
            proof {
                let s = self.scopes@.subrange(0, i + 1);
                assert(s.drop_last() =~= self.scopes@.subrange(0, i as int));
            }
            if self.scopes[i].contains_line(line_number) {
                count = count + 1;
            }
            i = i + 1;
        }
        proof {
            assert(self.scopes@.subrange(0, i as int) =~= self.scopes@);
        }
        count
    }

    /// May line `from_line` refer to line `to_line`? Only to an earlier
    /// line, and never into a scope that does not cover `from_line`.
    pub fn is_accessible(&self, from_line: usize, to_line: usize) -> (r: bool)
        ensures
            r == accessible(self@, from_line as int, to_line as int),
    {
        if to_line >= from_line {
            return false;
        }
        let mut i: usize = 0;
        while i < self.scopes.len()
            invariant
                i <= self.scopes@.len(),
                forall|j: int|
                    0 <= j < i && covers(#[trigger] self@[j], to_line as int) ==> covers(
                        self@[j],
                        from_line as int,
                    ),
            decreases self.scopes@.len() - i,
        {
            if self.scopes[i].contains_line(to_line) && !self.scopes[i].contains_line(from_line) {
                return false;
            }
            i = i + 1;
        }
        true
    }

    /// May line `from_line` cite the closed subproof `start_line`-`end_line`?
    /// Such a scope must exist, and its parent must cover `from_line`; a
    /// subproof without a parent lies in the main proof, which covers every
    /// line.
    pub fn is_subproof_accessible(&self, from_line: usize, start_line: usize, end_line: usize) -> (r:
        bool)
        ensures
            r == subproof_accessible(self@, from_line as int, start_line as int, end_line as int),
    {
        if end_line >= from_line {
            return false;
        }
        let mut i: usize = 0;
        while i < self.scopes.len()
            invariant
                i <= self.scopes@.len(),
                end_line < from_line,
                find_range_from(self@, start_line as int, end_line as int, 0) == find_range_from(
                    self@,
                    start_line as int,
                    end_line as int,
                    i as int,
                ),
            decreases self.scopes@.len() - i,
        {
            let s = &self.scopes[i];
            if s.start_line == start_line && s.end_line == Some(end_line) {
                proof {
                    assert(find_range_from(self@, start_line as int, end_line as int, i as int)
                        == Some(i as int));
                }
                match &s.parent_scope_id {
                    Some(parent_id) => {
                        match self.get_scope(parent_id.as_str()) {
                            Some(parent) => {
                                return parent.contains_line(from_line);
                            },
                            None => {},
                        }
                    },
                    None => {},
                }
                return true;
            }
            i = i + 1;
        }
        false
    }

    /// All scopes, in the order in which they were opened.
    pub fn all_scopes(&self) -> (r: &[ProofScope])
        ensures
            r@ == self@,
    {
        self.scopes.as_slice()
    }

    /// Is any scope open?
    pub fn has_open_scopes(&self) -> (r: bool)
        ensures
            r == (last_open(self@) is Some),
    {
        self.innermost_open().is_some()
    }

    /// Forgets all scopes.
    pub fn reset(&mut self)
        ensures
            final(self)@ == Seq::<ProofScope>::empty(),
            final(self).next_id() == 1,
            final(self).ids_below_next(),
    {
        self.scopes.clear();
        self.next_scope_id = 1;
    }
}

/// The condition under which a closed subproof may be cited; see
/// `ScopeManager::is_subproof_accessible`.
pub open spec fn subproof_accessible(s: Seq<ProofScope>, from: int, start: int, end: int) -> bool {
    end < from && match find_range_from(s, start, end, 0) {
        None => false,
        Some(k) => {
            let parent = match s[k].parent_scope_id {
                Some(pid) => find_id_from(s, pid@, 0),
                None => None,
            };
            match parent {
                Some(pk) => covers(s[pk], from),
                None => true,
            }
        },
    }
}

/// Every reference that the scope rules allow points to an earlier line,
/// and every scope holding the target line is still open or also holds the
/// referring line.
pub proof fn law_accessible_reference(s: Seq<ProofScope>, from: int, to: int)
    requires
        accessible(s, from, to),
    ensures
        to < from,
        forall|i: int|
            0 <= i < s.len() && covers(#[trigger] s[i], to) ==> s[i].end_line is None || covers(
                s[i],
                from,
            ),
{
}

proof fn lemma_open_count_bound(s: Seq<ProofScope>)
    ensures
        open_count(s) <= s.len(),
    decreases s.len(),
{
    if s.len() > 0 {
        lemma_open_count_bound(s.drop_last());
    }
}

proof fn lemma_last_open_bounds(s: Seq<ProofScope>)
    ensures
        last_open(s) matches Some(k) ==> 0 <= k < s.len() && s[k].end_line is None,
    decreases s.len(),
{
    if s.len() > 0 {
        lemma_last_open_bounds(s.drop_last());
    }
}

} // verus!
