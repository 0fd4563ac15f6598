//! Checks each line of a proof against its justification.

use crate::deduction::{find_line, Justification, Proof, ProofLine};
use crate::formula::{subformula_seq, Formula, FormulaView};
use crate::rules::equivalence::{contains_formula, equiv_forms, equivalence_name, replace_all, EquivalenceRule};
use crate::rules::inference::{arity, conclusions, inference_name, ref_views, InferenceRule};
use crate::rules::technique::{technique_conclusion, technique_name, ProofTechnique};
use crate::scope::{accessible, subproof_accessible, ProofScope};
use crate::text::{decimal, push_decimal, push_text, string_of};
use crate::theorem::ascii_lower;
use crate::truth_table::views;
use vstd::prelude::*;

verus! {

/// The verdict on one line.
#[derive(Debug)]
pub struct VerificationResult {
    pub is_valid: bool,
    pub message: Option<String>,
}

/// Checks proof lines.
pub struct ProofVerifier;

/// The line that `n` refers to.
pub open spec fn line_at(lines: Seq<ProofLine>, n: int) -> ProofLine {
    lines[find_line(lines, n, 0)->0]
}

/// A cited line is usable from line `from`: it is earlier, accessible, exists
/// and is itself valid.
pub open spec fn usable(lines: Seq<ProofLine>, scopes: Seq<ProofScope>, from: int, n: int) -> bool {
    n < from && accessible(scopes, from, n) && find_line(lines, n, 0) is Some && line_at(
        lines,
        n,
    ).is_valid
}

/// For addition, the disjunct of `target` beside the single premise.
pub open spec fn addition_extra(ps: Seq<FormulaView>, target: FormulaView) -> Option<FormulaView> {
    match target {
        FormulaView::Or(l, r) => if ps.len() == 1 {
            if ps[0] == *l {
                Some(*r)
            } else if ps[0] == *r {
                Some(*l)
            } else {
                None
            }
        } else {
            None
        },
        _ => None,
    }
}

/// `target` is `source` rewritten by the rule at its root, or with every
/// occurrence of one of its subformulas rewritten by the rule.
pub open spec fn equivalence_step(rule: EquivalenceRule, source: FormulaView, target: FormulaView) -> bool {
    equiv_forms(rule, source).contains(target) || exists|i: int, j: int|
        0 <= i < subformula_seq(source).len() && 0 <= j < equiv_forms(
            rule,
            subformula_seq(source)[i],
        ).len() && replace_all(
            source,
            subformula_seq(source)[i],
            #[trigger] equiv_forms(rule, subformula_seq(source)[i])[j],
        ) == target
}

/// Is the line justified, given the proof's lines, the theorem's premises
/// and the proof's scopes?
pub open spec fn line_valid(
    line: ProofLine,
    lines: Seq<ProofLine>,
    premises: Seq<FormulaView>,
    scopes: Seq<ProofScope>,
) -> bool {
    let n = line.line_number as int;
    match line.justification {
        Justification::Premise => premises.contains(line.formula@),
        Justification::Assumption { .. } => true,
        Justification::Inference { rule, lines: refs } => {
            let ps = Seq::new(refs@.len(), |k: int| line_at(lines, refs@[k] as int).formula@);
            &&& refs@.len() == arity(rule)
            &&& forall|k: int| 0 <= k < refs@.len() ==> usable(lines, scopes, n, #[trigger] refs@[k] as int)
            &&& conclusions(
                rule,
                ps,
                if rule is Addition {
                    addition_extra(ps, line.formula@)
                } else {
                    None
                },
            ).contains(line.formula@)
        },
        Justification::Equivalence { rule, line: r } => usable(lines, scopes, n, r as int)
            && equivalence_step(rule, line_at(lines, r as int).formula@, line.formula@),
        Justification::SubproofConclusion { technique, subproof_start, subproof_end } => {
            &&& find_line(lines, subproof_start as int, 0) is Some
            &&& find_line(lines, subproof_end as int, 0) is Some
            &&& line_at(lines, subproof_start as int).justification == Justification::Assumption {
                technique,
            }
            &&& subproof_accessible(scopes, n, subproof_start as int, subproof_end as int)
            &&& technique_conclusion(
                technique,
                line_at(lines, subproof_start as int).formula@,
                line_at(lines, subproof_end as int).formula@,
            ) == Some(line.formula@)
        },
    }
}

/// Is the line justified within the proof?
pub open spec fn line_valid_in(line: ProofLine, proof: Proof) -> bool {
    line_valid(line, proof.lines@, views(proof.theorem.premises@), proof.scope_manager@)
}

/// Every atom name made ASCII lower case.
pub open spec fn lower_atoms(f: FormulaView) -> FormulaView
    decreases f,
{
    match f {
        FormulaView::Atom(s) => FormulaView::Atom(s.map_values(|c: char| ascii_lower(c))),
        FormulaView::Not(a) => crate::formula::fnot(lower_atoms(*a)),
        FormulaView::And(a, b) => crate::formula::fand(lower_atoms(*a), lower_atoms(*b)),
        FormulaView::Or(a, b) => crate::formula::f_or(lower_atoms(*a), lower_atoms(*b)),
        FormulaView::Implies(a, b) => crate::formula::fimp(lower_atoms(*a), lower_atoms(*b)),
        FormulaView::Biconditional(a, b) => crate::formula::fbicond(lower_atoms(*a), lower_atoms(*b)),
        FormulaView::Contradiction => f,
    }
}

/// Relies on `str::to_ascii_lowercase`: ASCII letters `A`-`Z` become
/// `a`-`z`, every other character stays as it is.
#[verifier::external_body]
fn ascii_lowercase(s: &str) -> (r: String)
    ensures
        r@ == s@.map_values(|c: char| ascii_lower(c)),
{
    s.to_ascii_lowercase()
}

impl VerificationResult {
    /// A passing verdict.
    pub fn valid() -> (r: Self)
        ensures
            r.is_valid,
            r.message is None,
    {
        VerificationResult { is_valid: true, message: None }
    }

    /// A failing verdict with its reason.
    pub fn invalid(message: String) -> (r: Self)
        ensures
            !r.is_valid,
            r.message == Some(message),
    {
        VerificationResult { is_valid: false, message: Some(message) }
    }
}

fn line_message(parts: &str, n: usize, rest: &str) -> (r: String)
    ensures
        r@ == parts@ + decimal(n as nat) + rest@,
{
    let mut s = string_of(parts);
    push_decimal(&mut s, n);
    push_text(&mut s, rest);
    s
}

fn two_line_message(a: &str, n: usize, b: &str, m: usize, c: &str) -> (r: String)
    ensures
        r@ == a@ + decimal(n as nat) + b@ + decimal(m as nat) + c@,
{
    let mut s = string_of(a);
    push_decimal(&mut s, n);
    push_text(&mut s, b);
    push_decimal(&mut s, m);
    push_text(&mut s, c);
    s
}

fn named_message(a: &str, name: &str, b: &str) -> (r: String)
    ensures
        r@ == a@ + name@ + b@,
{
    let mut s = string_of(a);
    push_text(&mut s, name);
    push_text(&mut s, b);
    s
}

/// The message for a reference to a line that is not earlier.
pub open spec fn forward_message(to: nat, from: nat) -> Seq<char> {
    "Cannot reference line "@ + decimal(to) + " from line "@ + decimal(from) + " (must reference earlier lines)"@
}

/// The message for a wrong number of cited lines.
pub open spec fn count_message(rule: InferenceRule, given: nat) -> Seq<char> {
    inference_name(rule) + " requires "@ + decimal(arity(rule)) + " premise(s), but "@ + decimal(given)
        + " were provided"@
}

/// The message for a rewrite that only fails on the case of atom names.
pub open spec fn case_hint_message(rule: EquivalenceRule) -> Seq<char> {
    "Cannot derive the formula using "@ + equivalence_name(rule)
        + ". Note: Propositional logic is case-sensitive (e.g., 'P' vs 'p'). Check your casing."@
}

/// The message for a subproof closed with another technique than it opened.
pub open spec fn technique_mismatch_message(opened: ProofTechnique, closed: ProofTechnique) -> Seq<char> {
    "Assumption technique ("@ + technique_name(opened) + ")"@ + " does not match conclusion technique ("@
        + technique_name(closed) + ")"@
}

/// The technique an assumption opens with.
pub open spec fn opened_technique(j: Justification) -> Option<ProofTechnique> {
    match j {
        Justification::Assumption { technique } => Some(technique),
        _ => None,
    }
}

/// The message a failing line draws in the cases that spell one out: a
/// wrong number of cited lines, a first unusable citation that is not
/// earlier, a rewrite that holds only up to the case of atom names, and a
/// technique mismatch.
pub open spec fn message_spec(line: ProofLine, proof: Proof, m: Option<String>) -> bool {
    let n = line.line_number as int;
    let lines = proof.lines@;
    let scopes = proof.scope_manager@;
    match line.justification {
        Justification::Inference { rule, lines: refs } => {
            &&& refs@.len() != arity(rule) ==> (m matches Some(t) && t@ == count_message(rule, refs@.len()))
            &&& refs@.len() == arity(rule) ==> forall|j: int|
                0 <= j < refs@.len() && (forall|i: int| 0 <= i < j ==> usable(lines, scopes, n, #[trigger] refs@[i] as int))
                    && refs@[j] >= n ==> (m matches Some(t) && t@ == forward_message(#[trigger] refs@[j] as nat, n as nat))
        },
        Justification::Equivalence { rule, line: k } => {
            &&& k >= n ==> (m matches Some(t) && t@ == forward_message(k as nat, n as nat))
            &&& (usable(lines, scopes, n, k as int) && !equivalence_step(rule, line_at(lines, k as int).formula@, line.formula@)
                && equivalence_step(rule, lower_atoms(line_at(lines, k as int).formula@), lower_atoms(line.formula@)))
                ==> (m matches Some(t) && t@ == case_hint_message(rule))
        },
        Justification::SubproofConclusion { technique, subproof_start, subproof_end } => {
            match opened_technique(line_at(lines, subproof_start as int).justification) {
                Some(opened) => (find_line(lines, subproof_start as int, 0) is Some && find_line(lines, subproof_end as int, 0) is Some
                    && opened != technique) ==> (m matches Some(t) && t@ == technique_mismatch_message(opened, technique)),
                None => true,
            }
        },
        _ => true,
    }
}

impl ProofVerifier {
    /// Checks one line of the proof against its justification.
    pub fn verify_line(line: &ProofLine, proof: &Proof) -> (r: VerificationResult)
        ensures
            r.is_valid == line_valid_in(*line, *proof),
            r.is_valid <==> r.message is None,
            message_spec(*line, *proof, r.message),
    {
        match &line.justification {
            Justification::Premise => Self::verify_premise(line, proof),
            Justification::Assumption { .. } => VerificationResult::valid(),
            Justification::Inference { rule, lines } => Self::verify_inference(
                line,
                *rule,
                lines,
                proof,
            ),
            Justification::Equivalence { rule, line: ref_line } => Self::verify_equivalence(
                line,
                *rule,
                *ref_line,
                proof,
            ),
            Justification::SubproofConclusion { technique, subproof_start, subproof_end } => {
                Self::verify_subproof_conclusion(line, *technique, *subproof_start, *subproof_end, proof)
            },
        }
    }

    fn verify_premise(line: &ProofLine, proof: &Proof) -> (r: VerificationResult)
        ensures
            r.is_valid == views(proof.theorem.premises@).contains(line.formula@),
            r.is_valid <==> r.message is None,
    {
        if contains_formula(&proof.theorem.premises, &line.formula) {
            VerificationResult::valid()
        } else {
            VerificationResult::invalid(string_of("Formula is not a premise of the theorem"))
        }
    }

    /// Looks up a cited line and checks that line `from` may use it.
    fn cited_line<'a>(proof: &'a Proof, from: usize, n: usize) -> (r: Result<&'a ProofLine, String>)
        ensures
            r is Ok <==> usable(proof.lines@, proof.scope_manager@, from as int, n as int),
            r matches Ok(l) ==> *l == line_at(proof.lines@, n as int),
            n >= from ==> (r matches Err(m) && m@ == forward_message(n as nat, from as nat)),
    {
        proof {
            reveal_strlit("Cannot reference line ");
        }
        if n >= from {
            return Err(
                two_line_message(
                    "Cannot reference line ",
                    n,
                    " from line ",
                    from,
                    " (must reference earlier lines)",
                ),
            );
        }
        if !proof.is_line_accessible(from, n) {
            return Err(
                two_line_message(
                    "Line ",
                    n,
                    " is not accessible from line ",
                    from,
                    " (different scope)",
                ),
            );
        }
        match proof.get_line(n) {
            Some(l) => {
                if !l.is_valid {
                    return Err(line_message("Referenced line ", n, " is invalid"));
                }
                Ok(l)
            },
            None => Err(line_message("Referenced line ", n, " does not exist")),
        }
    }

    fn verify_inference(
        line: &ProofLine,
        rule: InferenceRule,
        referenced_lines: &Vec<usize>,
        proof: &Proof,
    ) -> (r: VerificationResult)
        requires
            line.justification == (Justification::Inference { rule, lines: *referenced_lines }),
        ensures
            r.is_valid == line_valid_in(*line, *proof),
            r.is_valid <==> r.message is None,
            message_spec(*line, *proof, r.message),
    {
        let ghost ps = Seq::new(
            referenced_lines@.len(),
            |k: int| line_at(proof.lines@, referenced_lines@[k] as int).formula@,
        );
        if referenced_lines.len() != rule.premise_count() {
            let mut s = string_of(rule.name());
            push_text(&mut s, " requires ");
            push_decimal(&mut s, rule.premise_count());
            push_text(&mut s, " premise(s), but ");
            push_decimal(&mut s, referenced_lines.len());
            push_text(&mut s, " were provided");
            return VerificationResult::invalid(s);
        }
        let mut premises: Vec<&Formula> = Vec::new();
        let mut i: usize = 0;
        while i < referenced_lines.len()
            invariant
                i <= referenced_lines@.len(),
                line.justification == (Justification::Inference { rule, lines: *referenced_lines }),
                referenced_lines@.len() == arity(rule),
                ps.len() == referenced_lines@.len(),
                forall|k: int|
                    0 <= k < referenced_lines@.len() ==> #[trigger] ps[k] == line_at(
                        proof.lines@,
                        referenced_lines@[k] as int,
                    ).formula@,
                premises@.len() == i,
                forall|k: int| 0 <= k < i ==> (#[trigger] premises@[k])@ == ps[k],
                forall|k: int|
                    0 <= k < i ==> usable(
                        proof.lines@,
                        proof.scope_manager@,
                        line.line_number as int,
                        #[trigger] referenced_lines@[k] as int,
                    ),
            decreases referenced_lines@.len() - i,
        {
            match Self::cited_line(proof, line.line_number, referenced_lines[i]) {
                Ok(l) => {
                    premises.push(&l.formula);
                },
                Err(message) => {
                    proof {
                        assert(!usable(
                            proof.lines@,
                            proof.scope_manager@,
                            line.line_number as int,
                            referenced_lines@[i as int] as int,
                        ));
                        let refs = line.justification->lines;
                        assert(refs@ == referenced_lines@);
                        assert(!(forall|k: int|
                            0 <= k < refs@.len() ==> usable(
                                proof.lines@,
                                proof.scope_manager@,
                                line.line_number as int,
                                #[trigger] refs@[k] as int,
                            )));
                    }
                    return VerificationResult::invalid(message);
                },
            }
            i = i + 1;
        }
        proof {
            assert(ref_views(premises@) =~= ps);
        }
        let additional: Option<&Formula> = if rule.requires_formula_input() {
            match &line.formula {
                Formula::Or(left, right) => {
                    if premises.len() == 1 {
                        if premises[0].equals(left) {
                            Some(&**right)
                        } else if premises[0].equals(right) {
                            Some(&**left)
                        } else {
                            None
                        }
                    } else {
                        None
                    }
                },
                _ => None,
            }
        } else {
            None
        };
        if rule.verify(premises.as_slice(), &line.formula, additional) {
            VerificationResult::valid()
        } else {
            VerificationResult::invalid(
                named_message(
                    "The formula does not follow from the given premises using ",
                    rule.name(),
                    "",
                ),
            )
        }
    }

    /// Is `target` reached from `source` by one use of the rule, at the root
    /// or at every occurrence of some subformula?
    fn is_valid_equivalence_application(source: &Formula, target: &Formula, rule: EquivalenceRule) -> (r:
        bool)
        ensures
            r == equivalence_step(rule, source@, target@),
    {
        let top = rule.equivalent_forms(source);
        if contains_formula(&top, target) {
            return true;
        }
        let subs = source.subformulas();
        let mut i: usize = 0;
        while i < subs.len()
            invariant
                i <= subs@.len(),
                subs@.len() == subformula_seq(source@).len(),
                forall|k: int| 0 <= k < subs@.len() ==> #[trigger] subs@[k]@ == subformula_seq(source@)[k],
                !equiv_forms(rule, source@).contains(target@),
                forall|a: int, b: int|
                    0 <= a < i && 0 <= b < equiv_forms(rule, subformula_seq(source@)[a]).len()
                        ==> replace_all(
                        source@,
                        subformula_seq(source@)[a],
                        #[trigger] equiv_forms(rule, subformula_seq(source@)[a])[b],
                    ) != target@,
            decreases subs@.len() - i,
        {
            let forms = rule.equivalent_forms(&subs[i]);
            let mut j: usize = 0;
            while j < forms.len()
                invariant
                    i < subs@.len(),
                    j <= forms@.len(),
                    subs@.len() == subformula_seq(source@).len(),
                    !equiv_forms(rule, source@).contains(target@),
                    forall|a: int, b: int|
                        0 <= a < i && 0 <= b < equiv_forms(rule, subformula_seq(source@)[a]).len()
                            ==> replace_all(
                            source@,
                            subformula_seq(source@)[a],
                            #[trigger] equiv_forms(rule, subformula_seq(source@)[a])[b],
                        ) != target@,
                    subs@[i as int]@ == subformula_seq(source@)[i as int],
                    views(forms@) == equiv_forms(rule, subs@[i as int]@),
                    forall|b: int|
                        0 <= b < j ==> replace_all(source@, subformula_seq(source@)[i as int], equiv_forms(rule, subformula_seq(source@)[i as int])[b]) != target@,
                decreases forms@.len() - j,
            {
                let transformed = EquivalenceRule::replace_subformula(source, &subs[i], &forms[j]);
                proof {
                    assert(views(forms@)[j as int] == forms@[j as int]@);
                }
                if transformed.equals(target) {
                    proof {
                        assert(replace_all(
                            source@,
                            subformula_seq(source@)[i as int],
                            equiv_forms(rule, subformula_seq(source@)[i as int])[j as int],
                        ) == target@);
                    }
                    return true;
                }
                j = j + 1;
            }
            i = i + 1;
        }
        false
    }

    /// The formula with every atom name made ASCII lower case.
    fn to_lowercase_formula(formula: &Formula) -> (r: Formula)
        ensures
            r@ == lower_atoms(formula@),
        decreases formula,
    {
        match formula {
            Formula::Atom(name) => Formula::Atom(ascii_lowercase(name.as_str())),
            Formula::Not(a) => Formula::Not(Box::new(Self::to_lowercase_formula(a))),
            Formula::And(a, b) => Formula::And(
                Box::new(Self::to_lowercase_formula(a)),
                Box::new(Self::to_lowercase_formula(b)),
            ),
            Formula::Or(a, b) => Formula::Or(
                Box::new(Self::to_lowercase_formula(a)),
                Box::new(Self::to_lowercase_formula(b)),
            ),
            Formula::Implies(a, b) => Formula::Implies(
                Box::new(Self::to_lowercase_formula(a)),
                Box::new(Self::to_lowercase_formula(b)),
            ),
            Formula::Biconditional(a, b) => Formula::Biconditional(
                Box::new(Self::to_lowercase_formula(a)),
                Box::new(Self::to_lowercase_formula(b)),
            ),
            Formula::Contradiction => Formula::Contradiction,
        }
    }

    fn verify_equivalence(line: &ProofLine, rule: EquivalenceRule, ref_line: usize, proof: &Proof) -> (r:
        VerificationResult)
        requires
            line.justification == (Justification::Equivalence { rule, line: ref_line }),
        ensures
            r.is_valid == line_valid_in(*line, *proof),
            r.is_valid <==> r.message is None,
            message_spec(*line, *proof, r.message),
    {
        let source = match Self::cited_line(proof, line.line_number, ref_line) {
            Ok(l) => l,
            Err(message) => {
                return VerificationResult::invalid(message);
            },
        };
        if Self::is_valid_equivalence_application(&source.formula, &line.formula, rule) {
            return VerificationResult::valid();
        }
        let lower_source = Self::to_lowercase_formula(&source.formula);
        let lower_target = Self::to_lowercase_formula(&line.formula);
        if Self::is_valid_equivalence_application(&lower_source, &lower_target, rule) {
            return VerificationResult::invalid(
                named_message(
                    "Cannot derive the formula using ",
                    rule.name(),
                    ". Note: Propositional logic is case-sensitive (e.g., 'P' vs 'p'). Check your casing.",
                ),
            );
        }
        let mut s = line_message("Cannot derive the formula from line ", ref_line, " using ");
        push_text(&mut s, rule.name());
        VerificationResult::invalid(s)
    }

    fn verify_subproof_conclusion(
        line: &ProofLine,
        technique: ProofTechnique,
        subproof_start: usize,
        subproof_end: usize,
        proof: &Proof,
    ) -> (r: VerificationResult)
        requires
            line.justification == (Justification::SubproofConclusion {
                technique,
                subproof_start,
                subproof_end,
            }),
        ensures
            r.is_valid == line_valid_in(*line, *proof),
            r.is_valid <==> r.message is None,
            message_spec(*line, *proof, r.message),
    {
        let start_line = match proof.get_line(subproof_start) {
            Some(l) => l,
            None => {
                return VerificationResult::invalid(
                    line_message("Subproof start line ", subproof_start, " does not exist"),
                );
            },
        };
        let end_line = match proof.get_line(subproof_end) {
            Some(l) => l,
            None => {
                return VerificationResult::invalid(
                    line_message("Subproof end line ", subproof_end, " does not exist"),
                );
            },
        };
        let assumption_technique = match &start_line.justification {
            Justification::Assumption { technique } => *technique,
            _ => {
                return VerificationResult::invalid(
                    line_message("Line ", subproof_start, " is not an assumption"),
                );
            },
        };
        if assumption_technique != technique {
            let mut s = named_message("Assumption technique (", assumption_technique.name(), ")");
            push_text(&mut s, " does not match conclusion technique (");
            push_text(&mut s, technique.name());
            push_text(&mut s, ")");
            return VerificationResult::invalid(s);
        }
        if !proof.scope_manager.is_subproof_accessible(line.line_number, subproof_start, subproof_end) {
            let mut s = two_line_message("Subproof lines ", subproof_start, "-", subproof_end, "");
            push_text(&mut s, " are not accessible from line ");
            push_decimal(&mut s, line.line_number);
            return VerificationResult::invalid(s);
        }
        if technique.verify_conclusion(&start_line.formula, &end_line.formula, &line.formula) {
            VerificationResult::valid()
        } else {
            VerificationResult::invalid(
                named_message(
                    "The conclusion does not follow from the subproof using ",
                    technique.name(),
                    "",
                ),
            )
        }
    }

    /// Checks every line in order and records each verdict on its line; a
    /// line is judged with the verdicts already given to the lines before it.
    pub fn verify_proof(proof: &mut Proof)
        ensures
            final(proof).lines@.len() == old(proof).lines@.len(),
            final(proof).theorem == old(proof).theorem,
            final(proof).scope_manager == old(proof).scope_manager,
            final(proof).is_complete == old(proof).is_complete,
            forall|i: int|
                0 <= i < final(proof).lines@.len() ==> {
                    let before = old(proof).lines@[i];
                    let after = #[trigger] final(proof).lines@[i];
                    &&& after == (ProofLine {
                        is_valid: after.is_valid,
                        validation_message: after.validation_message,
                        ..before
                    })
                    &&& after.is_valid == line_valid(
                        before,
                        final(proof).lines@.subrange(0, i) + old(proof).lines@.subrange(
                            i,
                            old(proof).lines@.len() as int,
                        ),
                        views(old(proof).theorem.premises@),
                        old(proof).scope_manager@,
                    )
                    &&& after.is_valid <==> after.validation_message is None
                },
    {
        let mut i: usize = 0;
        while i < proof.lines.len()
            invariant
                i <= proof.lines@.len(),
                proof.lines@.len() == old(proof).lines@.len(),
                proof.theorem == old(proof).theorem,
                proof.scope_manager == old(proof).scope_manager,
                proof.is_complete == old(proof).is_complete,
                forall|k: int| i <= k < proof.lines@.len() ==> #[trigger] proof.lines@[k] == old(proof).lines@[k],
                forall|k: int|
                    0 <= k < i ==> {
                        let before = old(proof).lines@[k];
                        let after = #[trigger] proof.lines@[k];
                        &&& after == (ProofLine {
                            is_valid: after.is_valid,
                            validation_message: after.validation_message,
                            ..before
                        })
                        &&& after.is_valid == line_valid(
                            before,
                            proof.lines@.subrange(0, k) + old(proof).lines@.subrange(
                                k,
                                old(proof).lines@.len() as int,
                            ),
                            views(old(proof).theorem.premises@),
                            old(proof).scope_manager@,
                        )
                        &&& after.is_valid <==> after.validation_message is None
                    },
            decreases proof.lines@.len() - i,
        {
            let ghost before_lines = proof.lines@;
            proof {
                assert(before_lines =~= before_lines.subrange(0, i as int) + old(
                    proof,
                ).lines@.subrange(i as int, old(proof).lines@.len() as int));
            }
            let result = Self::verify_line(&proof.lines[i], proof);
            let mut line = proof.lines.remove(i);
            line.is_valid = result.is_valid;
            line.validation_message = result.message;
            proof.lines.insert(i, line);
            proof {
                assert(proof.lines@ =~= before_lines.update(i as int, line));
                assert forall|k: int| 0 <= k < i + 1 implies {
                    let before = old(proof).lines@[k];
                    let after = #[trigger] proof.lines@[k];
                    &&& after == (ProofLine {
                        is_valid: after.is_valid,
                        validation_message: after.validation_message,
                        ..before
                    })
                    &&& after.is_valid == line_valid(
                        before,
                        proof.lines@.subrange(0, k) + old(proof).lines@.subrange(
                            k,
                            old(proof).lines@.len() as int,
                        ),
                        views(old(proof).theorem.premises@),
                        old(proof).scope_manager@,
                    )
                    &&& after.is_valid <==> after.validation_message is None
                } by {
                    assert(proof.lines@.subrange(0, k) =~= before_lines.subrange(0, k));
                    if k < i {
                        assert(proof.lines@[k] == before_lines[k]);
                    }
                }
            }
            i = i + 1;
        }
    }
}

} // verus!
