//! Theorems and the difficulty settings that the generator works to.

use crate::formula::Formula;
use vstd::prelude::*;

verus! {

/// The four legacy difficulty labels.
#[derive(Debug, Clone, Copy, PartialEq, Eq, Hash, Structural)]
pub enum Difficulty {
    Easy,
    Medium,
    Hard,
    Expert,
}

/// Which argument templates the generator starts from.
#[derive(Debug, Clone, Copy, PartialEq, Eq, Structural)]
pub enum BaseComplexity {
    Simple,
    Complex,
}

/// The pressure the generator is put under.
#[derive(Debug, Clone, Copy, PartialEq, Eq, Structural)]
pub struct DifficultySpec {
    /// Size of the atom pool.
    pub variables: u8,
    /// Number of rewrite passes.
    pub passes: u16,
    /// Successful rewrites aimed for in each pass.
    pub transforms_per_pass: u16,
    pub base_complexity: BaseComplexity,
    /// Depth of the formulas that replace base atoms; 0 for none.
    pub substitution_depth: u16,
    /// Cap on the formula's node count; `None` for the default.
    pub max_formula_nodes: Option<u32>,
    /// Cap on the formula's depth; `None` for the default.
    pub max_formula_depth: Option<u32>,
    /// Atoms shared between two substitution groups; `None` for the default.
    pub bridge_atoms: Option<u8>,
    /// Whether paired rewrite chains are applied first; `None` for the default.
    pub gnarly_combos: Option<bool>,
}

/// The ten named difficulty tiers.
#[derive(Debug, Clone, Copy, PartialEq, Eq, Structural)]
pub enum DifficultyTier {
    Baby,
    Easy,
    Medium,
    Hard,
    Expert,
    Nightmare,
    Marathon,
    Absurd,
    Cosmic,
    Mind,
}

/// The proof pattern a theorem exercises.
#[derive(Debug, Clone, Copy, PartialEq, Eq, Hash, Structural)]
pub enum Theme {
    ModusPonens,
    ModusTollens,
    HypotheticalSyllogism,
    DisjunctiveSyllogism,
    ConstructiveDilemma,
    Conjunction,
    Disjunction,
    DoubleNegation,
    Biconditional,
    ConditionalProof,
    IndirectProof,
    Equivalence,
    Mixed,
}

/// Premises and a conclusion, with labels.
#[derive(Debug)]
pub struct Theorem {
    pub id: String,
    pub premises: Vec<Formula>,
    pub conclusion: Formula,
    pub difficulty: Difficulty,
    pub difficulty_value: u8,
    pub tier: Option<DifficultyTier>,
    pub theme: Option<Theme>,
    pub name: Option<String>,
    pub is_classic: bool,
}

/// A spec with every optional field left to its default.
pub open spec fn plain_spec(
    variables: u8,
    passes: u16,
    transforms_per_pass: u16,
    base_complexity: BaseComplexity,
    substitution_depth: u16,
) -> DifficultySpec {
    DifficultySpec {
        variables,
        passes,
        transforms_per_pass,
        base_complexity,
        substitution_depth,
        max_formula_nodes: None,
        max_formula_depth: None,
        bridge_atoms: None,
        gnarly_combos: None,
    }
}

/// The fixed settings of each tier.
pub open spec fn tier_spec(tier: DifficultyTier) -> DifficultySpec {
    let (v, p, t, c, s, b, g) = match tier {
        DifficultyTier::Baby => (2u8, 1u16, 2u16, BaseComplexity::Simple, 0u16, 0u8, false),
        DifficultyTier::Easy => (2, 1, 2, BaseComplexity::Simple, 0, 0, false),
        DifficultyTier::Medium => (3, 1, 5, BaseComplexity::Simple, 0, 0, false),
        DifficultyTier::Hard => (4, 1, 10, BaseComplexity::Complex, 0, 0, false),
        DifficultyTier::Expert => (5, 1, 15, BaseComplexity::Complex, 2, 0, true),
        DifficultyTier::Nightmare => (5, 2, 12, BaseComplexity::Complex, 3, 1, true),
        DifficultyTier::Marathon => (5, 3, 15, BaseComplexity::Complex, 4, 1, true),
        DifficultyTier::Absurd => (6, 5, 20, BaseComplexity::Complex, 4, 1, true),
        DifficultyTier::Cosmic => (7, 10, 20, BaseComplexity::Complex, 4, 2, true),
        DifficultyTier::Mind => (7, 20, 24, BaseComplexity::Complex, 4, 2, true),
    };
    DifficultySpec { bridge_atoms: Some(b), gnarly_combos: Some(g), ..plain_spec(v, p, t, c, s) }
}

/// The spec that a single 1-100 difficulty value stands for (values outside
/// the range are clamped).
pub open spec fn value_spec(d: u8) -> DifficultySpec {
    let d: int = if d < 1 {
        1
    } else if d > 100 {
        100
    } else {
        d as int
    };
    let variables: u8 = if d <= 40 {
        2
    } else if d <= 60 {
        3
    } else if d <= 80 {
        4
    } else {
        5
    };
    let transforms: int = if d <= 25 {
        1 + (d - 1) * 2 / 24
    } else if d <= 45 {
        3 + (d - 26) * 3 / 19
    } else if d <= 70 {
        6 + (d - 46) * 5 / 24
    } else if d <= 85 {
        11 + (d - 71) * 5 / 14
    } else if d <= 95 {
        16 + (d - 86) * 4 / 9
    } else {
        20 + (d - 96)
    };
    let substitution: u16 = if d <= 69 {
        0
    } else if d <= 84 {
        1
    } else {
        2
    };
    let complexity = if d >= 70 {
        BaseComplexity::Complex
    } else {
        BaseComplexity::Simple
    };
    plain_spec(variables, 1, transforms as u16, complexity, substitution)
}

/// The legacy label of each tier.
pub open spec fn legacy_of(tier: DifficultyTier) -> Difficulty {
    match tier {
        DifficultyTier::Baby | DifficultyTier::Easy => Difficulty::Easy,
        DifficultyTier::Medium => Difficulty::Medium,
        DifficultyTier::Hard => Difficulty::Hard,
        _ => Difficulty::Expert,
    }
}

/// The 1-100 value that stands for each legacy label.
pub open spec fn preset_value(d: Difficulty) -> u8 {
    match d {
        Difficulty::Easy => 13,
        Difficulty::Medium => 35,
        Difficulty::Hard => 58,
        Difficulty::Expert => 85,
    }
}

/// A fresh identifier for a theorem or a proof.
/// Relies on `uuid::Uuid::new_v4` for a random version-4 UUID and on its
/// `to_string` for the hyphenated text form.
#[verifier::external_body]
pub(crate) fn fresh_id() -> String {
    uuid::Uuid::new_v4().to_string()
}

impl DifficultySpec {
    /// The settings of a tier.
    pub fn from_tier(tier: DifficultyTier) -> (r: Self)
        ensures
            r == tier_spec(tier),
    {
        let (v, p, t, c, s, b, g) = match tier {
            DifficultyTier::Baby => (2u8, 1u16, 2u16, BaseComplexity::Simple, 0u16, 0u8, false),
            DifficultyTier::Easy => (2, 1, 2, BaseComplexity::Simple, 0, 0, false),
            DifficultyTier::Medium => (3, 1, 5, BaseComplexity::Simple, 0, 0, false),
            DifficultyTier::Hard => (4, 1, 10, BaseComplexity::Complex, 0, 0, false),
            DifficultyTier::Expert => (5, 1, 15, BaseComplexity::Complex, 2, 0, true),
            DifficultyTier::Nightmare => (5, 2, 12, BaseComplexity::Complex, 3, 1, true),
            DifficultyTier::Marathon => (5, 3, 15, BaseComplexity::Complex, 4, 1, true),
            DifficultyTier::Absurd => (6, 5, 20, BaseComplexity::Complex, 4, 1, true),
            DifficultyTier::Cosmic => (7, 10, 20, BaseComplexity::Complex, 4, 2, true),
            DifficultyTier::Mind => (7, 20, 24, BaseComplexity::Complex, 4, 2, true),
        };
        DifficultySpec {
            variables: v,
            passes: p,
            transforms_per_pass: t,
            base_complexity: c,
            substitution_depth: s,
            max_formula_nodes: None,
            max_formula_depth: None,
            bridge_atoms: Some(b),
            gnarly_combos: Some(g),
        }
    }

    /// The settings that a single 1-100 difficulty value stands for.
    pub fn from_difficulty_value(d: u8) -> (r: Self)
        ensures
            r == value_spec(d),
    {
        let d: usize = if d < 1 {
            1
        } else if d > 100 {
            100
        } else {
            d as usize
        };
        let variables: u8 = if d <= 40 {
            2
        } else if d <= 60 {
            3
        } else if d <= 80 {
            4
        } else {
            5
        };
        let transforms: usize = if d <= 25 {
            1 + (d - 1) * 2 / 24
        } else if d <= 45 {
            3 + (d - 26) * 3 / 19
        } else if d <= 70 {
            6 + (d - 46) * 5 / 24
        } else if d <= 85 {
            11 + (d - 71) * 5 / 14
        } else if d <= 95 {
            16 + (d - 86) * 4 / 9
        } else {
            20 + (d - 96)
        };
        let substitution: u16 = if d <= 69 {
            0
        } else if d <= 84 {
            1
        } else {
            2
        };
        let complexity = if d >= 70 {
            BaseComplexity::Complex
        } else {
            BaseComplexity::Simple
        };
        DifficultySpec {
            variables,
            passes: 1,
            transforms_per_pass: transforms as u16,
            base_complexity: complexity,
            substitution_depth: substitution,
            max_formula_nodes: None,
            max_formula_depth: None,
            bridge_atoms: None,
            gnarly_combos: None,
        }
    }
}

/// Does `s` equal `word` when ASCII letters are compared without case?
/// `word` must be lower case.
fn matches_ignoring_case(s: &str, word: &str) -> (r: bool)
    ensures
        r == (s@.len() == word@.len() && forall|i: int|
            0 <= i < s@.len() ==> ascii_lower(#[trigger] s@[i]) == word@[i]),
{
    let n = s.unicode_len();
    if n != word.unicode_len() {
        return false;
    }
    let mut i: usize = 0;
    while i < n
        invariant
            n == s@.len(),
            n == word@.len(),
            i <= n,
            forall|j: int| 0 <= j < i ==> ascii_lower(#[trigger] s@[j]) == word@[j],
        decreases n - i,
    {
        let c = s.get_char(i);
        let lower = if 'A' <= c && c <= 'Z' {
            ((c as u8) + 32) as char
        } else {
            c
        };
        if lower != word.get_char(i) {
            return false;
        }
        i = i + 1;
    }
    true
}

/// A character with ASCII upper-case letters made lower case.
pub open spec fn ascii_lower(c: char) -> char {
    if 'A' <= c && c <= 'Z' {
        ((c as u8) + 32) as char
    } else {
        c
    }
}

/// The tier whose lower-case name is `word`.
pub open spec fn tier_named(word: Seq<char>) -> Option<DifficultyTier> {
    if word == "baby"@ {
        Some(DifficultyTier::Baby)
    } else if word == "easy"@ {
        Some(DifficultyTier::Easy)
    } else if word == "medium"@ {
        Some(DifficultyTier::Medium)
    } else if word == "hard"@ {
        Some(DifficultyTier::Hard)
    } else if word == "expert"@ {
        Some(DifficultyTier::Expert)
    } else if word == "nightmare"@ {
        Some(DifficultyTier::Nightmare)
    } else if word == "marathon"@ {
        Some(DifficultyTier::Marathon)
    } else if word == "absurd"@ {
        Some(DifficultyTier::Absurd)
    } else if word == "cosmic"@ {
        Some(DifficultyTier::Cosmic)
    } else if word == "mind"@ {
        Some(DifficultyTier::Mind)
    } else {
        None
    }
}

impl DifficultyTier {
    /// The tier named by `s`, ignoring ASCII case.
    pub fn from_str(s: &str) -> (r: Option<Self>)
        ensures
            r == tier_named(s@.map_values(|c: char| ascii_lower(c))),
    {
        let ghost lower = s@.map_values(|c: char| ascii_lower(c));
        let words = [
            "baby",
            "easy",
            "medium",
            "hard",
            "expert",
            "nightmare",
            "marathon",
            "absurd",
            "cosmic",
            "mind",
        ];
        let tiers = [
            DifficultyTier::Baby,
            DifficultyTier::Easy,
            DifficultyTier::Medium,
            DifficultyTier::Hard,
            DifficultyTier::Expert,
            DifficultyTier::Nightmare,
            DifficultyTier::Marathon,
            DifficultyTier::Absurd,
            DifficultyTier::Cosmic,
            DifficultyTier::Mind,
        ];
        let mut i: usize = 0;
        while i < 10
            invariant
                i <= 10,
                words@ == seq![
                    "baby",
                    "easy",
                    "medium",
                    "hard",
                    "expert",
                    "nightmare",
                    "marathon",
                    "absurd",
                    "cosmic",
                    "mind",
                ],
                tiers@ == seq![
                    DifficultyTier::Baby,
                    DifficultyTier::Easy,
                    DifficultyTier::Medium,
                    DifficultyTier::Hard,
                    DifficultyTier::Expert,
                    DifficultyTier::Nightmare,
                    DifficultyTier::Marathon,
                    DifficultyTier::Absurd,
                    DifficultyTier::Cosmic,
                    DifficultyTier::Mind,
                ],
                lower == s@.map_values(|c: char| ascii_lower(c)),
                forall|j: int| 0 <= j < i ==> lower != (#[trigger] words@[j])@,
            decreases 10 - i,
        {
            if matches_ignoring_case(s, words[i]) {
                proof {
                    assert(lower =~= words@[i as int]@);
                    assert forall|j: int| 0 <= j < i implies lower != (#[trigger] words@[j])@ by {}
                }
                return Some(tiers[i]);
            }
            proof {
                if lower == words@[i as int]@ {
                    assert forall|k: int| 0 <= k < s@.len() implies ascii_lower(#[trigger] s@[k])
                        == words@[i as int]@[k] by {
                        assert(lower[k] == ascii_lower(s@[k]));
                    }
                }
            }
            i = i + 1;
        }
        None
    }

    /// The tier's display name.
    pub fn label(&self) -> (r: &'static str)
        ensures
            r@ == match *self {
                DifficultyTier::Baby => "Baby"@,
                DifficultyTier::Easy => "Easy"@,
                DifficultyTier::Medium => "Medium"@,
                DifficultyTier::Hard => "Hard"@,
                DifficultyTier::Expert => "Expert"@,
                DifficultyTier::Nightmare => "Nightmare"@,
                DifficultyTier::Marathon => "Marathon"@,
                DifficultyTier::Absurd => "Absurd"@,
                DifficultyTier::Cosmic => "Cosmic"@,
                DifficultyTier::Mind => "Mind"@,
            },
    {
        match self {
            DifficultyTier::Baby => "Baby",
            DifficultyTier::Easy => "Easy",
            DifficultyTier::Medium => "Medium",
            DifficultyTier::Hard => "Hard",
            DifficultyTier::Expert => "Expert",
            DifficultyTier::Nightmare => "Nightmare",
            DifficultyTier::Marathon => "Marathon",
            DifficultyTier::Absurd => "Absurd",
            DifficultyTier::Cosmic => "Cosmic",
            DifficultyTier::Mind => "Mind",
        }
    }

    /// The legacy label that the tier falls under.
    pub fn to_legacy_difficulty(&self) -> (r: Difficulty)
        ensures
            r == legacy_of(*self),
    {
        match self {
            DifficultyTier::Baby | DifficultyTier::Easy => Difficulty::Easy,
            DifficultyTier::Medium => Difficulty::Medium,
            DifficultyTier::Hard => Difficulty::Hard,
            _ => Difficulty::Expert,
        }
    }

    /// All ten tiers, easiest first.
    pub fn all() -> (r: Vec<DifficultyTier>)
        ensures
            r@ == seq![
                DifficultyTier::Baby,
                DifficultyTier::Easy,
                DifficultyTier::Medium,
                DifficultyTier::Hard,
                DifficultyTier::Expert,
                DifficultyTier::Nightmare,
                DifficultyTier::Marathon,
                DifficultyTier::Absurd,
                DifficultyTier::Cosmic,
                DifficultyTier::Mind,
            ],
    {
        let r = vec![
            DifficultyTier::Baby,
            DifficultyTier::Easy,
            DifficultyTier::Medium,
            DifficultyTier::Hard,
            DifficultyTier::Expert,
            DifficultyTier::Nightmare,
            DifficultyTier::Marathon,
            DifficultyTier::Absurd,
            DifficultyTier::Cosmic,
            DifficultyTier::Mind,
        ];
        proof {
            assert(r@ =~= seq![
                DifficultyTier::Baby,
                DifficultyTier::Easy,
                DifficultyTier::Medium,
                DifficultyTier::Hard,
                DifficultyTier::Expert,
                DifficultyTier::Nightmare,
                DifficultyTier::Marathon,
                DifficultyTier::Absurd,
                DifficultyTier::Cosmic,
                DifficultyTier::Mind,
            ]);
        }
        r
    }
}

/// The label of a 1-100 value in the theorem wire format.
pub fn difficulty_label(value: u8) -> (r: String)
    ensures
        value <= 25 ==> r@ == "Easy"@,
        26 <= value <= 45 ==> r@ == "Medium"@,
        46 <= value <= 70 ==> r@ == "Hard"@,
        71 <= value <= 85 ==> r@ == "Expert"@,
        86 <= value <= 95 ==> r@ == "Nightmare"@,
        96 <= value ==> r@ == "Marathon"@,
{
    if value <= 25 {
        crate::text::string_of("Easy")
    } else if value <= 45 {
        crate::text::string_of("Medium")
    } else if value <= 70 {
        crate::text::string_of("Hard")
    } else if value <= 85 {
        crate::text::string_of("Expert")
    } else if value <= 95 {
        crate::text::string_of("Nightmare")
    } else {
        crate::text::string_of("Marathon")
    }
}

impl Difficulty {
    /// The label's display name.
    pub fn display_name(&self) -> (r: &'static str)
        ensures
            r@ == match *self {
                Difficulty::Easy => "Easy"@,
                Difficulty::Medium => "Medium"@,
                Difficulty::Hard => "Hard"@,
                Difficulty::Expert => "Expert"@,
            },
    {
        match self {
            Difficulty::Easy => "Easy",
            Difficulty::Medium => "Medium",
            Difficulty::Hard => "Hard",
            Difficulty::Expert => "Expert",
        }
    }
}

impl Theme {
    /// The theme's display name.
    pub fn display_name(&self) -> (r: &'static str)
        ensures
            r@ == match *self {
                Theme::ModusPonens => "Modus Ponens"@,
                Theme::ModusTollens => "Modus Tollens"@,
                Theme::HypotheticalSyllogism => "Hypothetical Syllogism"@,
                Theme::DisjunctiveSyllogism => "Disjunctive Syllogism"@,
                Theme::ConstructiveDilemma => "Constructive Dilemma"@,
                Theme::Conjunction => "Conjunction"@,
                Theme::Disjunction => "Disjunction"@,
                Theme::DoubleNegation => "Double Negation"@,
                Theme::Biconditional => "Biconditional"@,
                Theme::ConditionalProof => "Conditional Proof"@,
                Theme::IndirectProof => "Indirect Proof"@,
                Theme::Equivalence => "Equivalence"@,
                Theme::Mixed => "Mixed"@,
            },
    {
        match self {
            Theme::ModusPonens => "Modus Ponens",
            Theme::ModusTollens => "Modus Tollens",
            Theme::HypotheticalSyllogism => "Hypothetical Syllogism",
            Theme::DisjunctiveSyllogism => "Disjunctive Syllogism",
            Theme::ConstructiveDilemma => "Constructive Dilemma",
            Theme::Conjunction => "Conjunction",
            Theme::Disjunction => "Disjunction",
            Theme::DoubleNegation => "Double Negation",
            Theme::Biconditional => "Biconditional",
            Theme::ConditionalProof => "Conditional Proof",
            Theme::IndirectProof => "Indirect Proof",
            Theme::Equivalence => "Equivalence",
            Theme::Mixed => "Mixed",
        }
    }
}

impl Clone for Theorem {
    fn clone(&self) -> (r: Self)
        ensures
            r.id == self.id,
            r.premises@ == self.premises@,
            r.conclusion == self.conclusion,
            r.difficulty == self.difficulty,
            r.difficulty_value == self.difficulty_value,
            r.tier == self.tier,
            r.theme == self.theme,
            r.name == self.name,
            r.is_classic == self.is_classic,
    {
        let mut premises: Vec<Formula> = Vec::new();
        let mut i: usize = 0;
        while i < self.premises.len()
            invariant
                i <= self.premises@.len(),
                premises@ == self.premises@.subrange(0, i as int),
            decreases self.premises@.len() - i,
        {
            premises.push(self.premises[i].clone());
            i = i + 1;
            proof {
                assert(premises@ =~= self.premises@.subrange(0, i as int));
            }
        }
        proof {
            assert(premises@ =~= self.premises@);
        }
        Theorem {
            id: self.id.clone(),
            premises,
            conclusion: self.conclusion.clone(),
            difficulty: self.difficulty,
            difficulty_value: self.difficulty_value,
            tier: self.tier,
            theme: self.theme,
            name: match &self.name {
                Some(n) => Some(n.clone()),
                None => None,
            },
            is_classic: self.is_classic,
        }
    }
}

impl Theorem {
    /// A theorem with the 1-100 value of its legacy label and a fresh id.
    pub fn new(
        premises: Vec<Formula>,
        conclusion: Formula,
        difficulty: Difficulty,
        theme: Option<Theme>,
        name: Option<String>,
    ) -> (r: Self)
        ensures
            r.premises == premises,
            r.conclusion == conclusion,
            r.difficulty == difficulty,
            r.difficulty_value == preset_value(difficulty),
            r.tier is None,
            r.theme == theme,
            r.name == name,
            !r.is_classic,
    {
        let difficulty_value = Self::default_value_for_preset(difficulty);
        Self::with_difficulty_value(premises, conclusion, difficulty, difficulty_value, theme, name)
    }

    /// A theorem with the given 1-100 value and a fresh id.
    pub fn with_difficulty_value(
        premises: Vec<Formula>,
        conclusion: Formula,
        difficulty: Difficulty,
        difficulty_value: u8,
        theme: Option<Theme>,
        name: Option<String>,
    ) -> (r: Self)
        ensures
            r.premises == premises,
            r.conclusion == conclusion,
            r.difficulty == difficulty,
            r.difficulty_value == difficulty_value,
            r.tier is None,
            r.theme == theme,
            r.name == name,
            !r.is_classic,
    {
        Theorem {
            id: fresh_id(),
            premises,
            conclusion,
            difficulty,
            difficulty_value,
            tier: None,
            theme,
            name,
            is_classic: false,
        }
    }

    /// A theorem generated for a tier, with a fresh id.
    pub fn from_tier(
        premises: Vec<Formula>,
        conclusion: Formula,
        tier: DifficultyTier,
        theme: Option<Theme>,
    ) -> (r: Self)
        ensures
            r.premises == premises,
            r.conclusion == conclusion,
            r.difficulty == legacy_of(tier),
            r.difficulty_value == 100,
            r.tier == Some(tier),
            r.theme == theme,
            r.name is None,
            !r.is_classic,
    {
        Theorem {
            id: fresh_id(),
            premises,
            conclusion,
            difficulty: tier.to_legacy_difficulty(),
            difficulty_value: 100,
            tier: Some(tier),
            theme,
            name: None,
            is_classic: false,
        }
    }

    /// `premises ⊢ conclusion` in symbol form, premises separated by commas.
    pub fn display_string(&self) -> String {
        let mut s = String::new();
        let mut i: usize = 0;
        while i < self.premises.len()
            invariant
                i <= self.premises@.len(),
            decreases self.premises@.len() - i,
        {
            if i > 0 {
                crate::text::push_text(&mut s, ", ");
            }
            let p = self.premises[i].display_string();
            crate::text::push_text(&mut s, p.as_str());
            i = i + 1;
        }
        if self.premises.len() > 0 {
            crate::text::push_text(&mut s, " ");
        }
        crate::text::push_text(&mut s, "⊢ ");
        let c = self.conclusion.display_string();
        crate::text::push_text(&mut s, c.as_str());
        s
    }

    /// The 1-100 value that stands for a legacy label.
    pub fn default_value_for_preset(difficulty: Difficulty) -> (r: u8)
        ensures
            r == preset_value(difficulty),
    {
        match difficulty {
            Difficulty::Easy => 13,
            Difficulty::Medium => 35,
            Difficulty::Hard => 58,
            Difficulty::Expert => 85,
        }
    }
}

} // verus!
