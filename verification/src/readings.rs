use vstd::prelude::*;

verus! {

/// Part of speech of a reading, as far as the syntax layer tells them
/// apart.
#[derive(Debug, Clone, Copy, PartialEq, Eq, Structural, PartialOrd, Ord, Hash)]
pub enum PartOfSpeech {
    Noun,
    Adjective,
    Verb,
    Participle,
    Gerund,
    Pronoun,
    Numeral,
    Predicative,
    Preposition,
    Other,
}

/// Adjectives, participles and numerals are the parts of speech that
/// modify a noun.
pub open spec fn spec_can_modify_noun(p: PartOfSpeech) -> bool {
    p == PartOfSpeech::Adjective || p == PartOfSpeech::Participle || p == PartOfSpeech::Numeral
}

impl PartOfSpeech {
    pub fn can_modify_noun(self) -> (r: bool)
        ensures
            r == spec_can_modify_noun(self),
    {
        match self {
            PartOfSpeech::Adjective | PartOfSpeech::Participle | PartOfSpeech::Numeral => true,
            _ => false,
        }
    }
}

#[derive(Debug, Clone, Copy, PartialEq, Eq, Structural, PartialOrd, Ord, Hash)]
pub enum Case {
    Nominative,
    Genitive,
    Dative,
    Accusative,
    Instrumental,
    Prepositional,
}

#[derive(Debug, Clone, Copy, PartialEq, Eq, Structural, PartialOrd, Ord, Hash)]
pub enum Number {
    Singular,
    Plural,
}

#[derive(Debug, Clone, Copy, PartialEq, Eq, Structural, PartialOrd, Ord, Hash)]
pub enum VerbForm {
    Finite,
    Infinitive,
}

#[derive(Debug, Clone, Copy, PartialEq, Eq, Structural, PartialOrd, Ord, Hash)]
pub enum AdjectiveForm {
    Full,
    Short,
}

#[derive(Debug, Clone, Copy, PartialEq, Eq, Structural, PartialOrd, Ord, Hash)]
pub enum Gender {
    Masculine,
    Feminine,
    Neuter,
}

#[derive(Debug, Clone, Copy, PartialEq, Eq, Structural, PartialOrd, Ord, Hash)]
pub enum Person {
    First,
    Second,
    Third,
}

/// The grammatical features of a reading that the syntax layer reads.
#[derive(Debug, Clone, Copy, PartialEq, Eq, Structural)]
pub struct MorphFeatures {
    pub case: Option<Case>,
    pub number: Option<Number>,
    pub gender: Option<Gender>,
    pub person: Option<Person>,
    pub verb_form: Option<VerbForm>,
    pub adjective_form: Option<AdjectiveForm>,
}

/// One morphological reading of a word: its lemma, part of speech and
/// features.
#[derive(Debug, Clone, PartialEq, Eq)]
pub struct MorphAnalysis {
    pub lemma: String,
    pub pos: PartOfSpeech,
    pub features: MorphFeatures,
}

impl MorphAnalysis {
    /// A copy of the reading.
    pub fn duplicate(&self) -> (r: Self)
        ensures
            r == *self,
    {
        MorphAnalysis { lemma: self.lemma.clone(), pos: self.pos, features: self.features }
    }
}

/// Two optional features agree unless both are known and differ.
pub open spec fn features_compatible<T>(a: Option<T>, b: Option<T>) -> bool {
    a is None || b is None || a == b
}

/// A modifier reading and a noun reading can agree: their cases, numbers
/// and genders do not clash.
pub open spec fn spec_can_agree_as_adj_noun(adj: MorphAnalysis, noun: MorphAnalysis) -> bool {
    features_compatible(adj.features.case, noun.features.case) && features_compatible(
        adj.features.number,
        noun.features.number,
    ) && features_compatible(adj.features.gender, noun.features.gender)
}

/// The reading carries both features that modifier-noun agreement looks
/// at: case and number.
pub open spec fn spec_complete_for_adj_noun(a: MorphAnalysis) -> bool {
    a.features.case is Some && a.features.number is Some
}

pub fn can_agree_as_adj_noun(adj: &MorphAnalysis, noun: &MorphAnalysis) -> (r: bool)
    ensures
        r == spec_can_agree_as_adj_noun(*adj, *noun),
{
    let case_ok = match (adj.features.case, noun.features.case) {
        (Some(a), Some(b)) => a == b,
        _ => true,
    };
    let number_ok = match (adj.features.number, noun.features.number) {
        (Some(a), Some(b)) => a == b,
        _ => true,
    };
    let gender_ok = match (adj.features.gender, noun.features.gender) {
        (Some(a), Some(b)) => a == b,
        _ => true,
    };
    case_ok && number_ok && gender_ok
}

pub fn is_complete_for_adj_noun(a: &MorphAnalysis) -> (r: bool)
    ensures
        r == spec_complete_for_adj_noun(*a),
{
    a.features.case.is_some() && a.features.number.is_some()
}

/// A copy of the readings, in order.
pub fn copy_analyses(v: &[MorphAnalysis]) -> (r: Vec<MorphAnalysis>)
    ensures
        r@ == v@,
{
    let mut out: Vec<MorphAnalysis> = Vec::new();
    let mut i: usize = 0;
    while i < v.len()
        invariant
            i <= v@.len(),
            out@ == v@.take(i as int),
        decreases v@.len() - i,
    {
        out.push(v[i].duplicate());
        i = i + 1;
    }
    assert(v@.take(v@.len() as int) =~= v@);
    out
}

/// A source of readings for word forms, such as a lexicon.
pub trait MorphAnalyzer {
    fn analyze(&self, word: &str) -> Vec<MorphAnalysis>;
}

} // verus!
