use vstd::prelude::*;
use crate::readings::PartOfSpeech;

verus! {

broadcast use vstd::seq_lib::group_seq_properties;

/// Which constraint eliminated a reading.
#[derive(Debug, Clone, Copy, PartialEq, Eq, Structural, PartialOrd, Ord)]
pub enum DisambiguationConstraint {
    /// A reliable preposition restricts the case of the next nominal token.
    PrepositionCaseGovernment,
    /// A finite verb or gerund reading cannot directly follow a preposition.
    PrepositionVerbExclusion,
    /// A reading is kept only if it agrees with at least one reading of a
    /// reliable adjacent modifier/head partner.
    ModifierHeadAgreement,
}

pub open spec fn constraint_name(c: DisambiguationConstraint) -> Seq<char> {
    match c {
        DisambiguationConstraint::PrepositionCaseGovernment => "preposition_case_government"@,
        DisambiguationConstraint::PrepositionVerbExclusion => "preposition_verb_exclusion"@,
        DisambiguationConstraint::ModifierHeadAgreement => "modifier_head_agreement"@,
    }
}

impl DisambiguationConstraint {
    /// The constraint's name in snake case.
    pub fn as_str(self) -> (r: &'static str)
        ensures
            r@ == constraint_name(self),
    {
        match self {
            DisambiguationConstraint::PrepositionCaseGovernment => "preposition_case_government",
            DisambiguationConstraint::PrepositionVerbExclusion => "preposition_verb_exclusion",
            DisambiguationConstraint::ModifierHeadAgreement => "modifier_head_agreement",
        }
    }
}

/// Machine-readable proof for one eliminated reading.
#[derive(Debug, Clone, PartialEq, Eq)]
pub struct ReadingElimination {
    pub token_index: usize,
    pub form: String,
    pub eliminated_lemma: String,
    pub eliminated_pos: PartOfSpeech,
    /// Compact `key=value|...` rendering of the eliminated reading's features.
    pub eliminated_features: String,
    pub constraint: DisambiguationConstraint,
    /// Token that licensed the elimination (e.g. the governing preposition).
    pub evidence_token_index: usize,
    pub evidence_form: String,
    pub explanation: String,
}

/// Full trace of a disambiguation run over one document.
#[derive(Debug, Clone, PartialEq, Eq, Default)]
pub struct DisambiguationTrace {
    pub eliminations: Vec<ReadingElimination>,
    /// Fixpoint passes executed (constraints can enable each other).
    pub passes: usize,
}

/// The first `k` eliminations of token `t`, in order.
pub open spec fn eliminations_upto(v: Seq<ReadingElimination>, t: usize, k: int) -> Seq<ReadingElimination>
    decreases k,
{
    if k <= 0 || k > v.len() {
        Seq::empty()
    } else if v[k - 1].token_index == t {
        eliminations_upto(v, t, k - 1).push(v[k - 1])
    } else {
        eliminations_upto(v, t, k - 1)
    }
}

impl DisambiguationTrace {
    pub fn is_empty(&self) -> (r: bool)
        ensures
            r == (self.eliminations@.len() == 0),
    {
        self.eliminations.len() == 0
    }

    /// The eliminations of one token, in order.
    pub fn eliminations_for_token(&self, token_index: usize) -> (r: Vec<&ReadingElimination>)
        ensures
            r@.map_values(|e: &ReadingElimination| *e) == eliminations_upto(
                self.eliminations@,
                token_index,
                self.eliminations@.len() as int,
            ),
    {
        let mut out: Vec<&ReadingElimination> = Vec::new();
        let mut i: usize = 0;
        while i < self.eliminations.len()
            invariant
                i <= self.eliminations@.len(),
                out@.map_values(|e: &ReadingElimination| *e) == eliminations_upto(
                    self.eliminations@,
                    token_index,
                    i as int,
                ),
            decreases self.eliminations@.len() - i,
        {
            if self.eliminations[i].token_index == token_index {
                let ghost o = out@;
                out.push(&self.eliminations[i]);
                assert(out@.map_values(|e: &ReadingElimination| *e) =~= o.map_values(|e: &ReadingElimination| *e).push(
                    self.eliminations@[i as int],
                ));
            }
            i = i + 1;
        }
        out
    }
}

} // verus!
