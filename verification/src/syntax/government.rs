use vstd::prelude::*;
use crate::text::{Span, Token};
use crate::readings::{Case, MorphAnalysis};
use crate::syntax::model::{spec_confidence_actionable, SyntaxConfidence};
use crate::syntax::diagnostics::{
    proof_confidence_of, reasons_sorted_set, DiagnosticConflict, DiagnosticFact, DiagnosticProof, DiagnosticProofKind,
    SuppressionReason,
};
use crate::syntax::punctuation::fact_is;
use crate::syntax::constraints::case_name;

verus! {

/// The part a token plays in a morphosyntactic relation.
#[derive(Debug, Clone, Copy, PartialEq, Eq, Structural, PartialOrd, Ord, Hash)]
pub enum MorphosyntacticRole {
    Modifier,
    Head,
    Subject,
    Predicate,
    CaseGovernor,
    GovernedNominal,
    Quantifier,
    QuantifiedHead,
}

/// A token in a relation, with its role and readings.
#[derive(Debug, Clone, PartialEq, Eq)]
pub struct MorphosyntacticTerm {
    pub token_index: usize,
    pub token: Token,
    pub role: MorphosyntacticRole,
    pub analyses: Vec<MorphAnalysis>,
}

/// Whether the readings of a relation fit together.
#[derive(Debug, Clone, Copy, PartialEq, Eq, Structural, PartialOrd, Ord, Hash)]
pub enum MorphCompatibility {
    Compatible,
    Incompatible,
    Unknown,
}

#[derive(Debug, Clone, Copy, PartialEq, Eq, Structural, PartialOrd, Ord, Hash)]
pub enum GovernmentFrameKind {
    Preposition,
    Numeral,
    Verb,
    Unknown,
}

#[derive(Debug, Clone, Copy, PartialEq, Eq, Structural, PartialOrd, Ord, Hash)]
pub enum GovernmentFrameSource {
    MorphosyntaxRelation,
    VerbValencySeed,
    VerbPrepositionalValencySeed,
}

/// How a verb takes its complement: directly or through a preposition.
#[derive(Debug, Clone, Copy, PartialEq, Eq, Structural, PartialOrd, Ord, Hash)]
pub enum VerbGovernmentComplementKind {
    Direct,
    Prepositional,
}

/// The valency entry a verb frame was built from.
#[derive(Debug, Clone, PartialEq, Eq)]
pub struct GovernmentFrameModelRef {
    pub lemma: String,
    pub complement_kind: VerbGovernmentComplementKind,
    pub preposition: Option<String>,
    pub source_id: Option<String>,
    pub note: Option<String>,
}

/// A governor and the word whose case it governs, with the cases expected
/// and found.
#[derive(Debug, Clone, PartialEq, Eq)]
pub struct GovernmentFrame {
    pub kind: GovernmentFrameKind,
    pub source: GovernmentFrameSource,
    pub governor: MorphosyntacticTerm,
    pub dependent: MorphosyntacticTerm,
    pub span: Span,
    pub expected_cases: Vec<Case>,
    pub observed_cases: Vec<Case>,
    pub compatibility: MorphCompatibility,
    pub confidence: SyntaxConfidence,
    pub blockers: Vec<SuppressionReason>,
    pub model_ref: Option<GovernmentFrameModelRef>,
}

/// A trusted frame with nothing blocking it whose cases clash.
pub open spec fn frame_conflict(f: GovernmentFrame) -> bool {
    spec_confidence_actionable(f.confidence) && f.blockers@.len() == 0 && f.compatibility
        == MorphCompatibility::Incompatible
}

impl GovernmentFrame {
    pub fn is_conflict(&self) -> (r: bool)
        ensures
            r == frame_conflict(*self),
    {
        self.confidence.is_actionable() && self.blockers.len() == 0 && self.compatibility
            == MorphCompatibility::Incompatible
    }
}

pub open spec fn frame_kind_name(k: GovernmentFrameKind) -> Seq<char> {
    match k {
        GovernmentFrameKind::Preposition => "Preposition"@,
        GovernmentFrameKind::Numeral => "Numeral"@,
        GovernmentFrameKind::Verb => "Verb"@,
        GovernmentFrameKind::Unknown => "Unknown"@,
    }
}

fn frame_kind_str(k: GovernmentFrameKind) -> (r: &'static str)
    ensures
        r@ == frame_kind_name(k),
{
    match k {
        GovernmentFrameKind::Preposition => "Preposition",
        GovernmentFrameKind::Numeral => "Numeral",
        GovernmentFrameKind::Verb => "Verb",
        GovernmentFrameKind::Unknown => "Unknown",
    }
}

pub open spec fn frame_source_name(s: GovernmentFrameSource) -> Seq<char> {
    match s {
        GovernmentFrameSource::MorphosyntaxRelation => "MorphosyntaxRelation"@,
        GovernmentFrameSource::VerbValencySeed => "VerbValencySeed"@,
        GovernmentFrameSource::VerbPrepositionalValencySeed => "VerbPrepositionalValencySeed"@,
    }
}

fn frame_source_str(s: GovernmentFrameSource) -> (r: &'static str)
    ensures
        r@ == frame_source_name(s),
{
    match s {
        GovernmentFrameSource::MorphosyntaxRelation => "MorphosyntaxRelation",
        GovernmentFrameSource::VerbValencySeed => "VerbValencySeed",
        GovernmentFrameSource::VerbPrepositionalValencySeed => "VerbPrepositionalValencySeed",
    }
}

pub open spec fn complement_kind_name(k: VerbGovernmentComplementKind) -> Seq<char> {
    match k {
        VerbGovernmentComplementKind::Direct => "Direct"@,
        VerbGovernmentComplementKind::Prepositional => "Prepositional"@,
    }
}

fn complement_kind_str(k: VerbGovernmentComplementKind) -> (r: &'static str)
    ensures
        r@ == complement_kind_name(k),
{
    match k {
        VerbGovernmentComplementKind::Direct => "Direct",
        VerbGovernmentComplementKind::Prepositional => "Prepositional",
    }
}

fn case_name_str(c: Case) -> (r: &'static str)
    ensures
        r@ == case_name(c),
{
    match c {
        Case::Nominative => "Nominative",
        Case::Genitive => "Genitive",
        Case::Dative => "Dative",
        Case::Accusative => "Accusative",
        Case::Instrumental => "Instrumental",
        Case::Prepositional => "Prepositional",
    }
}

/// The names of the cases, in order.
fn case_names(cases: &Vec<Case>) -> (r: Vec<String>)
    ensures
        r@.len() == cases@.len(),
        forall|k: int| 0 <= k < cases@.len() ==> (#[trigger] r@[k])@ == case_name(cases@[k]),
{
    let mut out: Vec<String> = Vec::new();
    let mut i: usize = 0;
    while i < cases.len()
        invariant
            i <= cases@.len(),
            out@.len() == i,
            forall|k: int| 0 <= k < i ==> (#[trigger] out@[k])@ == case_name(cases@[k]),
        decreases cases@.len() - i,
    {
        out.push(case_name_str(cases[i]).to_owned());
        i = i + 1;
    }
    out
}

/// The facts a frame's model reference adds: lemma, complement kind and
/// preposition (empty when there is none), then the source id when known.
pub open spec fn model_facts_ok(facts: Seq<DiagnosticFact>, start: int, m: GovernmentFrameModelRef, span: Span) -> bool {
    &&& fact_is(facts[start], "model_lemma"@, m.lemma@, Some(span))
    &&& fact_is(facts[start + 1], "model_complement_kind"@, complement_kind_name(m.complement_kind), Some(span))
    &&& fact_is(
        facts[start + 2],
        "model_preposition"@,
        match m.preposition {
            Some(p) => p@,
            None => Seq::empty(),
        },
        Some(span),
    )
    &&& match m.source_id {
        Some(id) => facts.len() == start + 4 && fact_is(facts[start + 3], "model_source_id"@, id@, Some(span)),
        None => facts.len() == start + 3,
    }
}

/// What `government_frame_proof` gives.
pub open spec fn is_government_frame_proof(frame: GovernmentFrame, r: DiagnosticProof) -> bool {
    &&& r.kind == if frame.kind == GovernmentFrameKind::Numeral {
                DiagnosticProofKind::QuantityConflict
            } else {
                DiagnosticProofKind::GovernmentConflict
            }
    &&& r.confidence == proof_confidence_of(frame.confidence)
    &&& r.assumptions@.len() == 0
    &&& r.suppressed_alternatives@.len() == 0
    &&& reasons_sorted_set(r.blockers@)
    &&& r.blockers@.to_set() == frame.blockers@.to_set()
    &&& fact_is(r.facts@[0], "governor"@, frame.governor.token.text@, Some(frame.governor.token.span))
    &&& fact_is(r.facts@[1], "dependent"@, frame.dependent.token.text@, Some(frame.dependent.token.span))
    &&& fact_is(r.facts@[2], "frame_kind"@, frame_kind_name(frame.kind), Some(frame.span))
    &&& fact_is(r.facts@[3], "frame_source"@, frame_source_name(frame.source), Some(frame.span))
    &&& match frame.model_ref {
                Some(m) => model_facts_ok(r.facts@, 4, m, frame.span),
                None => r.facts@.len() == 4,
            }
    &&& r.conflict matches Some(c) && c.kind@ == (if frame.kind == GovernmentFrameKind::Numeral {
                "quantity_government"@
            } else {
                "case_government"@
            }) && c.span == frame.span && c.expected@.len() == frame.expected_cases@.len() && (forall|k: int|
                0 <= k < c.expected@.len() ==> (#[trigger] c.expected@[k])@ == case_name(frame.expected_cases@[k]))
                && c.observed@.len() == frame.observed_cases@.len() && (forall|k: int|
                0 <= k < c.observed@.len() ==> (#[trigger] c.observed@[k])@ == case_name(frame.observed_cases@[k]))
}

/// The proof behind a government frame: the governor, the dependent, the
/// frame's kind and source and what its model entry says, the expected and
/// observed cases as a conflict, and the frame's blockers.
pub fn government_frame_proof(frame: &GovernmentFrame) -> (r: DiagnosticProof)
    ensures
        is_government_frame_proof(*frame, r),
{
    let numeral = frame.kind == GovernmentFrameKind::Numeral;
    let proof_kind = if numeral {
        DiagnosticProofKind::QuantityConflict
    } else {
        DiagnosticProofKind::GovernmentConflict
    };
    let conflict_kind = if numeral {
        "quantity_government"
    } else {
        "case_government"
    };
    let mut proof = DiagnosticProof::new(proof_kind, frame.confidence)
        .with_fact(DiagnosticFact::new("governor", frame.governor.token.text.as_str(), Some(frame.governor.token.span)))
        .with_fact(DiagnosticFact::new("dependent", frame.dependent.token.text.as_str(), Some(frame.dependent.token.span)))
        .with_fact(DiagnosticFact::new("frame_kind", frame_kind_str(frame.kind), Some(frame.span)))
        .with_fact(DiagnosticFact::new("frame_source", frame_source_str(frame.source), Some(frame.span)));
    match &frame.model_ref {
        Some(m) => {
            let ghost f4 = proof.facts@;
            proof = proof.with_fact(DiagnosticFact::new("model_lemma", m.lemma.as_str(), Some(frame.span)))
                .with_fact(DiagnosticFact::new("model_complement_kind", complement_kind_str(m.complement_kind), Some(frame.span)));
            let prep = match &m.preposition {
                Some(p) => p.clone(),
                None => String::new(),
            };
            proof = proof.with_fact(DiagnosticFact::new("model_preposition", prep.as_str(), Some(frame.span)));
            match &m.source_id {
                Some(id) => {
                    proof = proof.with_fact(DiagnosticFact::new("model_source_id", id.as_str(), Some(frame.span)));
                },
                None => {},
            }
        },
        None => {},
    }
    let expected = case_names(&frame.expected_cases);
    let observed = case_names(&frame.observed_cases);
    proof = proof.with_conflict(DiagnosticConflict {
        kind: conflict_kind.to_owned(),
        expected,
        observed,
        span: frame.span,
    });
    let mut blockers: Vec<SuppressionReason> = Vec::new();
    let mut b: usize = 0;
    while b < frame.blockers.len()
        invariant
            b <= frame.blockers@.len(),
            blockers@ == frame.blockers@.take(b as int),
        decreases frame.blockers@.len() - b,
    {
        blockers.push(frame.blockers[b]);
        b = b + 1;
    }
    assert(frame.blockers@.take(frame.blockers@.len() as int) =~= frame.blockers@);
    let ghost before = proof.blockers@;
    let r = proof.with_blockers(blockers);
    assert(before.to_set().union(frame.blockers@.to_set()) =~= frame.blockers@.to_set());
    r
}

} // verus!
