use vstd::prelude::*;
use crate::text::{lower_chars, lower_seq, Span, Token, TokenKind};
use crate::unicode::{chars_eq_str, is_uppercase, unicode_uppercase};
use crate::syntax::islands::{
    spec_can_link, IslandView, SyntacticIsland, SyntacticIslandKind,
    SyntacticIslandMap,
};
use crate::syntax::clause_candidates::ClauseCandidate;
use crate::unicode::{str_chars, string_from_chars};
use crate::syntax::diagnostics::{
    proof_confidence_of, reasons_sorted_set, DiagnosticConflict, DiagnosticFact, DiagnosticProof, DiagnosticProofKind,
    SuppressedAlternative, SuppressionReason,
};
use crate::syntax::model::SyntaxConfidence;

verus! {

broadcast use vstd::seq_lib::group_seq_properties;

#[derive(Debug, Clone, Copy, PartialEq, Eq, Structural, PartialOrd, Ord, Hash)]
pub enum PunctuationMark {
    Comma,
    Dash,
    Colon,
    Semicolon,
    Period,
}

#[derive(Debug, Clone, Copy, PartialEq, Eq, Structural, PartialOrd, Ord, Hash)]
pub enum PunctuationBoundaryStrength {
    NoBoundary,
    Weak,
    Medium,
    Strong,
    Unsafe,
}

#[derive(Debug, Clone, Copy, PartialEq, Eq, Structural, PartialOrd, Ord, Hash)]
pub enum PunctuationSlotEvidenceKind {
    Boundary,
    ExistingMark,
    ExpectedMark,
    ForbiddenMark,
    ClauseBoundary,
    IntroductoryCandidate,
    Coordination,
    IslandBlocker,
}

/// One reason recorded for a punctuation slot, with a readable message.
#[derive(Debug, Clone, PartialEq, Eq)]
pub struct PunctuationSlotEvidence {
    pub kind: PunctuationSlotEvidenceKind,
    pub mark: Option<PunctuationMark>,
    pub message: String,
    pub span: Option<Span>,
}

pub struct EvidenceView {
    pub kind: PunctuationSlotEvidenceKind,
    pub mark: Option<PunctuationMark>,
    pub message: Seq<char>,
    pub span: Option<Span>,
}

impl View for PunctuationSlotEvidence {
    type V = EvidenceView;

    open spec fn view(&self) -> EvidenceView {
        EvidenceView { kind: self.kind, mark: self.mark, message: self.message@, span: self.span }
    }
}

pub open spec fn evidence_views(v: Seq<PunctuationSlotEvidence>) -> Seq<EvidenceView> {
    v.map_values(|e: PunctuationSlotEvidence| e@)
}

impl PunctuationSlotEvidence {
    pub fn new(
        kind: PunctuationSlotEvidenceKind,
        mark: Option<PunctuationMark>,
        message: &str,
        span: Option<Span>,
    ) -> (r: Self)
        ensures
            r@ == (EvidenceView { kind, mark, message: message@, span }),
    {
        PunctuationSlotEvidence { kind, mark, message: message.to_owned(), span }
    }
}

/// The place between two tokens where a punctuation mark may stand, with
/// the marks found, expected and forbidden there.
#[derive(Debug, Clone, PartialEq, Eq)]
pub struct PunctuationSlot {
    pub id: usize,
    pub span: Span,
    pub left_token_index: usize,
    pub right_token_index: usize,
    pub left_token: Token,
    pub right_token: Token,
    pub boundary_strength: PunctuationBoundaryStrength,
    pub inside_quotes: bool,
    pub inside_parentheses: bool,
    pub between_clauses: bool,
    pub after_introductory_candidate: bool,
    pub existing_marks: Vec<PunctuationMark>,
    pub expected_marks: Vec<PunctuationMark>,
    pub forbidden_marks: Vec<PunctuationMark>,
    pub explanation: String,
    pub evidence: Vec<PunctuationSlotEvidence>,
    pub blockers: Vec<SuppressionReason>,
}

fn contains_mark(v: &Vec<PunctuationMark>, mark: PunctuationMark) -> (r: bool)
    ensures
        r == v@.contains(mark),
{
    let mut i: usize = 0;
    while i < v.len()
        invariant
            i <= v@.len(),
            forall|j: int| 0 <= j < i ==> v@[j] != mark,
        decreases v@.len() - i,
    {
        if v[i] == mark {
            return true;
        }
        i = i + 1;
    }
    false
}

impl PunctuationSlot {
    pub fn allows(&self, mark: PunctuationMark) -> (r: bool)
        ensures
            r == !self.forbidden_marks@.contains(mark),
    {
        !contains_mark(&self.forbidden_marks, mark)
    }

    pub fn expects(&self, mark: PunctuationMark) -> (r: bool)
        ensures
            r == self.expected_marks@.contains(mark),
    {
        contains_mark(&self.expected_marks, mark)
    }

    pub fn has_existing_mark(&self, mark: PunctuationMark) -> (r: bool)
        ensures
            r == self.existing_marks@.contains(mark),
    {
        contains_mark(&self.existing_marks, mark)
    }

    /// The mark is expected, allowed and absent, and nothing blocks the slot.
    pub fn missing_expected_mark(&self, mark: PunctuationMark) -> (r: bool)
        ensures
            r == (self.expected_marks@.contains(mark) && !self.forbidden_marks@.contains(mark)
                && !self.existing_marks@.contains(mark) && self.blockers@.len() == 0),
    {
        self.expects(mark) && self.allows(mark) && !self.has_existing_mark(mark) && self.blockers.len() == 0
    }
}

pub open spec fn strength_name(s: PunctuationBoundaryStrength) -> Seq<char> {
    match s {
        PunctuationBoundaryStrength::NoBoundary => "None"@,
        PunctuationBoundaryStrength::Weak => "Weak"@,
        PunctuationBoundaryStrength::Medium => "Medium"@,
        PunctuationBoundaryStrength::Strong => "Strong"@,
        PunctuationBoundaryStrength::Unsafe => "Unsafe"@,
    }
}

fn strength_name_str(s: PunctuationBoundaryStrength) -> (r: &'static str)
    ensures
        r@ == strength_name(s),
{
    match s {
        PunctuationBoundaryStrength::NoBoundary => "None",
        PunctuationBoundaryStrength::Weak => "Weak",
        PunctuationBoundaryStrength::Medium => "Medium",
        PunctuationBoundaryStrength::Strong => "Strong",
        PunctuationBoundaryStrength::Unsafe => "Unsafe",
    }
}

pub open spec fn mark_name(m: PunctuationMark) -> Seq<char> {
    match m {
        PunctuationMark::Comma => "Comma"@,
        PunctuationMark::Dash => "Dash"@,
        PunctuationMark::Colon => "Colon"@,
        PunctuationMark::Semicolon => "Semicolon"@,
        PunctuationMark::Period => "Period"@,
    }
}

fn mark_name_str(m: PunctuationMark) -> (r: &'static str)
    ensures
        r@ == mark_name(m),
{
    match m {
        PunctuationMark::Comma => "Comma",
        PunctuationMark::Dash => "Dash",
        PunctuationMark::Colon => "Colon",
        PunctuationMark::Semicolon => "Semicolon",
        PunctuationMark::Period => "Period",
    }
}

pub open spec fn reason_name(r: SuppressionReason) -> Seq<char> {
    match r {
        SuppressionReason::InlineSuppression => "InlineSuppression"@,
        SuppressionReason::FileSuppression => "FileSuppression"@,
        SuppressionReason::UnsafeBoundary => "UnsafeBoundary"@,
        SuppressionReason::QuoteBoundary => "QuoteBoundary"@,
        SuppressionReason::ParenthesisBoundary => "ParenthesisBoundary"@,
        SuppressionReason::DirectSpeechBoundary => "DirectSpeechBoundary"@,
        SuppressionReason::ClauseBoundary => "ClauseBoundary"@,
        SuppressionReason::SentenceBoundary => "SentenceBoundary"@,
        SuppressionReason::AmbiguousMorphology => "AmbiguousMorphology"@,
        SuppressionReason::UnknownMorphology => "UnknownMorphology"@,
        SuppressionReason::InsufficientMorphology => "InsufficientMorphology"@,
        SuppressionReason::ConflictNotProven => "ConflictNotProven"@,
        SuppressionReason::NonActionableConfidence => "NonActionableConfidence"@,
        SuppressionReason::PunctuationBetween => "PunctuationBetween"@,
        SuppressionReason::NewlineBetween => "NewlineBetween"@,
        SuppressionReason::Coordination => "Coordination"@,
        SuppressionReason::UnsupportedRuleCapability => "UnsupportedRuleCapability"@,
        SuppressionReason::EmptySpan => "EmptySpan"@,
        SuppressionReason::Unknown => "Unknown"@,
    }
}

fn reason_name_str(r: SuppressionReason) -> (s: &'static str)
    ensures
        s@ == reason_name(r),
{
    match r {
        SuppressionReason::InlineSuppression => "InlineSuppression",
        SuppressionReason::FileSuppression => "FileSuppression",
        SuppressionReason::UnsafeBoundary => "UnsafeBoundary",
        SuppressionReason::QuoteBoundary => "QuoteBoundary",
        SuppressionReason::ParenthesisBoundary => "ParenthesisBoundary",
        SuppressionReason::DirectSpeechBoundary => "DirectSpeechBoundary",
        SuppressionReason::ClauseBoundary => "ClauseBoundary",
        SuppressionReason::SentenceBoundary => "SentenceBoundary",
        SuppressionReason::AmbiguousMorphology => "AmbiguousMorphology",
        SuppressionReason::UnknownMorphology => "UnknownMorphology",
        SuppressionReason::InsufficientMorphology => "InsufficientMorphology",
        SuppressionReason::ConflictNotProven => "ConflictNotProven",
        SuppressionReason::NonActionableConfidence => "NonActionableConfidence",
        SuppressionReason::PunctuationBetween => "PunctuationBetween",
        SuppressionReason::NewlineBetween => "NewlineBetween",
        SuppressionReason::Coordination => "Coordination",
        SuppressionReason::UnsupportedRuleCapability => "UnsupportedRuleCapability",
        SuppressionReason::EmptySpan => "EmptySpan",
        SuppressionReason::Unknown => "Unknown",
    }
}

/// The two texts one after the other.
pub fn join_text(a: &str, b: &str) -> (r: String)
    ensures
        r@ == a@ + b@,
{
    let mut v = str_chars(a);
    let mut w = str_chars(b);
    v.append(&mut w);
    let n = v.len();
    let r = string_from_chars(v.as_slice(), 0, n);
    assert(v@.subrange(0, n as int) =~= v@);
    r
}

pub open spec fn mark_evidence(kind: PunctuationSlotEvidenceKind, prefix: Seq<char>, m: PunctuationMark, span: Span) -> EvidenceView {
    EvidenceView { kind, mark: Some(m), message: prefix + mark_name(m), span: Some(span) }
}

pub open spec fn blocker_evidence(b: SuppressionReason, span: Span) -> EvidenceView {
    EvidenceView {
        kind: PunctuationSlotEvidenceKind::IslandBlocker,
        mark: None,
        message: "blocked by "@ + reason_name(b),
        span: Some(span),
    }
}

pub open spec fn flag_evidence(on: bool, kind: PunctuationSlotEvidenceKind, message: Seq<char>, span: Span) -> Seq<EvidenceView> {
    if on {
        seq![EvidenceView { kind, mark: Some(PunctuationMark::Comma), message, span: Some(span) }]
    } else {
        Seq::empty()
    }
}

/// The evidence of a slot: its boundary strength, the clause, introductory
/// and coordination flags that hold, then one item per existing, expected
/// and forbidden mark and per blocker, in that order.
pub open spec fn spec_slot_evidence(
    span: Span,
    strength: PunctuationBoundaryStrength,
    between_clauses: bool,
    after_introductory_candidate: bool,
    in_coordination: bool,
    existing: Seq<PunctuationMark>,
    expected: Seq<PunctuationMark>,
    forbidden: Seq<PunctuationMark>,
    blockers: Seq<SuppressionReason>,
) -> Seq<EvidenceView> {
    seq![
        EvidenceView {
            kind: PunctuationSlotEvidenceKind::Boundary,
            mark: None,
            message: "boundary strength: "@ + strength_name(strength),
            span: Some(span),
        },
    ] + flag_evidence(
        between_clauses,
        PunctuationSlotEvidenceKind::ClauseBoundary,
        "slot lies between two clause candidates"@,
        span,
    ) + flag_evidence(
        after_introductory_candidate,
        PunctuationSlotEvidenceKind::IntroductoryCandidate,
        "slot follows an introductory-word candidate"@,
        span,
    ) + flag_evidence(
        in_coordination,
        PunctuationSlotEvidenceKind::Coordination,
        "slot is inside a coordination group"@,
        span,
    ) + existing.map_values(
        |m: PunctuationMark| mark_evidence(PunctuationSlotEvidenceKind::ExistingMark, "existing mark: "@, m, span),
    ) + expected.map_values(
        |m: PunctuationMark| mark_evidence(PunctuationSlotEvidenceKind::ExpectedMark, "expected mark: "@, m, span),
    ) + forbidden.map_values(
        |m: PunctuationMark| mark_evidence(PunctuationSlotEvidenceKind::ForbiddenMark, "forbidden mark: "@, m, span),
    ) + blockers.map_values(|b: SuppressionReason| blocker_evidence(b, span))
}

fn push_mark_evidence(
    out: &mut Vec<PunctuationSlotEvidence>,
    kind: PunctuationSlotEvidenceKind,
    prefix: &str,
    marks: &[PunctuationMark],
    span: Span,
)
    ensures
        evidence_views(final(out)@) == evidence_views(old(out)@) + marks@.map_values(
            |m: PunctuationMark| mark_evidence(kind, prefix@, m, span),
        ),
{
    let ghost start = evidence_views(out@);
    let mut i: usize = 0;
    while i < marks.len()
        invariant
            i <= marks@.len(),
            evidence_views(out@) == start + marks@.take(i as int).map_values(
                |m: PunctuationMark| mark_evidence(kind, prefix@, m, span),
            ),
        decreases marks@.len() - i,
    {
        let m = marks[i];
        let message = join_text(prefix, mark_name_str(m));
        let e = PunctuationSlotEvidence { kind, mark: Some(m), message, span: Some(span) };
        let ghost o = evidence_views(out@);
        out.push(e);
        proof {
            assert(evidence_views(out@) =~= o.push(e@));
            assert(marks@.take(i as int + 1).map_values(|m: PunctuationMark| mark_evidence(kind, prefix@, m, span))
                =~= marks@.take(i as int).map_values(|m: PunctuationMark| mark_evidence(kind, prefix@, m, span)).push(
                mark_evidence(kind, prefix@, m, span),
            ));
        }
        i = i + 1;
    }
    assert(marks@.take(marks@.len() as int) =~= marks@);
}

fn push_flag_evidence(
    out: &mut Vec<PunctuationSlotEvidence>,
    on: bool,
    kind: PunctuationSlotEvidenceKind,
    message: &str,
    span: Span,
)
    ensures
        evidence_views(final(out)@) == evidence_views(old(out)@) + flag_evidence(on, kind, message@, span),
{
    let ghost o = evidence_views(out@);
    if on {
        let e = PunctuationSlotEvidence::new(kind, Some(PunctuationMark::Comma), message, Some(span));
        out.push(e);
        assert(evidence_views(out@) =~= o + flag_evidence(on, kind, message@, span));
    } else {
        assert(evidence_views(out@) =~= o + flag_evidence(on, kind, message@, span));
    }
}

/// The evidence recorded for a punctuation slot.
pub fn punctuation_slot_evidence(
    span: Span,
    strength: PunctuationBoundaryStrength,
    between_clauses: bool,
    after_introductory_candidate: bool,
    in_coordination: bool,
    existing_marks: &[PunctuationMark],
    expected_marks: &[PunctuationMark],
    forbidden_marks: &[PunctuationMark],
    blockers: &[SuppressionReason],
) -> (r: Vec<PunctuationSlotEvidence>)
    ensures
        evidence_views(r@) == spec_slot_evidence(
            span,
            strength,
            between_clauses,
            after_introductory_candidate,
            in_coordination,
            existing_marks@,
            expected_marks@,
            forbidden_marks@,
            blockers@,
        ),
{
    let mut evidence: Vec<PunctuationSlotEvidence> = Vec::new();
    let first = PunctuationSlotEvidence {
        kind: PunctuationSlotEvidenceKind::Boundary,
        mark: None,
        message: join_text("boundary strength: ", strength_name_str(strength)),
        span: Some(span),
    };
    evidence.push(first);
    push_flag_evidence(
        &mut evidence,
        between_clauses,
        PunctuationSlotEvidenceKind::ClauseBoundary,
        "slot lies between two clause candidates",
        span,
    );
    push_flag_evidence(
        &mut evidence,
        after_introductory_candidate,
        PunctuationSlotEvidenceKind::IntroductoryCandidate,
        "slot follows an introductory-word candidate",
        span,
    );
    push_flag_evidence(
        &mut evidence,
        in_coordination,
        PunctuationSlotEvidenceKind::Coordination,
        "slot is inside a coordination group",
        span,
    );
    push_mark_evidence(&mut evidence, PunctuationSlotEvidenceKind::ExistingMark, "existing mark: ", existing_marks, span);
    push_mark_evidence(&mut evidence, PunctuationSlotEvidenceKind::ExpectedMark, "expected mark: ", expected_marks, span);
    push_mark_evidence(&mut evidence, PunctuationSlotEvidenceKind::ForbiddenMark, "forbidden mark: ", forbidden_marks, span);
    let ghost before = evidence_views(evidence@);
    let mut i: usize = 0;
    while i < blockers.len()
        invariant
            i <= blockers@.len(),
            evidence_views(evidence@) == before + blockers@.take(i as int).map_values(
                |b: SuppressionReason| blocker_evidence(b, span),
            ),
        decreases blockers@.len() - i,
    {
        let b = blockers[i];
        let e = PunctuationSlotEvidence {
            kind: PunctuationSlotEvidenceKind::IslandBlocker,
            mark: None,
            message: join_text("blocked by ", reason_name_str(b)),
            span: Some(span),
        };
        let ghost o = evidence_views(evidence@);
        evidence.push(e);
        proof {
            assert(evidence_views(evidence@) =~= o.push(e@));
            assert(blockers@.take(i as int + 1).map_values(|b: SuppressionReason| blocker_evidence(b, span))
                =~= blockers@.take(i as int).map_values(|b: SuppressionReason| blocker_evidence(b, span)).push(
                blocker_evidence(b, span),
            ));
        }
        i = i + 1;
    }
    assert(blockers@.take(blockers@.len() as int) =~= blockers@);
    evidence
}

pub open spec fn evidence_kind_name(k: PunctuationSlotEvidenceKind) -> Seq<char> {
    match k {
        PunctuationSlotEvidenceKind::Boundary => "Boundary"@,
        PunctuationSlotEvidenceKind::ExistingMark => "ExistingMark"@,
        PunctuationSlotEvidenceKind::ExpectedMark => "ExpectedMark"@,
        PunctuationSlotEvidenceKind::ForbiddenMark => "ForbiddenMark"@,
        PunctuationSlotEvidenceKind::ClauseBoundary => "ClauseBoundary"@,
        PunctuationSlotEvidenceKind::IntroductoryCandidate => "IntroductoryCandidate"@,
        PunctuationSlotEvidenceKind::Coordination => "Coordination"@,
        PunctuationSlotEvidenceKind::IslandBlocker => "IslandBlocker"@,
    }
}

fn evidence_kind_name_str(k: PunctuationSlotEvidenceKind) -> (r: &'static str)
    ensures
        r@ == evidence_kind_name(k),
{
    match k {
        PunctuationSlotEvidenceKind::Boundary => "Boundary",
        PunctuationSlotEvidenceKind::ExistingMark => "ExistingMark",
        PunctuationSlotEvidenceKind::ExpectedMark => "ExpectedMark",
        PunctuationSlotEvidenceKind::ForbiddenMark => "ForbiddenMark",
        PunctuationSlotEvidenceKind::ClauseBoundary => "ClauseBoundary",
        PunctuationSlotEvidenceKind::IntroductoryCandidate => "IntroductoryCandidate",
        PunctuationSlotEvidenceKind::Coordination => "Coordination",
        PunctuationSlotEvidenceKind::IslandBlocker => "IslandBlocker",
    }
}

/// Strong boundaries give strong slots, unsafe ones ambiguous slots, and
/// the rest weak ones.
pub open spec fn spec_slot_confidence(s: PunctuationBoundaryStrength) -> SyntaxConfidence {
    match s {
        PunctuationBoundaryStrength::Strong => SyntaxConfidence::Strong,
        PunctuationBoundaryStrength::Unsafe => SyntaxConfidence::Ambiguous,
        _ => SyntaxConfidence::Weak,
    }
}

fn slot_confidence(slot: &PunctuationSlot) -> (r: SyntaxConfidence)
    ensures
        r == spec_slot_confidence(slot.boundary_strength),
{
    match slot.boundary_strength {
        PunctuationBoundaryStrength::Strong => SyntaxConfidence::Strong,
        PunctuationBoundaryStrength::Medium => SyntaxConfidence::Weak,
        PunctuationBoundaryStrength::Weak | PunctuationBoundaryStrength::NoBoundary => SyntaxConfidence::Weak,
        PunctuationBoundaryStrength::Unsafe => SyntaxConfidence::Ambiguous,
    }
}

pub open spec fn fact_is(f: DiagnosticFact, key: Seq<char>, value: Seq<char>, span: Option<Span>) -> bool {
    f.key@ == key && f.value@ == value && f.span == span
}

fn owned(s: &str) -> (r: String)
    ensures
        r@ == s@,
{
    s.to_owned()
}

/// What `punctuation_slot_proof` gives.
pub open spec fn is_slot_proof(slot: PunctuationSlot, expected: PunctuationMark, r: DiagnosticProof) -> bool {
    &&& r.kind == DiagnosticProofKind::BoundarySuppression
    &&& r.confidence == proof_confidence_of(spec_slot_confidence(slot.boundary_strength))
    &&& r.assumptions@.len() == 0
    &&& reasons_sorted_set(r.blockers@)
    &&& r.blockers@.to_set() == slot.blockers@.to_set()
    &&& r.facts@.len() == 5 + slot.evidence@.len()
    &&& fact_is(r.facts@[0], "left_token"@, slot.left_token.text@, Some(slot.left_token.span))
    &&& fact_is(r.facts@[1], "right_token"@, slot.right_token.text@, Some(slot.right_token.span))
    &&& fact_is(r.facts@[2], "boundary_strength"@, strength_name(slot.boundary_strength), Some(slot.span))
    &&& fact_is(r.facts@[3], "slot_explanation"@, slot.explanation@, Some(slot.span))
    &&& fact_is(r.facts@[4], "expected_mark"@, mark_name(expected), Some(slot.span))
    &&& forall|k: int|
                0 <= k < slot.evidence@.len() ==> fact_is(
                    #[trigger] r.facts@[5 + k],
                    "punctuation_evidence::"@ + evidence_kind_name(slot.evidence@[k].kind),
                    slot.evidence@[k].message@,
                    slot.evidence@[k].span,
                )
    &&& (r.conflict is Some) == (slot.expected_marks@.contains(expected) && !slot.forbidden_marks@.contains(expected)
                && !slot.existing_marks@.contains(expected) && slot.blockers@.len() == 0)
    &&& r.conflict matches Some(c) ==> c.kind@ == "missing_punctuation_mark"@ && c.expected@.len() == 1
                && c.expected@[0]@ == mark_name(expected) && c.observed@.len() == slot.existing_marks@.len() && (forall|k: int|
                0 <= k < c.observed@.len() ==> (#[trigger] c.observed@[k])@ == mark_name(slot.existing_marks@[k]))
                && c.span == slot.span
    &&& r.suppressed_alternatives@.len() == slot.forbidden_marks@.len()
    &&& forall|k: int|
                0 <= k < slot.forbidden_marks@.len() ==> (#[trigger] r.suppressed_alternatives@[k]).label@ == "forbidden "@
                    + mark_name(slot.forbidden_marks@[k]) && r.suppressed_alternatives@[k].reason
                    == SuppressionReason::UnsafeBoundary && r.suppressed_alternatives@[k].span == Some(slot.span)
}

/// The proof behind a punctuation entry for the expected mark: the two
/// tokens, the boundary, the explanation and the evidence of the slot; a
/// conflict when the mark is missing; one suppressed alternative per
/// forbidden mark.
pub fn punctuation_slot_proof(slot: &PunctuationSlot, expected: PunctuationMark) -> (r: DiagnosticProof)
    ensures
        is_slot_proof(*slot, expected, r),
{
    let strength = owned(strength_name_str(slot.boundary_strength));
    let expected_name = owned(mark_name_str(expected));
    let mut blockers: Vec<SuppressionReason> = Vec::new();
    let mut b: usize = 0;
    while b < slot.blockers.len()
        invariant
            b <= slot.blockers@.len(),
            blockers@ == slot.blockers@.take(b as int),
        decreases slot.blockers@.len() - b,
    {
        blockers.push(slot.blockers[b]);
        b = b + 1;
    }
    assert(slot.blockers@.take(slot.blockers@.len() as int) =~= slot.blockers@);
    let mut proof = DiagnosticProof::new(DiagnosticProofKind::BoundarySuppression, slot_confidence(slot))
        .with_fact(DiagnosticFact::new("left_token", slot.left_token.text.as_str(), Some(slot.left_token.span)))
        .with_fact(DiagnosticFact::new("right_token", slot.right_token.text.as_str(), Some(slot.right_token.span)))
        .with_fact(DiagnosticFact::new("boundary_strength", strength.as_str(), Some(slot.span)))
        .with_fact(DiagnosticFact::new("slot_explanation", slot.explanation.as_str(), Some(slot.span)))
        .with_fact(DiagnosticFact::new("expected_mark", expected_name.as_str(), Some(slot.span)))
        .with_blockers(blockers);
    proof {
        assert(Seq::<SuppressionReason>::empty().to_set().union(slot.blockers@.to_set()) =~= slot.blockers@.to_set());
    }
    let mut i: usize = 0;
    while i < slot.evidence.len()
        invariant
            i <= slot.evidence@.len(),
            proof.kind == DiagnosticProofKind::BoundarySuppression,
            proof.confidence == proof_confidence_of(spec_slot_confidence(slot.boundary_strength)),
            proof.assumptions@.len() == 0,
            reasons_sorted_set(proof.blockers@),
            proof.blockers@.to_set() == slot.blockers@.to_set(),
            proof.conflict is None,
            proof.suppressed_alternatives@.len() == 0,
            proof.facts@.len() == 5 + i,
            fact_is(proof.facts@[0], "left_token"@, slot.left_token.text@, Some(slot.left_token.span)),
            fact_is(proof.facts@[1], "right_token"@, slot.right_token.text@, Some(slot.right_token.span)),
            fact_is(proof.facts@[2], "boundary_strength"@, strength_name(slot.boundary_strength), Some(slot.span)),
            fact_is(proof.facts@[3], "slot_explanation"@, slot.explanation@, Some(slot.span)),
            fact_is(proof.facts@[4], "expected_mark"@, mark_name(expected), Some(slot.span)),
            forall|k: int|
                0 <= k < i ==> fact_is(
                    #[trigger] proof.facts@[5 + k],
                    "punctuation_evidence::"@ + evidence_kind_name(slot.evidence@[k].kind),
                    slot.evidence@[k].message@,
                    slot.evidence@[k].span,
                ),
        decreases slot.evidence@.len() - i,
    {
        let e = &slot.evidence[i];
        let key = join_text("punctuation_evidence::", evidence_kind_name_str(e.kind));
        proof = proof.with_fact(DiagnosticFact::new(key.as_str(), e.message.as_str(), e.span));
        i = i + 1;
    }
    if slot.missing_expected_mark(expected) {
        let mut expected_list: Vec<String> = Vec::new();
        expected_list.push(owned(mark_name_str(expected)));
        let mut observed: Vec<String> = Vec::new();
        let mut m: usize = 0;
        while m < slot.existing_marks.len()
            invariant
                m <= slot.existing_marks@.len(),
                observed@.len() == m,
                forall|k: int| 0 <= k < m ==> (#[trigger] observed@[k])@ == mark_name(slot.existing_marks@[k]),
            decreases slot.existing_marks@.len() - m,
        {
            observed.push(owned(mark_name_str(slot.existing_marks[m])));
            m = m + 1;
        }
        proof = proof.with_conflict(DiagnosticConflict {
            kind: owned("missing_punctuation_mark"),
            expected: expected_list,
            observed,
            span: slot.span,
        });
    }
    let ghost before = proof;
    let mut f: usize = 0;
    while f < slot.forbidden_marks.len()
        invariant
            f <= slot.forbidden_marks@.len(),
            proof.kind == before.kind && proof.confidence == before.confidence && proof.assumptions == before.assumptions
                && proof.blockers == before.blockers && proof.facts == before.facts && proof.conflict == before.conflict,
            proof.suppressed_alternatives@.len() == f,
            forall|k: int|
                0 <= k < f ==> (#[trigger] proof.suppressed_alternatives@[k]).label@ == "forbidden "@ + mark_name(
                    slot.forbidden_marks@[k],
                ) && proof.suppressed_alternatives@[k].reason == SuppressionReason::UnsafeBoundary
                    && proof.suppressed_alternatives@[k].span == Some(slot.span),
        decreases slot.forbidden_marks@.len() - f,
    {
        let label = join_text("forbidden ", mark_name_str(slot.forbidden_marks[f]));
        proof = proof.with_suppressed_alternative(SuppressedAlternative {
            label,
            reason: SuppressionReason::UnsafeBoundary,
            span: Some(slot.span),
        });
        f = f + 1;
    }
    proof
}

/// The mark a punctuation token stands for.
pub open spec fn spec_mark_of(v: Seq<char>) -> Option<PunctuationMark> {
    if v == ","@ {
        Some(PunctuationMark::Comma)
    } else if v == "\u{2014}"@ || v == "-"@ || v == "\u{2013}"@ {
        Some(PunctuationMark::Dash)
    } else if v == ":"@ {
        Some(PunctuationMark::Colon)
    } else if v == ";"@ {
        Some(PunctuationMark::Semicolon)
    } else if v == "."@ {
        Some(PunctuationMark::Period)
    } else {
        None
    }
}

pub fn punctuation_mark_from_text(value: &str) -> (r: Option<PunctuationMark>)
    ensures
        r == spec_mark_of(value@),
{
    let v = str_chars(value);
    let w = v.as_slice();
    if chars_eq_str(w, ",") {
        Some(PunctuationMark::Comma)
    } else if chars_eq_str(w, "\u{2014}") || chars_eq_str(w, "-") || chars_eq_str(w, "\u{2013}") {
        Some(PunctuationMark::Dash)
    } else if chars_eq_str(w, ":") {
        Some(PunctuationMark::Colon)
    } else if chars_eq_str(w, ";") {
        Some(PunctuationMark::Semicolon)
    } else if chars_eq_str(w, ".") {
        Some(PunctuationMark::Period)
    } else {
        None
    }
}

/// The marks in declaration order, which their derived `Ord` follows.
pub open spec fn all_marks() -> Seq<PunctuationMark> {
    seq![
        PunctuationMark::Comma,
        PunctuationMark::Dash,
        PunctuationMark::Colon,
        PunctuationMark::Semicolon,
        PunctuationMark::Period,
    ]
}

/// The first `k` marks of the order that are in `set`.
pub open spec fn marks_in(set: Set<PunctuationMark>, k: int) -> Seq<PunctuationMark>
    decreases k,
{
    if k <= 0 {
        Seq::empty()
    } else if set.contains(all_marks()[k - 1]) {
        marks_in(set, k - 1).push(all_marks()[k - 1])
    } else {
        marks_in(set, k - 1)
    }
}

/// The members of `set` in ascending order, each once.
pub open spec fn sorted_marks(set: Set<PunctuationMark>) -> Seq<PunctuationMark> {
    marks_in(set, 5)
}

fn sort_marks(v: &Vec<PunctuationMark>) -> (r: Vec<PunctuationMark>)
    ensures
        r@ == sorted_marks(v@.to_set()),
{
    let order: [PunctuationMark; 5] = [
        PunctuationMark::Comma,
        PunctuationMark::Dash,
        PunctuationMark::Colon,
        PunctuationMark::Semicolon,
        PunctuationMark::Period,
    ];
    assert(order@ =~= all_marks());
    let mut out: Vec<PunctuationMark> = Vec::new();
    let mut i: usize = 0;
    while i < 5
        invariant
            i <= 5,
            order@ == all_marks(),
            out@ == marks_in(v@.to_set(), i as int),
        decreases 5 - i,
    {
        let m = order[i];
        if contains_mark(v, m) {
            out.push(m);
        }
        i = i + 1;
    }
    out
}

/// Marks of the punctuation tokens strictly between the two tokens, `k`
/// tokens in.
pub open spec fn marks_between(toks: Seq<Token>, left: int, k: int) -> Seq<PunctuationMark>
    decreases k,
{
    if k <= 0 {
        Seq::empty()
    } else {
        let t = toks[left + k];
        let prev = marks_between(toks, left, k - 1);
        if t.kind == TokenKind::Punctuation {
            match spec_mark_of(t.text@) {
                Some(m) => prev.push(m),
                None => prev,
            }
        } else {
            prev
        }
    }
}

/// The marks written between two tokens, sorted and without repeats.
pub fn punctuation_marks_between(tokens: &[Token], left_idx: usize, right_idx: usize) -> (r: Vec<PunctuationMark>)
    requires
        left_idx < right_idx <= tokens@.len(),
    ensures
        r@ == sorted_marks(marks_between(tokens@, left_idx as int, right_idx - left_idx - 1).to_set()),
{
    let mut marks: Vec<PunctuationMark> = Vec::new();
    let mut i = left_idx + 1;
    while i < right_idx
        invariant
            left_idx < i <= right_idx <= tokens@.len(),
            marks@ == marks_between(tokens@, left_idx as int, i - left_idx - 1),
        decreases right_idx - i,
    {
        if tokens[i].kind == TokenKind::Punctuation {
            match punctuation_mark_from_text(tokens[i].text.as_str()) {
                Some(m) => {
                    marks.push(m);
                },
                None => {},
            }
        }
        i = i + 1;
    }
    sort_marks(&marks)
}

/// A blocked slot forbids comma, dash and colon; a comma inside a
/// coordination forbids a colon.
pub open spec fn spec_forbidden_marks(blocked: bool, existing: Seq<PunctuationMark>, in_coordination: bool) -> Seq<PunctuationMark> {
    let s0 = if blocked {
        set![PunctuationMark::Comma, PunctuationMark::Dash, PunctuationMark::Colon]
    } else {
        Set::empty()
    };
    let s1 = if in_coordination && existing.contains(PunctuationMark::Comma) {
        s0.insert(PunctuationMark::Colon)
    } else {
        s0
    };
    sorted_marks(s1)
}

pub fn forbidden_marks_for_slot(
    blockers: &[SuppressionReason],
    existing_marks: &Vec<PunctuationMark>,
    in_coordination: bool,
) -> (r: Vec<PunctuationMark>)
    ensures
        r@ == spec_forbidden_marks(blockers@.len() > 0, existing_marks@, in_coordination),
{
    let mut forbidden: Vec<PunctuationMark> = Vec::new();
    if blockers.len() > 0 {
        forbidden.push(PunctuationMark::Comma);
        forbidden.push(PunctuationMark::Dash);
        forbidden.push(PunctuationMark::Colon);
    }
    if in_coordination && contains_mark(existing_marks, PunctuationMark::Comma) {
        forbidden.push(PunctuationMark::Colon);
    }
    let ghost blocked = blockers@.len() > 0;
    let ghost s0 = if blocked {
        set![PunctuationMark::Comma, PunctuationMark::Dash, PunctuationMark::Colon]
    } else {
        Set::<PunctuationMark>::empty()
    };
    let ghost s1 = if in_coordination && existing_marks@.contains(PunctuationMark::Comma) {
        s0.insert(PunctuationMark::Colon)
    } else {
        s0
    };
    assert(forbidden@.to_set() =~= s1) by {
        assert forall|m: PunctuationMark| forbidden@.to_set().contains(m) <==> s1.contains(m) by {
            if s1.contains(m) {
                if blocked {
                    if m == PunctuationMark::Comma {
                        assert(forbidden@[0] == m);
                    } else if m == PunctuationMark::Dash {
                        assert(forbidden@[1] == m);
                    } else {
                        assert(forbidden@[2] == m);
                    }
                } else {
                    assert(forbidden@[0] == m);
                }
            }
        }
    }
    sort_marks(&forbidden)
}

pub open spec fn spec_boundary_strength(blocked: bool, between_clauses: bool, introductory: bool, coordination: bool) -> PunctuationBoundaryStrength {
    if blocked {
        PunctuationBoundaryStrength::Unsafe
    } else if between_clauses || introductory || coordination {
        PunctuationBoundaryStrength::Strong
    } else {
        PunctuationBoundaryStrength::Weak
    }
}

/// Blocked slots are unsafe; clause, introductory and coordination slots
/// are strong; the rest weak.
pub fn boundary_strength_for_slot(
    blockers: &[SuppressionReason],
    between_clauses: bool,
    after_introductory_candidate: bool,
    in_coordination: bool,
) -> (r: PunctuationBoundaryStrength)
    ensures
        r == spec_boundary_strength(blockers@.len() > 0, between_clauses, after_introductory_candidate, in_coordination),
{
    if blockers.len() > 0 {
        PunctuationBoundaryStrength::Unsafe
    } else if between_clauses || after_introductory_candidate || in_coordination {
        PunctuationBoundaryStrength::Strong
    } else {
        PunctuationBoundaryStrength::Weak
    }
}

pub open spec fn spec_slot_explanation(
    strength: PunctuationBoundaryStrength,
    between_clauses: bool,
    introductory: bool,
    coordination: bool,
) -> Seq<char> {
    if between_clauses {
        "slot is between clause candidates"@
    } else if introductory {
        "slot follows an introductory-word candidate"@
    } else if coordination {
        "slot is inside a coordination group"@
    } else {
        "slot has "@ + strength_name(strength) + " boundary evidence"@
    }
}

/// Why the slot is what it is, in words.
pub fn slot_explanation(
    strength: PunctuationBoundaryStrength,
    between_clauses: bool,
    after_introductory_candidate: bool,
    in_coordination: bool,
) -> (r: String)
    ensures
        r@ == spec_slot_explanation(strength, between_clauses, after_introductory_candidate, in_coordination),
{
    if between_clauses {
        owned("slot is between clause candidates")
    } else if after_introductory_candidate {
        owned("slot follows an introductory-word candidate")
    } else if in_coordination {
        owned("slot is inside a coordination group")
    } else {
        let head = join_text("slot has ", strength_name_str(strength));
        let r = join_text(head.as_str(), " boundary evidence");
        r
    }
}

/// Words that open a sentence as an introductory word, lowercased.
pub open spec fn spec_introductory(w: Seq<char>) -> bool {
    ||| w == "безусловно"@ || w == "вероятно"@ || w == "возможно"@ || w == "итак"@
    ||| w == "кстати"@ || w == "конечно"@ || w == "например"@ || w == "однако"@
    ||| w == "следовательно"@ || w == "значит"@ || w == "по-видимому"@ || w == "во-первых"@
    ||| w == "во-вторых"@
}

pub fn is_introductory_candidate(value: &str) -> (r: bool)
    ensures
        r == spec_introductory(lower_seq(value@)),
{
    let c = str_chars(value);
    let l = lower_chars(c.as_slice());
    let w = l.as_slice();
    chars_eq_str(w, "безусловно") || chars_eq_str(w, "вероятно") || chars_eq_str(w, "возможно") || chars_eq_str(
        w,
        "итак",
    ) || chars_eq_str(w, "кстати") || chars_eq_str(w, "конечно") || chars_eq_str(w, "например") || chars_eq_str(
        w,
        "однако",
    ) || chars_eq_str(w, "следовательно") || chars_eq_str(w, "значит") || chars_eq_str(w, "по-видимому")
        || chars_eq_str(w, "во-первых") || chars_eq_str(w, "во-вторых")
}

/// Both words start with an uppercase letter.
pub fn subject_predicate_dash_candidate(left: &str, right: &str) -> (r: bool)
    ensures
        r == (left@.len() > 0 && unicode_uppercase(left@[0]) && right@.len() > 0 && unicode_uppercase(right@[0])),
{
    let l = str_chars(left);
    let rr = str_chars(right);
    l.len() > 0 && is_uppercase(l[0]) && rr.len() > 0 && is_uppercase(rr[0])
}

/// Either token's island is of the kind.
pub fn token_pair_has_island_kind(
    left: Option<&SyntacticIsland>,
    right: Option<&SyntacticIsland>,
    kind: SyntacticIslandKind,
) -> (r: bool)
    ensures
        r == ((left matches Some(x) && x.kind == kind) || (right matches Some(x) && x.kind == kind)),
{
    (match left {
        Some(x) => x.kind == kind,
        None => false,
    }) || (match right {
        Some(x) => x.kind == kind,
        None => false,
    })
}

/// An unsafe boundary unless the two tokens can be linked.
pub fn slot_blockers(left_idx: usize, right_idx: usize, islands: &SyntacticIslandMap) -> (r: Vec<SuppressionReason>)
    ensures
        r@ == (if spec_can_link(islands.islands_view(), left_idx as int, right_idx as int) {
            Seq::empty()
        } else {
            seq![SuppressionReason::UnsafeBoundary]
        }),
{
    let mut out: Vec<SuppressionReason> = Vec::new();
    if !islands.can_link_tokens(left_idx, right_idx) {
        out.push(SuppressionReason::UnsafeBoundary);
        assert(out@ =~= seq![SuppressionReason::UnsafeBoundary]);
    } else {
        assert(out@ =~= Seq::<SuppressionReason>::empty());
    }
    out
}

pub open spec fn clause_holds(c: ClauseCandidate, t: int) -> bool {
    match (c.start_token, c.end_token) {
        (Some(a), Some(b)) => a <= t && t <= b,
        _ => false,
    }
}

pub fn clause_contains_token(clause: &ClauseCandidate, token_index: usize) -> (r: bool)
    ensures
        r == clause_holds(*clause, token_index as int),
{
    match (clause.start_token, clause.end_token) {
        (Some(start), Some(end)) => start <= token_index && token_index <= end,
        _ => false,
    }
}

/// Index of the first clause from `k` on that holds token `t`.
pub open spec fn first_clause_for(cs: Seq<ClauseCandidate>, t: int, k: int) -> Option<int>
    decreases cs.len() - k,
{
    if k < 0 || k >= cs.len() {
        None
    } else if clause_holds(cs[k], t) {
        Some(k)
    } else {
        first_clause_for(cs, t, k + 1)
    }
}

fn find_clause(clauses: &[ClauseCandidate], t: usize) -> (r: Option<usize>)
    ensures
        match r {
            Some(k) => first_clause_for(clauses@, t as int, 0) == Some(k as int) && k < clauses@.len(),
            None => first_clause_for(clauses@, t as int, 0) is None,
        },
{
    let mut k: usize = 0;
    while k < clauses.len() && !clause_contains_token(&clauses[k], t)
        invariant
            k <= clauses@.len(),
            first_clause_for(clauses@, t as int, 0) == first_clause_for(clauses@, t as int, k as int),
        decreases clauses@.len() - k,
    {
        k = k + 1;
    }
    if k < clauses.len() {
        Some(k)
    } else {
        None
    }
}

/// The two linkable tokens lie in clause candidates with different ids.
pub open spec fn spec_between_clauses(cs: Seq<ClauseCandidate>, v: Seq<IslandView>, l: int, r: int) -> bool {
    spec_can_link(v, l, r) && match (first_clause_for(cs, l, 0), first_clause_for(cs, r, 0)) {
        (Some(a), Some(b)) => cs[a].id != cs[b].id,
        _ => false,
    }
}

pub fn between_clause_candidates(
    left_idx: usize,
    right_idx: usize,
    clauses: &[ClauseCandidate],
    islands: &SyntacticIslandMap,
) -> (r: bool)
    ensures
        r == spec_between_clauses(clauses@, islands.islands_view(), left_idx as int, right_idx as int),
{
    if !islands.can_link_tokens(left_idx, right_idx) {
        return false;
    }
    match (find_clause(clauses, left_idx), find_clause(clauses, right_idx)) {
        (Some(a), Some(b)) => clauses[a].id != clauses[b].id,
        _ => false,
    }
}

} // verus!
