use vstd::prelude::*;
use crate::text::Span;
use crate::syntax::model::SyntaxConfidence;
use crate::syntax::relations::SyntaxRelationBlocker;

verus! {

broadcast use vstd::seq_lib::group_seq_properties;

#[derive(Debug, Clone, Copy, PartialEq, Eq, Structural, PartialOrd, Ord, Hash)]
pub enum ProofConfidence {
    Certain,
    Strong,
    Weak,
    Ambiguous,
}

pub open spec fn proof_confidence_of(value: SyntaxConfidence) -> ProofConfidence {
    match value {
        SyntaxConfidence::Certain => ProofConfidence::Certain,
        SyntaxConfidence::Strong => ProofConfidence::Strong,
        SyntaxConfidence::Weak => ProofConfidence::Weak,
        SyntaxConfidence::Ambiguous => ProofConfidence::Ambiguous,
    }
}

impl From<SyntaxConfidence> for ProofConfidence {
    fn from(value: SyntaxConfidence) -> (r: Self) {
        match value {
            SyntaxConfidence::Certain => ProofConfidence::Certain,
            SyntaxConfidence::Strong => ProofConfidence::Strong,
            SyntaxConfidence::Weak => ProofConfidence::Weak,
            SyntaxConfidence::Ambiguous => ProofConfidence::Ambiguous,
        }
    }
}

impl vstd::std_specs::convert::FromSpecImpl<SyntaxConfidence> for ProofConfidence {
    open spec fn obeys_from_spec() -> bool {
        true
    }

    open spec fn from_spec(v: SyntaxConfidence) -> Self {
        proof_confidence_of(v)
    }
}

#[derive(Debug, Clone, Copy, PartialEq, Eq, Structural, PartialOrd, Ord, Hash)]
pub enum SuppressionReason {
    InlineSuppression,
    FileSuppression,
    UnsafeBoundary,
    QuoteBoundary,
    ParenthesisBoundary,
    DirectSpeechBoundary,
    ClauseBoundary,
    SentenceBoundary,
    AmbiguousMorphology,
    UnknownMorphology,
    InsufficientMorphology,
    ConflictNotProven,
    NonActionableConfidence,
    PunctuationBetween,
    NewlineBetween,
    Coordination,
    UnsupportedRuleCapability,
    EmptySpan,
    Unknown,
}

/// The suppression reason a relation blocker stands for.
pub open spec fn reason_of_blocker(b: SyntaxRelationBlocker) -> SuppressionReason {
    match b {
        SyntaxRelationBlocker::PunctuationBetween => SuppressionReason::PunctuationBetween,
        SyntaxRelationBlocker::SentenceBoundaryBetween => SuppressionReason::SentenceBoundary,
        SyntaxRelationBlocker::NewlineBetween => SuppressionReason::NewlineBetween,
        SyntaxRelationBlocker::AmbiguousMorphology => SuppressionReason::AmbiguousMorphology,
        SyntaxRelationBlocker::UnknownMorphology => SuppressionReason::UnknownMorphology,
        SyntaxRelationBlocker::Coordination => SuppressionReason::Coordination,
    }
}

impl From<SyntaxRelationBlocker> for SuppressionReason {
    fn from(value: SyntaxRelationBlocker) -> (r: Self) {
        match value {
            SyntaxRelationBlocker::PunctuationBetween => SuppressionReason::PunctuationBetween,
            SyntaxRelationBlocker::SentenceBoundaryBetween => SuppressionReason::SentenceBoundary,
            SyntaxRelationBlocker::NewlineBetween => SuppressionReason::NewlineBetween,
            SyntaxRelationBlocker::AmbiguousMorphology => SuppressionReason::AmbiguousMorphology,
            SyntaxRelationBlocker::UnknownMorphology => SuppressionReason::UnknownMorphology,
            SyntaxRelationBlocker::Coordination => SuppressionReason::Coordination,
        }
    }
}

impl vstd::std_specs::convert::FromSpecImpl<SyntaxRelationBlocker> for SuppressionReason {
    open spec fn obeys_from_spec() -> bool {
        true
    }

    open spec fn from_spec(v: SyntaxRelationBlocker) -> Self {
        reason_of_blocker(v)
    }
}

/// Position of a reason in declaration order, which its derived `Ord`
/// follows.
pub open spec fn reason_rank(r: SuppressionReason) -> int {
    match r {
        SuppressionReason::InlineSuppression => 0,
        SuppressionReason::FileSuppression => 1,
        SuppressionReason::UnsafeBoundary => 2,
        SuppressionReason::QuoteBoundary => 3,
        SuppressionReason::ParenthesisBoundary => 4,
        SuppressionReason::DirectSpeechBoundary => 5,
        SuppressionReason::ClauseBoundary => 6,
        SuppressionReason::SentenceBoundary => 7,
        SuppressionReason::AmbiguousMorphology => 8,
        SuppressionReason::UnknownMorphology => 9,
        SuppressionReason::InsufficientMorphology => 10,
        SuppressionReason::ConflictNotProven => 11,
        SuppressionReason::NonActionableConfidence => 12,
        SuppressionReason::PunctuationBetween => 13,
        SuppressionReason::NewlineBetween => 14,
        SuppressionReason::Coordination => 15,
        SuppressionReason::UnsupportedRuleCapability => 16,
        SuppressionReason::EmptySpan => 17,
        SuppressionReason::Unknown => 18,
    }
}

pub fn reason_rank_exec(r: SuppressionReason) -> (k: u8)
    ensures
        k == reason_rank(r),
{
    match r {
        SuppressionReason::InlineSuppression => 0,
        SuppressionReason::FileSuppression => 1,
        SuppressionReason::UnsafeBoundary => 2,
        SuppressionReason::QuoteBoundary => 3,
        SuppressionReason::ParenthesisBoundary => 4,
        SuppressionReason::DirectSpeechBoundary => 5,
        SuppressionReason::ClauseBoundary => 6,
        SuppressionReason::SentenceBoundary => 7,
        SuppressionReason::AmbiguousMorphology => 8,
        SuppressionReason::UnknownMorphology => 9,
        SuppressionReason::InsufficientMorphology => 10,
        SuppressionReason::ConflictNotProven => 11,
        SuppressionReason::NonActionableConfidence => 12,
        SuppressionReason::PunctuationBetween => 13,
        SuppressionReason::NewlineBetween => 14,
        SuppressionReason::Coordination => 15,
        SuppressionReason::UnsupportedRuleCapability => 16,
        SuppressionReason::EmptySpan => 17,
        SuppressionReason::Unknown => 18,
    }
}

pub proof fn lemma_reason_rank_injective(a: SuppressionReason, b: SuppressionReason)
    ensures
        reason_rank(a) == reason_rank(b) ==> a == b,
{
}

/// Strictly increasing in declaration order: sorted with no repeats.
pub open spec fn reasons_sorted_set(v: Seq<SuppressionReason>) -> bool {
    forall|i: int, j: int| 0 <= i < j < v.len() ==> reason_rank(#[trigger] v[i]) < reason_rank(#[trigger] v[j])
}

/// Inserts `b` into a sorted, repeat-free list of reasons, keeping it so.
pub fn insert_reason(v: &mut Vec<SuppressionReason>, b: SuppressionReason)
    requires
        reasons_sorted_set(old(v)@),
    ensures
        reasons_sorted_set(final(v)@),
        final(v)@.to_set() == old(v)@.to_set().insert(b),
{
    let ghost old_v = v@;
    let rb = reason_rank_exec(b);
    let mut i: usize = 0;
    while i < v.len() && reason_rank_exec(v[i]) < rb
        invariant
            v@ == old_v,
            rb == reason_rank(b),
            reasons_sorted_set(v@),
            i <= v@.len(),
            forall|k: int| 0 <= k < i ==> reason_rank(#[trigger] v@[k]) < reason_rank(b),
        decreases v@.len() - i,
    {
        i = i + 1;
    }
    if i < v.len() && v[i] == b {
        assert(old_v.to_set().insert(b) =~= old_v.to_set()) by {
            assert(old_v.contains(b));
        }
        return;
    }
    proof {
        if i < v@.len() {
            lemma_reason_rank_injective(v@[i as int], b);
        }
    }
    v.insert(i, b);
    proof {
        assert forall|p: int, q: int| 0 <= p < q < v@.len() implies reason_rank(#[trigger] v@[p]) < reason_rank(#[trigger] v@[q]) by {
            if q < i {
                assert(v@[p] == old_v[p] && v@[q] == old_v[q]);
            } else if q == i {
                assert(v@[p] == old_v[p]);
            } else if p < i {
                assert(v@[q] == old_v[q - 1]);
                assert(v@[p] == old_v[p]);
                if i < old_v.len() {
                    assert(reason_rank(old_v[i as int]) >= reason_rank(b));
                    assert(reason_rank(old_v[i as int]) > reason_rank(b));
                    if q - 1 > i {
                        assert(reason_rank(old_v[i as int]) < reason_rank(old_v[q - 1]));
                    }
                }
            } else if p == i {
                assert(v@[q] == old_v[q - 1]);
                assert(reason_rank(old_v[i as int]) > reason_rank(b));
                if q - 1 > i {
                    assert(reason_rank(old_v[i as int]) < reason_rank(old_v[q - 1]));
                }
            } else {
                assert(v@[q] == old_v[q - 1] && v@[p] == old_v[p - 1]);
            }
        }
        assert(v@.to_set() =~= old_v.to_set().insert(b)) by {
            assert forall|x: SuppressionReason| v@.contains(x) <==> old_v.contains(x) || x == b by {
                if v@.contains(x) {
                    let k = choose|k: int| 0 <= k < v@.len() && v@[k] == x;
                    if k < i {
                        assert(old_v[k] == x);
                    } else if k > i {
                        assert(old_v[k - 1] == x);
                    }
                }
                if old_v.contains(x) {
                    let k = choose|k: int| 0 <= k < old_v.len() && old_v[k] == x;
                    if k < i {
                        assert(v@[k] == x);
                    } else {
                        assert(v@[k + 1] == x);
                    }
                }
                if x == b {
                    assert(v@[i as int] == b);
                }
            }
        }
    }
}

/// Sorts the reasons and drops repeats.
pub fn sort_dedup_reasons(v: Vec<SuppressionReason>) -> (r: Vec<SuppressionReason>)
    ensures
        reasons_sorted_set(r@),
        r@.to_set() == v@.to_set(),
{
    let mut out: Vec<SuppressionReason> = Vec::new();
    let mut i: usize = 0;
    while i < v.len()
        invariant
            i <= v@.len(),
            reasons_sorted_set(out@),
            out@.to_set() == v@.take(i as int).to_set(),
        decreases v@.len() - i,
    {
        insert_reason(&mut out, v[i]);
        assert(v@.take(i as int + 1) =~= v@.take(i as int).push(v@[i as int]));
        proof {
            v@.take(i as int).lemma_push_to_set_commute(v@[i as int]);
        }
        i = i + 1;
    }
    assert(v@.take(v@.len() as int) =~= v@);
    out
}

#[derive(Debug, Clone, Copy, PartialEq, Eq, Structural, PartialOrd, Ord, Hash)]
pub enum DiagnosticProofKind {
    AgreementConflict,
    GovernmentConflict,
    QuantityConflict,
    BoundarySuppression,
    IslandSuppression,
    AmbiguitySuppression,
    CapabilityContract,
    DocumentConsistency,
    DocumentAbbreviation,
    Unknown,
}

#[derive(Debug, Clone, PartialEq, Eq)]
pub struct DiagnosticFact {
    pub key: String,
    pub value: String,
    pub span: Option<Span>,
}

impl DiagnosticFact {
    pub fn new(key: &str, value: &str, span: Option<Span>) -> (r: Self)
        ensures
            r.key@ == key@,
            r.value@ == value@,
            r.span == span,
    {
        DiagnosticFact { key: key.to_owned(), value: value.to_owned(), span }
    }
}

#[derive(Debug, Clone, PartialEq, Eq)]
pub struct DiagnosticAssumption {
    pub key: String,
    pub value: String,
    pub confidence: ProofConfidence,
}

impl DiagnosticAssumption {
    pub fn new(key: &str, value: &str, confidence: ProofConfidence) -> (r: Self)
        ensures
            r.key@ == key@,
            r.value@ == value@,
            r.confidence == confidence,
    {
        DiagnosticAssumption { key: key.to_owned(), value: value.to_owned(), confidence }
    }
}

#[derive(Debug, Clone, PartialEq, Eq)]
pub struct DiagnosticConflict {
    pub kind: String,
    pub expected: Vec<String>,
    pub observed: Vec<String>,
    pub span: Span,
}

#[derive(Debug, Clone, PartialEq, Eq)]
pub struct SuppressedAlternative {
    pub label: String,
    pub reason: SuppressionReason,
    pub span: Option<Span>,
}

#[derive(Debug, Clone, PartialEq, Eq)]
pub struct DiagnosticProof {
    pub kind: DiagnosticProofKind,
    pub facts: Vec<DiagnosticFact>,
    pub assumptions: Vec<DiagnosticAssumption>,
    pub conflict: Option<DiagnosticConflict>,
    pub confidence: ProofConfidence,
    pub blockers: Vec<SuppressionReason>,
    pub suppressed_alternatives: Vec<SuppressedAlternative>,
}

impl DiagnosticProof {
    pub fn new(kind: DiagnosticProofKind, confidence: SyntaxConfidence) -> (r: Self)
        ensures
            r.kind == kind,
            r.facts@.len() == 0,
            r.assumptions@.len() == 0,
            r.conflict is None,
            r.confidence == proof_confidence_of(confidence),
            r.blockers@.len() == 0,
            r.suppressed_alternatives@.len() == 0,
    {
        DiagnosticProof {
            kind,
            facts: Vec::new(),
            assumptions: Vec::new(),
            conflict: None,
            confidence: ProofConfidence::from(confidence),
            blockers: Vec::new(),
            suppressed_alternatives: Vec::new(),
        }
    }

    pub fn with_fact(self, fact: DiagnosticFact) -> (r: Self)
        ensures
            r.facts@ == self.facts@.push(fact),
            r.kind == self.kind && r.assumptions == self.assumptions && r.conflict == self.conflict
                && r.confidence == self.confidence && r.blockers == self.blockers
                && r.suppressed_alternatives == self.suppressed_alternatives,
    {
        let mut p = self;
        p.facts.push(fact);
        p
    }

    pub fn with_assumption(self, assumption: DiagnosticAssumption) -> (r: Self)
        ensures
            r.assumptions@ == self.assumptions@.push(assumption),
            r.kind == self.kind && r.facts == self.facts && r.conflict == self.conflict
                && r.confidence == self.confidence && r.blockers == self.blockers
                && r.suppressed_alternatives == self.suppressed_alternatives,
    {
        let mut p = self;
        p.assumptions.push(assumption);
        p
    }

    pub fn with_conflict(self, conflict: DiagnosticConflict) -> (r: Self)
        ensures
            r.conflict == Some(conflict),
            r.kind == self.kind && r.facts == self.facts && r.assumptions == self.assumptions
                && r.confidence == self.confidence && r.blockers == self.blockers
                && r.suppressed_alternatives == self.suppressed_alternatives,
    {
        let mut p = self;
        p.conflict = Some(conflict);
        p
    }

    /// Adds a blocker; the blockers stay sorted and free of repeats.
    pub fn with_blocker(self, blocker: SuppressionReason) -> (r: Self)
        ensures
            reasons_sorted_set(r.blockers@),
            r.blockers@.to_set() == self.blockers@.to_set().insert(blocker),
            r.kind == self.kind && r.facts == self.facts && r.assumptions == self.assumptions
                && r.conflict == self.conflict && r.confidence == self.confidence
                && r.suppressed_alternatives == self.suppressed_alternatives,
    {
        let mut p = self;
        let mut all = p.blockers;
        all.push(blocker);
        proof {
            self.blockers@.lemma_push_to_set_commute(blocker);
        }
        p.blockers = sort_dedup_reasons(all);
        p
    }

    /// Adds blockers; the blockers stay sorted and free of repeats.
    pub fn with_blockers(self, blockers: Vec<SuppressionReason>) -> (r: Self)
        ensures
            reasons_sorted_set(r.blockers@),
            r.blockers@.to_set() == self.blockers@.to_set().union(blockers@.to_set()),
            r.kind == self.kind && r.facts == self.facts && r.assumptions == self.assumptions
                && r.conflict == self.conflict && r.confidence == self.confidence
                && r.suppressed_alternatives == self.suppressed_alternatives,
    {
        let mut p = self;
        let mut all = p.blockers;
        let mut extra = blockers;
        all.append(&mut extra);
        proof {
            assert(all@ == self.blockers@ + blockers@);
            assert((self.blockers@ + blockers@).to_set() =~= self.blockers@.to_set().union(blockers@.to_set())) by {
                assert forall|x| (self.blockers@ + blockers@).contains(x) <==> self.blockers@.contains(x) || blockers@.contains(x) by {
                    if (self.blockers@ + blockers@).contains(x) {
                        let k = choose|k: int| 0 <= k < (self.blockers@ + blockers@).len() && (self.blockers@ + blockers@)[k] == x;
                        if k >= self.blockers@.len() {
                            assert(blockers@[k - self.blockers@.len()] == x);
                        }
                    }
                    if blockers@.contains(x) {
                        let k = choose|k: int| 0 <= k < blockers@.len() && blockers@[k] == x;
                        assert((self.blockers@ + blockers@)[k + self.blockers@.len()] == x);
                    }
                    if self.blockers@.contains(x) {
                        let k = choose|k: int| 0 <= k < self.blockers@.len() && self.blockers@[k] == x;
                        assert((self.blockers@ + blockers@)[k] == x);
                    }
                }
            }
        }
        p.blockers = sort_dedup_reasons(all);
        p
    }

    pub fn with_suppressed_alternative(self, alternative: SuppressedAlternative) -> (r: Self)
        ensures
            r.suppressed_alternatives@ == self.suppressed_alternatives@.push(alternative),
            r.kind == self.kind && r.facts == self.facts && r.assumptions == self.assumptions
                && r.conflict == self.conflict && r.confidence == self.confidence
                && r.blockers == self.blockers,
    {
        let mut p = self;
        p.suppressed_alternatives.push(alternative);
        p
    }

    /// A proof is actionable when it is certain or strong, unblocked and
    /// records a conflict.
    pub fn is_actionable(&self) -> (r: bool)
        ensures
            r == ((self.confidence == ProofConfidence::Certain || self.confidence
                == ProofConfidence::Strong) && self.blockers@.len() == 0 && self.conflict is Some),
    {
        (self.confidence == ProofConfidence::Certain || self.confidence == ProofConfidence::Strong)
            && self.blockers.len() == 0 && self.conflict.is_some()
    }
}

} // verus!
