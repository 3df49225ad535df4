use vstd::prelude::*;
use crate::text::Span;
use crate::syntax::diagnostics::{DiagnosticProof, DiagnosticProofKind, ProofConfidence, SuppressionReason};
use crate::syntax::agreement::{AgreementGraphEdge, AgreementGraphEdgeKind};
use crate::syntax::agreement_graph::{agreement_edge_proof, is_agreement_edge_proof, AgreementGraph};
use crate::syntax::government::{
    government_frame_proof, is_government_frame_proof, GovernmentFrame, GovernmentFrameKind, MorphCompatibility,
};
use crate::syntax::punctuation::{is_slot_proof, punctuation_slot_proof, PunctuationMark, PunctuationSlot};
use crate::syntax::document_context::DocumentContext;
use crate::syntax::document_terms::DocumentAbbreviation;
use crate::syntax::document_structure::{HeadingCandidate, ListItemCandidate};
use crate::syntax::document_diagnostics::{
    covering, document_abbreviation_candidates, document_abbreviation_proof, document_style_candidates,
    document_style_proof, is_abbreviation_proof, unexpanded_upto,
};

verus! {

#[derive(Debug, Clone, Copy, PartialEq, Eq, Structural, PartialOrd, Ord, Hash)]
pub enum DiagnosticLedgerStatus {
    EmittedCandidate,
    Suppressed,
}

#[derive(Debug, Clone, Copy, PartialEq, Eq, Structural, PartialOrd, Ord, Hash)]
pub enum DiagnosticLedgerKind {
    Agreement,
    Government,
    Quantity,
    Punctuation,
    DocumentStyle,
    DocumentAbbreviation,
    Unknown,
}

/// One candidate diagnostic with its proof, emitted or suppressed.
#[derive(Debug, Clone, PartialEq, Eq)]
pub struct DiagnosticLedgerEntry {
    pub id: usize,
    pub kind: DiagnosticLedgerKind,
    pub status: DiagnosticLedgerStatus,
    pub span: Span,
    pub proof: DiagnosticProof,
}

/// Where a ledger entry comes from.
pub enum LedgerSource {
    Edge(int),
    Frame(int),
    Slot(int, PunctuationMark),
    Abbreviation(int),
    Style(Seq<char>),
}

/// What a ledger entry is: its kind, its span and its source.
pub struct LedgerItem {
    pub kind: DiagnosticLedgerKind,
    pub span: Span,
    pub source: LedgerSource,
}

/// The proof can be emitted: certain or strong, unblocked, with a conflict.
pub open spec fn proof_actionable(p: DiagnosticProof) -> bool {
    (p.confidence == ProofConfidence::Certain || p.confidence == ProofConfidence::Strong) && p.blockers@.len() == 0
        && p.conflict is Some
}

/// An edge goes into the ledger when its readings cannot agree or something
/// blocks it.
pub open spec fn edge_listed(e: AgreementGraphEdge) -> bool {
    e.constraint.compatibility == MorphCompatibility::Incompatible || e.blockers@.len() > 0
}

/// The ledger items of the first `k` edges.
pub open spec fn edge_items(edges: Seq<AgreementGraphEdge>, k: int) -> Seq<LedgerItem>
    decreases k,
{
    if k <= 0 || k > edges.len() {
        Seq::empty()
    } else {
        let e = edges[k - 1];
        edge_items(edges, k - 1) + if edge_listed(e) {
            seq![
                LedgerItem {
                    kind: if e.kind == AgreementGraphEdgeKind::NumeralHead {
                        DiagnosticLedgerKind::Quantity
                    } else {
                        DiagnosticLedgerKind::Agreement
                    },
                    span: e.span,
                    source: LedgerSource::Edge(k - 1),
                },
            ]
        } else {
            Seq::empty()
        }
    }
}

/// The ledger kind of a frame kind.
pub open spec fn frame_ledger_kind(k: GovernmentFrameKind) -> DiagnosticLedgerKind {
    match k {
        GovernmentFrameKind::Numeral => DiagnosticLedgerKind::Quantity,
        GovernmentFrameKind::Preposition => DiagnosticLedgerKind::Government,
        GovernmentFrameKind::Verb => DiagnosticLedgerKind::Government,
        GovernmentFrameKind::Unknown => DiagnosticLedgerKind::Unknown,
    }
}

/// The ledger items of the first `k` frames: those whose cases clash or
/// that something blocks.
pub open spec fn frame_items(frames: Seq<GovernmentFrame>, k: int) -> Seq<LedgerItem>
    decreases k,
{
    if k <= 0 || k > frames.len() {
        Seq::empty()
    } else {
        let f = frames[k - 1];
        frame_items(frames, k - 1) + if f.compatibility == MorphCompatibility::Incompatible || f.blockers@.len() > 0 {
            seq![LedgerItem { kind: frame_ledger_kind(f.kind), span: f.span, source: LedgerSource::Frame(k - 1) }]
        } else {
            Seq::empty()
        }
    }
}

/// The items of slot `i` for its first `j` expected marks that are absent.
pub open spec fn mark_items(slot: PunctuationSlot, i: int, j: int) -> Seq<LedgerItem>
    decreases j,
{
    if j <= 0 || j > slot.expected_marks@.len() {
        Seq::empty()
    } else {
        let m = slot.expected_marks@[j - 1];
        mark_items(slot, i, j - 1) + if !slot.existing_marks@.contains(m) {
            seq![LedgerItem { kind: DiagnosticLedgerKind::Punctuation, span: slot.span, source: LedgerSource::Slot(i, m) }]
        } else {
            Seq::empty()
        }
    }
}

/// The ledger items of the first `k` slots.
pub open spec fn slot_items(slots: Seq<PunctuationSlot>, k: int) -> Seq<LedgerItem>
    decreases k,
{
    if k <= 0 || k > slots.len() {
        Seq::empty()
    } else {
        slot_items(slots, k - 1) + mark_items(slots[k - 1], k - 1, slots[k - 1].expected_marks@.len() as int)
    }
}

/// The ledger items of the first `k` abbreviations that recur without an
/// expansion.
pub open spec fn abbreviation_items(ab: Seq<DocumentAbbreviation>, k: int) -> Seq<LedgerItem>
    decreases k,
{
    if k <= 0 || k > ab.len() {
        Seq::empty()
    } else {
        abbreviation_items(ab, k - 1) + seq![
            LedgerItem {
                kind: DiagnosticLedgerKind::DocumentAbbreviation,
                span: ab[k - 1].first_span,
                source: LedgerSource::Abbreviation(k - 1),
            },
        ]
    }
}

/// The ledger items of the document style checks that fail.
pub open spec fn style_items(ctx: DocumentContext) -> Seq<LedgerItem> {
    (if ctx.style.mixed_list_markers {
        seq![
            LedgerItem {
                kind: DiagnosticLedgerKind::DocumentStyle,
                span: covering(ctx.list_items@.map_values(|i: ListItemCandidate| i.span)),
                source: LedgerSource::Style("mixed_list_markers"@),
            },
        ]
    } else {
        Seq::empty()
    }) + (if ctx.style.mixed_heading_punctuation {
        seq![
            LedgerItem {
                kind: DiagnosticLedgerKind::DocumentStyle,
                span: covering(ctx.headings@.map_values(|h: HeadingCandidate| h.span)),
                source: LedgerSource::Style("mixed_heading_punctuation"@),
            },
        ]
    } else {
        Seq::empty()
    })
}

/// The ledger items of the facts, in order: agreement edges, government
/// frames, punctuation slots, abbreviations, style checks.
pub open spec fn ledger_items(
    edges: Seq<AgreementGraphEdge>,
    frames: Seq<GovernmentFrame>,
    slots: Seq<PunctuationSlot>,
    ctx: DocumentContext,
) -> Seq<LedgerItem> {
    let ab = unexpanded_upto(ctx.abbreviations@, ctx.abbreviations@.len() as int);
    edge_items(edges, edges.len() as int) + frame_items(frames, frames.len() as int) + slot_items(
        slots,
        slots.len() as int,
    ) + abbreviation_items(ab, ab.len() as int) + style_items(ctx)
}

/// Entry `e` is item `it` at position `k`: the proof is the one its source
/// gives, and it is emitted exactly when that proof is actionable.
pub open spec fn entry_is(
    e: DiagnosticLedgerEntry,
    k: int,
    it: LedgerItem,
    edges: Seq<AgreementGraphEdge>,
    frames: Seq<GovernmentFrame>,
    slots: Seq<PunctuationSlot>,
    ab: Seq<DocumentAbbreviation>,
) -> bool {
    &&& e.id == k
    &&& e.kind == it.kind
    &&& e.span == it.span
    &&& e.status == if proof_actionable(e.proof) {
        DiagnosticLedgerStatus::EmittedCandidate
    } else {
        DiagnosticLedgerStatus::Suppressed
    }
    &&& match it.source {
        LedgerSource::Edge(i) => is_agreement_edge_proof(edges[i], e.proof),
        LedgerSource::Frame(i) => is_government_frame_proof(frames[i], e.proof),
        LedgerSource::Slot(i, m) => is_slot_proof(slots[i], m, e.proof),
        LedgerSource::Abbreviation(i) => is_abbreviation_proof(ab[i], SuppressionReason::ConflictNotProven, e.proof),
        LedgerSource::Style(key) => e.proof.kind == DiagnosticProofKind::DocumentConsistency && e.proof.confidence
            == ProofConfidence::Strong && e.proof.blockers@.len() == 0 && e.proof.facts@.len() > 0
            && e.proof.facts@[0].key@ == "style_check"@ && e.proof.facts@[0].value@ == key
            && e.proof.facts@[0].span == Some(it.span),
    }
}

/// Each entry is the item at its position.
pub open spec fn entries_are(
    r: Seq<DiagnosticLedgerEntry>,
    items: Seq<LedgerItem>,
    edges: Seq<AgreementGraphEdge>,
    frames: Seq<GovernmentFrame>,
    slots: Seq<PunctuationSlot>,
    ab: Seq<DocumentAbbreviation>,
) -> bool {
    r.len() == items.len() && forall|k: int|
        0 <= k < r.len() ==> #[trigger] entry_is(r[k], k, items[k], edges, frames, slots, ab)
}

fn push_entry(out: &mut Vec<DiagnosticLedgerEntry>, kind: DiagnosticLedgerKind, span: Span, proof: DiagnosticProof)
    ensures
        final(out)@.len() == old(out)@.len() + 1,
        forall|k: int| 0 <= k < old(out)@.len() ==> final(out)@[k] == old(out)@[k],
        ({
            let e = final(out)@[old(out)@.len() as int];
            &&& e.id == old(out)@.len() && e.kind == kind && e.span == span && e.proof == proof
            &&& e.status == if proof_actionable(proof) {
                DiagnosticLedgerStatus::EmittedCandidate
            } else {
                DiagnosticLedgerStatus::Suppressed
            }
        }),
{
    let status = if proof.is_actionable() {
        DiagnosticLedgerStatus::EmittedCandidate
    } else {
        DiagnosticLedgerStatus::Suppressed
    };
    let id = out.len();
    out.push(DiagnosticLedgerEntry { id, kind, status, span, proof });
}

/// The entries of the facts' candidate diagnostics, numbered in order.
pub struct DiagnosticLedger {
    entries: Vec<DiagnosticLedgerEntry>,
}

/// The entries of `s` with status `st`, in order.
pub open spec fn entries_with_status(s: Seq<DiagnosticLedgerEntry>, st: DiagnosticLedgerStatus) -> Seq<
    DiagnosticLedgerEntry,
>
    decreases s.len(),
{
    if s.len() == 0 {
        s
    } else if s.last().status == st {
        entries_with_status(s.drop_last(), st).push(s.last())
    } else {
        entries_with_status(s.drop_last(), st)
    }
}

/// The entries of `s` of kind `kind`, in order.
pub open spec fn entries_of_kind(s: Seq<DiagnosticLedgerEntry>, kind: DiagnosticLedgerKind) -> Seq<DiagnosticLedgerEntry>
    decreases s.len(),
{
    if s.len() == 0 {
        s
    } else if s.last().kind == kind {
        entries_of_kind(s.drop_last(), kind).push(s.last())
    } else {
        entries_of_kind(s.drop_last(), kind)
    }
}

impl DiagnosticLedger {
    /// The ledger's entries.
    pub closed spec fn entry_list(&self) -> Seq<DiagnosticLedgerEntry> {
        self.entries@
    }

    /// One entry for each agreement edge whose readings cannot agree or
    /// that something blocks, each such government frame, each expected
    /// but absent mark of a punctuation slot, each abbreviation that recurs
    /// without an expansion, and each failed style check, in that order;
    /// each entry's id is its position and it is emitted exactly when its
    /// proof is actionable.
    pub fn from_facts(
        graph: &AgreementGraph,
        frames: &[GovernmentFrame],
        slots: &[PunctuationSlot],
        context: &DocumentContext,
    ) -> (r: Self)
        ensures
            entries_are(
                r.entry_list(),
                ledger_items(graph.edge_list(), frames@, slots@, *context),
                graph.edge_list(),
                frames@,
                slots@,
                unexpanded_upto(context.abbreviations@, context.abbreviations@.len() as int),
            ),
    {
        let ghost edges = graph.edge_list();
        let ghost ab = unexpanded_upto(context.abbreviations@, context.abbreviations@.len() as int);
        let ghost fs = frames@;
        let ghost ss = slots@;
        let mut out: Vec<DiagnosticLedgerEntry> = Vec::new();
        let es = graph.edges();
        let mut i: usize = 0;
        while i < es.len()
            invariant
                es@ == edges,
                i <= edges.len(),
                entries_are(out@, edge_items(edges, i as int), edges, fs, ss, ab),
            decreases edges.len() - i,
        {
            let ghost prev = out@;
            let ghost items = edge_items(edges, i as int);
            let e = &es[i];
            if e.constraint.compatibility == MorphCompatibility::Incompatible || e.blockers.len() > 0 {
                let proof = agreement_edge_proof(e);
                let kind = if e.kind == AgreementGraphEdgeKind::NumeralHead {
                    DiagnosticLedgerKind::Quantity
                } else {
                    DiagnosticLedgerKind::Agreement
                };
                push_entry(&mut out, kind, e.span, proof);
                proof {
                    let ni = edge_items(edges, i as int + 1);
                    assert(ni =~= items.push(ni[items.len() as int]));
                    assert forall|k: int| 0 <= k < out@.len() implies #[trigger] entry_is(out@[k], k, ni[k], edges, fs, ss, ab) by {
                        if k < prev.len() {
                            assert(entry_is(prev[k], k, items[k], edges, fs, ss, ab));
                        }
                    }
                }
            } else {
                assert(edge_items(edges, i as int + 1) =~= items);
            }
            i = i + 1;
        }
        let ghost n1 = out@.len();
        let ghost p1 = edge_items(edges, edges.len() as int);
        let mut j: usize = 0;
        while j < frames.len()
            invariant
                j <= fs.len(),
                fs == frames@,
                p1.len() == n1,
                entries_are(out@, p1 + frame_items(fs, j as int), edges, fs, ss, ab),
            decreases fs.len() - j,
        {
            let ghost prev = out@;
            let ghost items = p1 + frame_items(fs, j as int);
            let f = &frames[j];
            if f.compatibility == MorphCompatibility::Incompatible || f.blockers.len() > 0 {
                let proof = government_frame_proof(f);
                let kind = match f.kind {
                    GovernmentFrameKind::Numeral => DiagnosticLedgerKind::Quantity,
                    GovernmentFrameKind::Preposition => DiagnosticLedgerKind::Government,
                    GovernmentFrameKind::Verb => DiagnosticLedgerKind::Government,
                    GovernmentFrameKind::Unknown => DiagnosticLedgerKind::Unknown,
                };
                push_entry(&mut out, kind, f.span, proof);
                proof {
                    let ni = p1 + frame_items(fs, j as int + 1);
                    assert(ni =~= items.push(ni[items.len() as int]));
                    assert forall|k: int| 0 <= k < out@.len() implies #[trigger] entry_is(out@[k], k, ni[k], edges, fs, ss, ab) by {
                        if k < prev.len() {
                            assert(entry_is(prev[k], k, items[k], edges, fs, ss, ab));
                        }
                    }
                }
            } else {
                assert(p1 + frame_items(fs, j as int + 1) =~= items);
            }
            j = j + 1;
        }
        let ghost p2 = p1 + frame_items(fs, fs.len() as int);
        let mut si: usize = 0;
        while si < slots.len()
            invariant
                si <= ss.len(),
                ss == slots@,
                entries_are(out@, p2 + slot_items(ss, si as int), edges, fs, ss, ab),
            decreases ss.len() - si,
        {
            let slot = &slots[si];
            let mut mi: usize = 0;
            while mi < slot.expected_marks.len()
                invariant
                    si < ss.len(),
                    ss == slots@,
                    *slot == ss[si as int],
                    mi <= slot.expected_marks@.len(),
                    entries_are(
                        out@,
                        p2 + slot_items(ss, si as int) + mark_items(*slot, si as int, mi as int),
                        edges,
                        fs,
                        ss,
                        ab,
                    ),
                decreases slot.expected_marks@.len() - mi,
            {
                let ghost prev = out@;
                let ghost items = p2 + slot_items(ss, si as int) + mark_items(*slot, si as int, mi as int);
                let mark = slot.expected_marks[mi];
                if !slot.has_existing_mark(mark) {
                    let proof = punctuation_slot_proof(slot, mark);
                    push_entry(&mut out, DiagnosticLedgerKind::Punctuation, slot.span, proof);
                    proof {
                        let ni = p2 + slot_items(ss, si as int) + mark_items(*slot, si as int, mi as int + 1);
                        assert(ni =~= items.push(ni[items.len() as int]));
                        assert forall|k: int| 0 <= k < out@.len() implies #[trigger] entry_is(out@[k], k, ni[k], edges, fs, ss, ab) by {
                            if k < prev.len() {
                                assert(entry_is(prev[k], k, items[k], edges, fs, ss, ab));
                            }
                        }
                    }
                } else {
                    assert(p2 + slot_items(ss, si as int) + mark_items(*slot, si as int, mi as int + 1) =~= items);
                }
                mi = mi + 1;
            }
            assert(p2 + slot_items(ss, si as int + 1) =~= p2 + slot_items(ss, si as int) + mark_items(
                *slot,
                si as int,
                slot.expected_marks@.len() as int,
            ));
            si = si + 1;
        }
        let ghost p3 = p2 + slot_items(ss, ss.len() as int);
        let cands = document_abbreviation_candidates(context);
        let mut ai: usize = 0;
        while ai < cands.len()
            invariant
                ai <= cands@.len(),
                cands@.map_values(|c: crate::syntax::document_diagnostics::DocumentAbbreviationCandidate| *c.abbreviation) == ab,
                forall|k: int| 0 <= k < cands@.len() ==> (#[trigger] cands@[k]).reason == SuppressionReason::ConflictNotProven,
                entries_are(out@, p3 + abbreviation_items(ab, ai as int), edges, fs, ss, ab),
            decreases cands@.len() - ai,
        {
            let ghost prev = out@;
            let ghost items = p3 + abbreviation_items(ab, ai as int);
            let c = &cands[ai];
            assert(ab[ai as int] == *c.abbreviation);
            let proof = document_abbreviation_proof(c.abbreviation, c.reason);
            push_entry(&mut out, DiagnosticLedgerKind::DocumentAbbreviation, c.abbreviation.first_span, proof);
            proof {
                let ni = p3 + abbreviation_items(ab, ai as int + 1);
                assert(ni =~= items.push(ni[items.len() as int]));
                assert forall|k: int| 0 <= k < out@.len() implies #[trigger] entry_is(out@[k], k, ni[k], edges, fs, ss, ab) by {
                    if k < prev.len() {
                        assert(entry_is(prev[k], k, items[k], edges, fs, ss, ab));
                    }
                }
            }
            ai = ai + 1;
        }
        let ghost p4 = p3 + abbreviation_items(ab, ab.len() as int);
        let styles = document_style_candidates(context);
        proof {
            let si = style_items(*context);
            assert forall|k: int| 0 <= k < styles@.len() implies (#[trigger] styles@[k]).span == si[k].span
                && si[k].source == LedgerSource::Style(styles@[k].key@) by {
                if context.style.mixed_list_markers && k == 0 {
                } else {
                    assert(context.style.mixed_heading_punctuation);
                    assert(k == styles@.len() - 1);
                }
            }
        }
        let mut ti: usize = 0;
        while ti < styles.len()
            invariant
                ti <= styles@.len(),
                styles@.len() == style_items(*context).len(),
                forall|k: int|
                    0 <= k < styles@.len() ==> (#[trigger] styles@[k]).span == style_items(*context)[k].span
                        && style_items(*context)[k].source == LedgerSource::Style(styles@[k].key@),
                entries_are(out@, p4 + style_items(*context).take(ti as int), edges, fs, ss, ab),
            decreases styles@.len() - ti,
        {
            let ghost prev = out@;
            let ghost items = p4 + style_items(*context).take(ti as int);
            let c = &styles[ti];
            let proof = document_style_proof(c);
            push_entry(&mut out, DiagnosticLedgerKind::DocumentStyle, c.span, proof);
            proof {
                let ni = p4 + style_items(*context).take(ti as int + 1);
                assert(ni =~= items.push(ni[items.len() as int]));
                assert forall|k: int| 0 <= k < out@.len() implies #[trigger] entry_is(out@[k], k, ni[k], edges, fs, ss, ab) by {
                    if k < prev.len() {
                        assert(entry_is(prev[k], k, items[k], edges, fs, ss, ab));
                    }
                }
            }
            ti = ti + 1;
        }
        assert(style_items(*context).take(style_items(*context).len() as int) =~= style_items(*context));
        DiagnosticLedger { entries: out }
    }

    /// The entries, in order.
    pub fn entries(&self) -> (r: &Vec<DiagnosticLedgerEntry>)
        ensures
            r@ == self.entry_list(),
    {
        &self.entries
    }

    /// The suppressed entries, in order.
    pub fn suppressed(&self) -> (r: Vec<&DiagnosticLedgerEntry>)
        ensures
            r@.len() == entries_with_status(self.entry_list(), DiagnosticLedgerStatus::Suppressed).len(),
            forall|k: int|
                0 <= k < r@.len() ==> *r@[k] == #[trigger] entries_with_status(
                    self.entry_list(),
                    DiagnosticLedgerStatus::Suppressed,
                )[k],
    {
        self.with_status(DiagnosticLedgerStatus::Suppressed)
    }

    /// The emitted entries, in order.
    pub fn emitted_candidates(&self) -> (r: Vec<&DiagnosticLedgerEntry>)
        ensures
            r@.len() == entries_with_status(self.entry_list(), DiagnosticLedgerStatus::EmittedCandidate).len(),
            forall|k: int|
                0 <= k < r@.len() ==> *r@[k] == #[trigger] entries_with_status(
                    self.entry_list(),
                    DiagnosticLedgerStatus::EmittedCandidate,
                )[k],
    {
        self.with_status(DiagnosticLedgerStatus::EmittedCandidate)
    }

    fn with_status(&self, st: DiagnosticLedgerStatus) -> (r: Vec<&DiagnosticLedgerEntry>)
        ensures
            r@.len() == entries_with_status(self.entry_list(), st).len(),
            forall|k: int| 0 <= k < r@.len() ==> *r@[k] == #[trigger] entries_with_status(self.entry_list(), st)[k],
    {
        let mut out: Vec<&DiagnosticLedgerEntry> = Vec::new();
        let mut i: usize = 0;
        while i < self.entries.len()
            invariant
                i <= self.entries@.len(),
                out@.len() == entries_with_status(self.entries@.take(i as int), st).len(),
                forall|k: int|
                    0 <= k < out@.len() ==> *out@[k] == entries_with_status(self.entries@.take(i as int), st)[k],
            decreases self.entries@.len() - i,
        {
            let e = &self.entries[i];
            assert(self.entries@.take(i as int + 1).drop_last() =~= self.entries@.take(i as int));
            if e.status == st {
                out.push(e);
            }
            i = i + 1;
        }
        assert(self.entries@.take(self.entries@.len() as int) =~= self.entries@);
        out
    }

    /// The entries of kind `kind`, in order.
    pub fn entries_by_kind(&self, kind: DiagnosticLedgerKind) -> (r: Vec<&DiagnosticLedgerEntry>)
        ensures
            r@.len() == entries_of_kind(self.entry_list(), kind).len(),
            forall|k: int| 0 <= k < r@.len() ==> *r@[k] == #[trigger] entries_of_kind(self.entry_list(), kind)[k],
    {
        let mut out: Vec<&DiagnosticLedgerEntry> = Vec::new();
        let mut i: usize = 0;
        while i < self.entries.len()
            invariant
                i <= self.entries@.len(),
                out@.len() == entries_of_kind(self.entries@.take(i as int), kind).len(),
                forall|k: int|
                    0 <= k < out@.len() ==> *out@[k] == entries_of_kind(self.entries@.take(i as int), kind)[k],
            decreases self.entries@.len() - i,
        {
            let e = &self.entries[i];
            assert(self.entries@.take(i as int + 1).drop_last() =~= self.entries@.take(i as int));
            if e.kind == kind {
                out.push(e);
            }
            i = i + 1;
        }
        assert(self.entries@.take(self.entries@.len() as int) =~= self.entries@);
        out
    }
}

} // verus!
