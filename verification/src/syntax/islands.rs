use vstd::prelude::*;
use crate::text::{Span, Token, TokenKind};
use crate::syntax::model::{
    spec_confidence_actionable, PunctuationSafeZone, PunctuationSafeZoneKind, SentenceSpan, SyntaxConfidence,
};
use crate::syntax::diagnostics::SuppressionReason;
use crate::syntax::safe_zones::{punctuation_safe_zone_records, spec_safe_zones};
use crate::syntax::sentences::{sentence_spans, spec_sentence_spans};
use crate::syntax::document::{overlaps_range, spec_token_range, token_range_for_span};

verus! {

broadcast use vstd::seq_lib::group_seq_properties;

#[derive(Debug, Clone, Copy, PartialEq, Eq, Structural, PartialOrd, Ord, Hash)]
pub enum SyntacticIslandKind {
    PlainSentence,
    Parenthetical,
    DirectSpeech,
}

/// A stretch of a sentence inside which syntactic links may be drawn.
#[derive(Debug, Clone, PartialEq, Eq)]
pub struct SyntacticIsland {
    pub id: usize,
    pub span: Span,
    pub start_token: Option<usize>,
    pub end_token: Option<usize>,
    pub kind: SyntacticIslandKind,
    pub confidence: SyntaxConfidence,
    pub blockers: Vec<SuppressionReason>,
}

pub struct IslandView {
    pub id: usize,
    pub span: Span,
    pub start_token: Option<usize>,
    pub end_token: Option<usize>,
    pub kind: SyntacticIslandKind,
    pub confidence: SyntaxConfidence,
    pub blockers: Seq<SuppressionReason>,
}

impl View for SyntacticIsland {
    type V = IslandView;

    open spec fn view(&self) -> IslandView {
        IslandView {
            id: self.id,
            span: self.span,
            start_token: self.start_token,
            end_token: self.end_token,
            kind: self.kind,
            confidence: self.confidence,
            blockers: self.blockers@,
        }
    }
}

pub open spec fn island_views(v: Seq<SyntacticIsland>) -> Seq<IslandView> {
    v.map_values(|i: SyntacticIsland| i@)
}

pub open spec fn island_actionable(i: IslandView) -> bool {
    spec_confidence_actionable(i.confidence) && i.blockers.len() == 0
}

pub open spec fn island_contains(i: IslandView, t: int) -> bool {
    match (i.start_token, i.end_token) {
        (Some(a), Some(b)) => a <= t && t <= b,
        _ => false,
    }
}

impl SyntacticIsland {
    pub fn is_actionable(&self) -> (r: bool)
        ensures
            r == island_actionable(self@),
    {
        self.confidence.is_actionable() && self.blockers.len() == 0
    }

    pub fn contains_token(&self, token_index: usize) -> (r: bool)
        ensures
            r == island_contains(self@, token_index as int),
    {
        match (self.start_token, self.end_token) {
            (Some(start), Some(end)) => start <= token_index && token_index <= end,
            _ => false,
        }
    }

    fn with_id(self, id: usize) -> (r: Self)
        ensures
            r@ == (IslandView { id, ..self@ }),
    {
        SyntacticIsland { id, ..self }
    }
}

/// Some word token meets the byte range `start..end`.
pub open spec fn has_word_in(toks: Seq<Token>, start: int, end: int) -> bool {
    exists|k: int| 0 <= k < toks.len() && (#[trigger] toks[k]).kind == TokenKind::Word && overlaps_range(toks[k], start, end)
}

fn span_has_word_token(tokens: &[Token], start: usize, end: usize) -> (r: bool)
    ensures
        r == has_word_in(tokens@, start as int, end as int),
{
    let mut k: usize = 0;
    while k < tokens.len()
        invariant
            k <= tokens@.len(),
            forall|j: int|
                0 <= j < k ==> !((#[trigger] tokens@[j]).kind == TokenKind::Word && overlaps_range(
                    tokens@[j],
                    start as int,
                    end as int,
                )),
        decreases tokens@.len() - k,
    {
        if tokens[k].kind == TokenKind::Word && tokens[k].span.end > start && tokens[k].span.start < end {
            return true;
        }
        k = k + 1;
    }
    false
}

/// `acc` with a plain island over `start..end` appended, when the range is
/// not empty and holds a word.
pub open spec fn add_plain(toks: Seq<Token>, acc: Seq<IslandView>, start: int, end: int) -> Seq<IslandView> {
    if start < end && has_word_in(toks, start, end) {
        let (a, b) = spec_token_range(toks, start, end);
        acc.push(
            IslandView {
                id: acc.len() as usize,
                span: Span { start: start as usize, end: end as usize },
                start_token: a,
                end_token: b,
                kind: SyntacticIslandKind::PlainSentence,
                confidence: SyntaxConfidence::Strong,
                blockers: Seq::empty(),
            },
        )
    } else {
        acc
    }
}

pub open spec fn zone_island_kind(z: PunctuationSafeZone) -> SyntacticIslandKind {
    match z.kind {
        PunctuationSafeZoneKind::Parenthetical => SyntacticIslandKind::Parenthetical,
        PunctuationSafeZoneKind::DirectSpeech => SyntacticIslandKind::DirectSpeech,
    }
}

pub open spec fn zone_blocker(z: PunctuationSafeZone) -> SuppressionReason {
    match z.kind {
        PunctuationSafeZoneKind::Parenthetical => SuppressionReason::ParenthesisBoundary,
        PunctuationSafeZoneKind::DirectSpeech => SuppressionReason::DirectSpeechBoundary,
    }
}

/// `acc` with an island for the part `span` of zone `z` appended, when the
/// part is not empty and holds a word; it is blocked by the zone's boundary.
pub open spec fn add_safe(toks: Seq<Token>, acc: Seq<IslandView>, span: Span, z: PunctuationSafeZone) -> Seq<IslandView> {
    if span.start < span.end && has_word_in(toks, span.start as int, span.end as int) {
        let (a, b) = spec_token_range(toks, span.start as int, span.end as int);
        acc.push(
            IslandView {
                id: acc.len() as usize,
                span,
                start_token: a,
                end_token: b,
                kind: zone_island_kind(z),
                confidence: z.confidence,
                blockers: seq![zone_blocker(z)],
            },
        )
    } else {
        acc
    }
}

pub open spec fn zone_meets(z: PunctuationSafeZone, sp: SentenceSpan) -> bool {
    z.span.start < sp.end && z.span.end > sp.start
}

pub open spec fn max_int(a: int, b: int) -> int {
    if a >= b {
        a
    } else {
        b
    }
}

pub open spec fn min_int(a: int, b: int) -> int {
    if a <= b {
        a
    } else {
        b
    }
}

/// Cutting sentence `sp` at the zones from `j` on that meet it: plain
/// islands between them and an island for each zone's part.
pub open spec fn sentence_walk(
    toks: Seq<Token>,
    sp: SentenceSpan,
    zones: Seq<PunctuationSafeZone>,
    j: int,
    acc: Seq<IslandView>,
    cursor: int,
) -> Seq<IslandView>
    decreases zones.len() - j,
{
    if j < 0 || j >= zones.len() {
        add_plain(toks, acc, cursor, sp.end as int)
    } else if !zone_meets(zones[j], sp) {
        sentence_walk(toks, sp, zones, j + 1, acc, cursor)
    } else {
        let z = zones[j];
        let szs = max_int(z.span.start as int, sp.start as int);
        let sze = min_int(z.span.end as int, sp.end as int);
        let a1 = add_plain(toks, acc, cursor, szs);
        let a2 = add_safe(toks, a1, Span { start: szs as usize, end: sze as usize }, z);
        sentence_walk(toks, sp, zones, j + 1, a2, max_int(cursor, sze))
    }
}

/// The islands of the first `k` sentences, in the order they are cut,
/// each with its position as id.
pub open spec fn raw_islands(toks: Seq<Token>, sents: Seq<SentenceSpan>, zones: Seq<PunctuationSafeZone>, k: int) -> Seq<IslandView>
    decreases k,
{
    if k <= 0 || k > sents.len() {
        Seq::empty()
    } else {
        sentence_walk(toks, sents[k - 1], zones, 0, raw_islands(toks, sents, zones, k - 1), sents[k - 1].start as int)
    }
}

/// Islands ordered by start, then end, then id.
pub open spec fn island_lt(a: IslandView, b: IslandView) -> bool {
    ||| a.span.start < b.span.start
    ||| a.span.start == b.span.start && a.span.end < b.span.end
    ||| a.span.start == b.span.start && a.span.end == b.span.end && a.id < b.id
}

pub open spec fn islands_sorted(v: Seq<IslandView>) -> bool {
    forall|i: int, j: int| 0 <= i < j < v.len() ==> island_lt(#[trigger] v[i], #[trigger] v[j])
}

/// The islands with their ids replaced by their positions.
pub open spec fn renumbered(v: Seq<IslandView>) -> Seq<IslandView> {
    Seq::new(v.len(), |k: int| IslandView { id: k as usize, ..v[k] })
}

/// The islands of text `s` cut into `toks`: the raw islands of every
/// sentence, sorted by span and renumbered.
pub open spec fn islands_of(s: Seq<char>, toks: Seq<Token>, v: Seq<IslandView>) -> bool {
    let raw = raw_islands(toks, spec_sentence_spans(s), spec_safe_zones(s), spec_sentence_spans(s).len() as int);
    exists|sorted: Seq<IslandView>|
        #[trigger] sorted.to_multiset() == raw.to_multiset() && islands_sorted(sorted) && v == renumbered(sorted)
}

fn push_plain_island(tokens: &[Token], start: usize, end: usize, out: &mut Vec<SyntacticIsland>)
    requires
        forall|m: int| 0 <= m < old(out)@.len() ==> (#[trigger] old(out)@[m]).id == m,
    ensures
        forall|m: int| 0 <= m < final(out)@.len() ==> (#[trigger] final(out)@[m]).id == m,
        island_views(final(out)@) == add_plain(tokens@, island_views(old(out)@), start as int, end as int),
{
    if start >= end || !span_has_word_token(tokens, start, end) {
        return;
    }
    let (start_token, end_token) = token_range_for_span(tokens, start, end);
    let ghost o = out@;
    let island = SyntacticIsland {
        id: out.len(),
        span: Span::new(start, end),
        start_token,
        end_token,
        kind: SyntacticIslandKind::PlainSentence,
        confidence: SyntaxConfidence::Strong,
        blockers: Vec::new(),
    };
    out.push(island);
    assert(island_views(out@) =~= island_views(o).push(island@));
}

fn push_safe_zone_island(tokens: &[Token], span: Span, zone: PunctuationSafeZone, out: &mut Vec<SyntacticIsland>)
    requires
        forall|m: int| 0 <= m < old(out)@.len() ==> (#[trigger] old(out)@[m]).id == m,
    ensures
        forall|m: int| 0 <= m < final(out)@.len() ==> (#[trigger] final(out)@[m]).id == m,
        island_views(final(out)@) == add_safe(tokens@, island_views(old(out)@), span, zone),
{
    if span.start >= span.end || !span_has_word_token(tokens, span.start, span.end) {
        return;
    }
    let (start_token, end_token) = token_range_for_span(tokens, span.start, span.end);
    let (kind, blocker) = match zone.kind {
        PunctuationSafeZoneKind::Parenthetical => (SyntacticIslandKind::Parenthetical, SuppressionReason::ParenthesisBoundary),
        PunctuationSafeZoneKind::DirectSpeech => (SyntacticIslandKind::DirectSpeech, SuppressionReason::DirectSpeechBoundary),
    };
    let mut blockers: Vec<SuppressionReason> = Vec::new();
    blockers.push(blocker);
    let ghost o = out@;
    let island = SyntacticIsland {
        id: out.len(),
        span,
        start_token,
        end_token,
        kind,
        confidence: zone.confidence,
        blockers,
    };
    out.push(island);
    assert(island@.blockers =~= seq![blocker]);
    assert(island_views(out@) =~= island_views(o).push(island@));
}

fn push_sentence_islands(
    tokens: &[Token],
    sentence: SentenceSpan,
    zones: &[PunctuationSafeZone],
    out: &mut Vec<SyntacticIsland>,
)
    requires
        forall|m: int| 0 <= m < old(out)@.len() ==> (#[trigger] old(out)@[m]).id == m,
    ensures
        forall|m: int| 0 <= m < final(out)@.len() ==> (#[trigger] final(out)@[m]).id == m,
        island_views(final(out)@) == sentence_walk(
            tokens@,
            sentence,
            zones@,
            0,
            island_views(old(out)@),
            sentence.start as int,
        ),
{
    let mut cursor = sentence.start;
    let mut j: usize = 0;
    while j < zones.len()
        invariant
            j <= zones@.len(),
            forall|m: int| 0 <= m < out@.len() ==> (#[trigger] out@[m]).id == m,
            sentence_walk(tokens@, sentence, zones@, 0, island_views(old(out)@), sentence.start as int)
                == sentence_walk(tokens@, sentence, zones@, j as int, island_views(out@), cursor as int),
        decreases zones@.len() - j,
    {
        let zone = zones[j];
        if zone.span.start < sentence.end && zone.span.end > sentence.start {
            let szs = if zone.span.start >= sentence.start { zone.span.start } else { sentence.start };
            let sze = if zone.span.end <= sentence.end { zone.span.end } else { sentence.end };
            push_plain_island(tokens, cursor, szs, out);
            push_safe_zone_island(tokens, Span::new(szs, sze), zone, out);
            if sze > cursor {
                cursor = sze;
            }
        }
        j = j + 1;
    }
    push_plain_island(tokens, cursor, sentence.end, out);
}

/// Inserts `x` into the sorted list `v` at its place.
fn insert_sorted(v: &mut Vec<SyntacticIsland>, x: SyntacticIsland)
    requires
        islands_sorted(island_views(old(v)@)),
        forall|k: int| 0 <= k < old(v)@.len() ==> (#[trigger] old(v)@[k]).id < x.id,
    ensures
        islands_sorted(island_views(final(v)@)),
        island_views(final(v)@).to_multiset() == island_views(old(v)@).to_multiset().insert(x@),
        forall|k: int| 0 <= k < final(v)@.len() ==> (#[trigger] final(v)@[k]).id <= x.id,
{
    let ghost old_v = island_views(v@);
    let mut p: usize = v.len();
    while p > 0 && island_lt_exec(&x, &v[p - 1])
        invariant
            p <= v@.len(),
            island_views(v@) == old_v,
            forall|k: int| p <= k < v@.len() ==> island_lt(x@, #[trigger] island_views(v@)[k]),
        decreases p,
    {
        p = p - 1;
    }
    proof {
        if p > 0 {
            assert(!island_lt(x@, old_v[p - 1]));
            assert(old_v[p - 1].id < x.id);
            assert(island_lt(old_v[p - 1], x@));
        }
    }
    v.insert(p, x);
    proof {
        let nv = island_views(v@);
        assert(nv =~= old_v.insert(p as int, x@));
        assert(nv.remove(p as int) =~= old_v);
        vstd::seq_lib::to_multiset_remove(nv, p as int);
        assert(nv.to_multiset().count(x@) > 0) by {
            vstd::seq_lib::to_multiset_contains(nv, x@);
            assert(nv[p as int] == x@);
        }
        assert(nv.to_multiset() =~= old_v.to_multiset().insert(x@));
        assert forall|i: int, j: int| 0 <= i < j < nv.len() implies island_lt(#[trigger] nv[i], #[trigger] nv[j]) by {
            if j < p {
            } else if i < p && j == p {
                if p > 0 {
                    assert(island_lt(old_v[i], old_v[p - 1]) || i == p - 1);
                }
            } else if i < p {
                if p > 0 {
                    assert(island_lt(old_v[i], old_v[p - 1]) || i == p - 1);
                }
            } else if i == p {
            } else {
            }
        }
    }
}

fn island_lt_exec(a: &SyntacticIsland, b: &SyntacticIsland) -> (r: bool)
    ensures
        r == island_lt(a@, b@),
{
    a.span.start < b.span.start || (a.span.start == b.span.start && a.span.end < b.span.end) || (a.span.start
        == b.span.start && a.span.end == b.span.end && a.id < b.id)
}

/// The syntactic islands of a text.
#[derive(Debug, Clone, PartialEq, Eq)]
pub struct SyntacticIslandMap {
    islands: Vec<SyntacticIsland>,
}

impl SyntacticIslandMap {
    pub closed spec fn islands_view(&self) -> Seq<IslandView> {
        island_views(self.islands@)
    }

    pub fn from_text_tokens(text: &str, tokens: &[Token]) -> (r: Self)
        ensures
            islands_of(text@, tokens@, r.islands_view()),
    {
        let zones = punctuation_safe_zone_records(text);
        let spans = sentence_spans(text);
        let mut raw: Vec<SyntacticIsland> = Vec::new();
        let mut i: usize = 0;
        while i < spans.len()
            invariant
                i <= spans@.len(),
                spans@ == spec_sentence_spans(text@),
                zones@ == spec_safe_zones(text@),
                island_views(raw@) == raw_islands(tokens@, spans@, zones@, i as int),
                forall|m: int| 0 <= m < raw@.len() ==> (#[trigger] raw@[m]).id == m,
            decreases spans@.len() - i,
        {
            push_sentence_islands(tokens, spans[i], zones.as_slice(), &mut raw);
            i = i + 1;
        }
        let ghost raw_v = island_views(raw@);
        let mut sorted: Vec<SyntacticIsland> = Vec::new();
        let mut k: usize = 0;
        while k < raw.len()
            invariant
                k <= raw@.len(),
                raw_v == island_views(raw@),
                forall|m: int| 0 <= m < raw_v.len() ==> (#[trigger] raw_v[m]).id == m,
                islands_sorted(island_views(sorted@)),
                island_views(sorted@).to_multiset() == raw_v.take(k as int).to_multiset(),
                forall|m: int| 0 <= m < sorted@.len() ==> (#[trigger] sorted@[m]).id < k,
            decreases raw@.len() - k,
        {
            let x = raw[k].clone_island();
            assert(x.id == k);
            insert_sorted(&mut sorted, x);
            proof {
                assert(raw_v.take(k as int + 1) =~= raw_v.take(k as int).push(raw_v[k as int]));
                vstd::seq_lib::to_multiset_build(raw_v.take(k as int), raw_v[k as int]);
            }
            k = k + 1;
        }
        assert(raw_v.take(raw_v.len() as int) =~= raw_v);
        let ghost sorted_v = island_views(sorted@);
        let mut islands: Vec<SyntacticIsland> = Vec::new();
        let mut m: usize = 0;
        let n = sorted.len();
        while sorted.len() > 0
            invariant
                n == sorted_v.len(),
                m + sorted@.len() == n,
                island_views(sorted@) == sorted_v.subrange(m as int, n as int),
                island_views(islands@) == renumbered(sorted_v).take(m as int),
            decreases sorted@.len(),
        {
            let x = sorted.remove(0);
            let y = x.with_id(m);
            let ghost o = islands@;
            islands.push(y);
            proof {
                assert(island_views(islands@) =~= island_views(o).push(y@));
                assert(renumbered(sorted_v).take(m as int + 1) =~= renumbered(sorted_v).take(m as int).push(
                    renumbered(sorted_v)[m as int],
                ));
                assert(island_views(sorted@) =~= sorted_v.subrange(m as int + 1, n as int));
            }
            m = m + 1;
        }
        assert(renumbered(sorted_v).take(n as int) =~= renumbered(sorted_v));
        let r = SyntacticIslandMap { islands };
        assert(r.islands_view() == renumbered(sorted_v));
        r
    }

    pub fn islands(&self) -> (r: &[SyntacticIsland])
        ensures
            island_views(r@) == self.islands_view(),
    {
        self.islands.as_slice()
    }

    /// The first island whose token range holds the token.
    pub fn island_for_token(&self, token_index: usize) -> (r: Option<&SyntacticIsland>)
        ensures
            r matches Some(i) ==> first_island_for(self.islands_view(), token_index as int) matches Some(k)
                && i@ == self.islands_view()[k],
            r is None ==> first_island_for(self.islands_view(), token_index as int) is None,
    {
        let ghost v = self.islands_view();
        let mut k: usize = 0;
        while k < self.islands.len() && !self.islands[k].contains_token(token_index)
            invariant
                k <= self.islands@.len(),
                v == island_views(self.islands@),
                first_island_for(v, token_index as int) == first_from(v, token_index as int, k as int),
            decreases self.islands@.len() - k,
        {
            k = k + 1;
        }
        if k < self.islands.len() {
            Some(&self.islands[k])
        } else {
            None
        }
    }

    /// Two tokens can be linked when the same actionable island holds both.
    pub fn can_link_tokens(&self, left_token: usize, right_token: usize) -> (r: bool)
        ensures
            r == spec_can_link(self.islands_view(), left_token as int, right_token as int),
    {
        let left = match self.island_for_token(left_token) {
            None => {
                return false;
            },
            Some(i) => i,
        };
        let right = match self.island_for_token(right_token) {
            None => {
                return false;
            },
            Some(i) => i,
        };
        left.id == right.id && left.is_actionable() && right.is_actionable()
    }
}

impl SyntacticIsland {
    fn clone_island(&self) -> (r: Self)
        ensures
            r@ == self@,
    {
        let mut blockers: Vec<SuppressionReason> = Vec::new();
        let mut i: usize = 0;
        while i < self.blockers.len()
            invariant
                i <= self.blockers@.len(),
                blockers@ == self.blockers@.take(i as int),
            decreases self.blockers@.len() - i,
        {
            blockers.push(self.blockers[i]);
            i = i + 1;
        }
        assert(self.blockers@.take(self.blockers@.len() as int) =~= self.blockers@);
        SyntacticIsland {
            id: self.id,
            span: self.span,
            start_token: self.start_token,
            end_token: self.end_token,
            kind: self.kind,
            confidence: self.confidence,
            blockers,
        }
    }
}

/// Index of the first island from `k` on that holds token `t`.
pub open spec fn first_from(v: Seq<IslandView>, t: int, k: int) -> Option<int>
    decreases v.len() - k,
{
    if k < 0 || k >= v.len() {
        None
    } else if island_contains(v[k], t) {
        Some(k)
    } else {
        first_from(v, t, k + 1)
    }
}

pub open spec fn first_island_for(v: Seq<IslandView>, t: int) -> Option<int> {
    first_from(v, t, 0)
}

pub open spec fn spec_can_link(v: Seq<IslandView>, l: int, r: int) -> bool {
    match (first_island_for(v, l), first_island_for(v, r)) {
        (Some(a), Some(b)) => v[a].id == v[b].id && island_actionable(v[a]) && island_actionable(v[b]),
        _ => false,
    }
}

} // verus!
