use vstd::prelude::*;
use crate::text::{tokenize, is_tokenization, Span, Token};
use crate::syntax::model::{
    boundary_views, ClauseBoundary, ClauseBoundaryView, ClauseGraph, DependencyEdge, DependencyRelation,
    DirectSpeechSpan, ParentheticalSpan, PunctuationSafeZone, SentenceSpan, SentenceSyntax,
    SyntaxConfidence, SyntaxSpan, SyntaxSpanKind,
};
use crate::syntax::safe_zones::{
    direct_speech_spans, inside_any_zone, inside_some_zone, parenthetical_spans,
    punctuation_safe_zone_records, spec_direct_speech_spans, spec_parenthetical_spans, spec_safe_zones,
};
use crate::syntax::sentences::{sentence_spans, spec_sentence_spans};
use crate::syntax::clauses::{
    clause_boundaries_for_sentence, marker_dependency_edge, spec_sentence_boundaries, syntax_span_for_tokens,
};

verus! {

broadcast use vstd::seq_lib::group_seq_properties;

/// The token's byte span meets the half-open range `start..end`.
pub open spec fn overlaps_range(t: Token, start: int, end: int) -> bool {
    t.span.end > start && t.span.start < end
}

/// Index of the first token from `i` on that meets `start..end`.
pub open spec fn first_overlap(toks: Seq<Token>, start: int, end: int, i: int) -> Option<usize>
    decreases toks.len() - i,
{
    if i < 0 || i >= toks.len() {
        None
    } else if overlaps_range(toks[i], start, end) {
        Some(i as usize)
    } else {
        first_overlap(toks, start, end, i + 1)
    }
}

/// Index of the last token before `k` that meets `start..end`.
pub open spec fn last_overlap(toks: Seq<Token>, start: int, end: int, k: int) -> Option<usize>
    decreases k,
{
    if k <= 0 || k > toks.len() {
        None
    } else if overlaps_range(toks[k - 1], start, end) {
        Some((k - 1) as usize)
    } else {
        last_overlap(toks, start, end, k - 1)
    }
}

pub open spec fn spec_token_range(toks: Seq<Token>, start: int, end: int) -> (Option<usize>, Option<usize>) {
    (first_overlap(toks, start, end, 0), last_overlap(toks, start, end, toks.len() as int))
}

/// The first and the last token that meet the byte range `start..end`.
pub fn token_range_for_span(tokens: &[Token], start: usize, end: usize) -> (r: (Option<usize>, Option<usize>))
    ensures
        r == spec_token_range(tokens@, start as int, end as int),
{
    let n = tokens.len();
    let mut i: usize = 0;
    while i < n && !(tokens[i].span.end > start && tokens[i].span.start < end)
        invariant
            n == tokens@.len(),
            i <= n,
            first_overlap(tokens@, start as int, end as int, 0) == first_overlap(
                tokens@,
                start as int,
                end as int,
                i as int,
            ),
        decreases n - i,
    {
        i = i + 1;
    }
    let first = if i < n { Some(i) } else { None };
    let mut k: usize = n;
    while k > 0 && !(tokens[k - 1].span.end > start && tokens[k - 1].span.start < end)
        invariant
            n == tokens@.len(),
            k <= n,
            last_overlap(tokens@, start as int, end as int, n as int) == last_overlap(
                tokens@,
                start as int,
                end as int,
                k as int,
            ),
        decreases k,
    {
        k = k - 1;
    }
    let last = if k > 0 { Some(k - 1) } else { None };
    (first, last)
}

/// The dependency edge that a boundary's marker introduces.
pub open spec fn edge_of(b: ClauseBoundaryView) -> DependencyEdge {
    DependencyEdge {
        head_token: b.marker.start_token as usize,
        dependent_token: b.marker.end_token as usize,
        relation: DependencyRelation::MarkerIntroducesClause,
        confidence: b.marker.confidence,
    }
}

/// The clause fragments covered by the boundaries' markers, skipping those
/// whose tokens are out of range.
pub open spec fn fragments_of(toks: Seq<Token>, bs: Seq<ClauseBoundaryView>) -> Seq<SyntaxSpan>
    decreases bs.len(),
{
    if bs.len() == 0 {
        Seq::empty()
    } else {
        let prev = fragments_of(toks, bs.drop_last());
        let b = bs.last();
        if 0 <= b.marker.start_token < toks.len() && 0 <= b.marker.end_token < toks.len() {
            prev.push(
                SyntaxSpan {
                    span: Span {
                        start: toks[b.marker.start_token].span.start,
                        end: toks[b.marker.end_token].span.end,
                    },
                    start_token: Some(b.marker.start_token as usize),
                    end_token: Some(b.marker.end_token as usize),
                    kind: SyntaxSpanKind::ClauseFragment,
                    confidence: b.confidence,
                },
            )
        } else {
            prev
        }
    }
}

/// `ss` is the syntax of sentence `sp`: its token range, the boundaries of
/// the markers inside it, their edges and their fragments.
pub open spec fn is_sentence_syntax(s: Seq<char>, toks: Seq<Token>, ms: Seq<String>, sp: SentenceSpan, ss: SentenceSyntax) -> bool {
    let bs = spec_sentence_boundaries(s, toks, ms, sp, toks.len() as int);
    &&& ss.span == sp
    &&& (ss.start_token, ss.end_token) == spec_token_range(toks, sp.start as int, sp.end as int)
    &&& boundary_views(ss.clause_graph.boundaries@) == bs
    &&& ss.clause_graph.edges@ == bs.map_values(|b: ClauseBoundaryView| edge_of(b))
    &&& ss.clause_graph.fragments@ == fragments_of(toks, bs)
    &&& ss.confidence == SyntaxConfidence::Certain
}

fn sentence_syntax(text: &str, tokens: &[Token], marker_set: &[String], span: SentenceSpan) -> (r: SentenceSyntax)
    ensures
        is_sentence_syntax(text@, tokens@, marker_set@, span, r),
{
    let (start_token, end_token) = token_range_for_span(tokens, span.start, span.end);
    let boundaries = clause_boundaries_for_sentence(text, tokens, marker_set, span);
    let ghost bs = boundary_views(boundaries@);
    let mut edges: Vec<DependencyEdge> = Vec::new();
    let mut fragments: Vec<SyntaxSpan> = Vec::new();
    let mut i: usize = 0;
    while i < boundaries.len()
        invariant
            i <= boundaries@.len(),
            bs == boundary_views(boundaries@),
            edges@ == bs.take(i as int).map_values(|b: ClauseBoundaryView| edge_of(b)),
            fragments@ == fragments_of(tokens@, bs.take(i as int)),
        decreases boundaries@.len() - i,
    {
        let b = &boundaries[i];
        edges.push(marker_dependency_edge(&b.marker));
        let f = syntax_span_for_tokens(
            tokens,
            b.marker.start_token,
            b.marker.end_token,
            SyntaxSpanKind::ClauseFragment,
            b.confidence,
        );
        proof {
            assert(bs.take(i as int + 1).drop_last() =~= bs.take(i as int));
            assert(bs.take(i as int + 1).map_values(|b: ClauseBoundaryView| edge_of(b)) =~= bs.take(
                i as int,
            ).map_values(|b: ClauseBoundaryView| edge_of(b)).push(edge_of(bs[i as int])));
        }
        match f {
            Some(x) => {
                fragments.push(x);
            },
            None => {},
        }
        i = i + 1;
    }
    proof {
        assert(bs.take(boundaries@.len() as int) =~= bs);
    }
    SentenceSyntax {
        span,
        start_token,
        end_token,
        clause_graph: ClauseGraph { boundaries, edges, fragments },
        confidence: SyntaxConfidence::Certain,
    }
}

/// A text with its tokens, sentences, delimited zones and the clause
/// structure of each sentence.
#[derive(Debug, Clone, PartialEq, Eq)]
pub struct SyntaxDocument<'t> {
    text: &'t str,
    tokens: Vec<Token>,
    sentences: Vec<SentenceSyntax>,
    parentheticals: Vec<ParentheticalSpan>,
    direct_speech: Vec<DirectSpeechSpan>,
    safe_zones: Vec<PunctuationSafeZone>,
}

impl<'t> SyntaxDocument<'t> {
    pub closed spec fn text_view(&self) -> Seq<char> {
        self.text@
    }

    pub closed spec fn tokens_view(&self) -> Seq<Token> {
        self.tokens@
    }

    pub closed spec fn sentences_view(&self) -> Seq<SentenceSyntax> {
        self.sentences@
    }

    pub closed spec fn parentheticals_view(&self) -> Seq<ParentheticalSpan> {
        self.parentheticals@
    }

    pub closed spec fn direct_speech_view(&self) -> Seq<DirectSpeechSpan> {
        self.direct_speech@
    }

    pub closed spec fn safe_zones_view(&self) -> Seq<PunctuationSafeZone> {
        self.safe_zones@
    }

    /// The document that `with_clause_markers` builds from `s` and `ms`.
    pub open spec fn built_from(&self, s: Seq<char>, ms: Seq<String>) -> bool {
        &&& self.text_view() == s
        &&& exists|bounds: Seq<int>| is_tokenization(s, self.tokens_view(), bounds)
        &&& self.parentheticals_view() == spec_parenthetical_spans(s)
        &&& self.direct_speech_view() == spec_direct_speech_spans(s)
        &&& self.safe_zones_view() == spec_safe_zones(s)
        &&& self.sentences_view().len() == spec_sentence_spans(s).len()
        &&& forall|k: int|
            0 <= k < self.sentences_view().len() ==> is_sentence_syntax(
                s,
                self.tokens_view(),
                ms,
                spec_sentence_spans(s)[k],
                #[trigger] self.sentences_view()[k],
            )
    }

    /// A document without clause markers: its sentences carry no clause
    /// boundaries.
    pub fn new(text: &'t str) -> (r: Self)
        ensures
            r.built_from(text@, Seq::empty()),
    {
        let none: Vec<String> = Vec::new();
        Self::with_clause_markers(text, none.as_slice())
    }

    pub fn with_clause_markers(text: &'t str, marker_set: &[String]) -> (r: Self)
        ensures
            r.built_from(text@, marker_set@),
    {
        let tokens = tokenize(text);
        let ghost bounds = choose|bounds: Seq<int>| is_tokenization(text@, tokens@, bounds);
        let parentheticals = parenthetical_spans(text);
        let direct_speech = direct_speech_spans(text);
        let safe_zones = punctuation_safe_zone_records(text);
        let spans = sentence_spans(text);
        let mut sentences: Vec<SentenceSyntax> = Vec::new();
        let mut i: usize = 0;
        while i < spans.len()
            invariant
                i <= spans@.len(),
                spans@ == spec_sentence_spans(text@),
                sentences@.len() == i,
                forall|k: int|
                    0 <= k < i ==> is_sentence_syntax(
                        text@,
                        tokens@,
                        marker_set@,
                        spans@[k],
                        #[trigger] sentences@[k],
                    ),
            decreases spans@.len() - i,
        {
            let ss = sentence_syntax(text, tokens.as_slice(), marker_set, spans[i]);
            sentences.push(ss);
            i = i + 1;
        }
        let r = SyntaxDocument { text, tokens, sentences, parentheticals, direct_speech, safe_zones };
        assert(r.text_view() == text@);
        assert(is_tokenization(text@, r.tokens_view(), bounds));
        assert(r.parentheticals_view() == spec_parenthetical_spans(text@));
        assert(r.safe_zones_view() == spec_safe_zones(text@));
        assert(r.sentences_view().len() == spec_sentence_spans(text@).len());
        r
    }

    pub fn text(&self) -> (r: &'t str)
        ensures
            r@ == self.text_view(),
    {
        self.text
    }

    pub fn tokens(&self) -> (r: &[Token])
        ensures
            r@ == self.tokens_view(),
    {
        self.tokens.as_slice()
    }

    pub fn sentences(&self) -> (r: &[SentenceSyntax])
        ensures
            r@ == self.sentences_view(),
    {
        self.sentences.as_slice()
    }

    pub fn parentheticals(&self) -> (r: &[ParentheticalSpan])
        ensures
            r@ == self.parentheticals_view(),
    {
        self.parentheticals.as_slice()
    }

    pub fn direct_speech(&self) -> (r: &[DirectSpeechSpan])
        ensures
            r@ == self.direct_speech_view(),
    {
        self.direct_speech.as_slice()
    }

    pub fn safe_zones(&self) -> (r: &[PunctuationSafeZone])
        ensures
            r@ == self.safe_zones_view(),
    {
        self.safe_zones.as_slice()
    }

    /// The first sentence whose span holds the byte offset.
    pub fn sentence_at(&self, byte_index: usize) -> (r: Option<&SentenceSyntax>)
        ensures
            r matches Some(ss) ==> exists|k: int|
                0 <= k < self.sentences_view().len() && self.sentences_view()[k] == *ss
                    && ss.span.start <= byte_index < ss.span.end && forall|j: int|
                    0 <= j < k ==> !((#[trigger] self.sentences_view()[j]).span.start <= byte_index
                        < self.sentences_view()[j].span.end),
            r is None ==> forall|j: int|
                0 <= j < self.sentences_view().len() ==> !((#[trigger] self.sentences_view()[j]).span.start
                    <= byte_index < self.sentences_view()[j].span.end),
    {
        let mut k: usize = 0;
        while k < self.sentences.len()
            invariant
                k <= self.sentences@.len(),
                forall|j: int|
                    0 <= j < k ==> !((#[trigger] self.sentences@[j]).span.start <= byte_index
                        < self.sentences@[j].span.end),
            decreases self.sentences@.len() - k,
        {
            if self.sentences[k].span.contains(byte_index) {
                return Some(&self.sentences[k]);
            }
            k = k + 1;
        }
        None
    }

    /// The clause boundaries of all sentences, sentence by sentence.
    pub fn clause_boundaries(&self) -> (r: Vec<&ClauseBoundary>)
        ensures
            r@.map_values(|b: &ClauseBoundary| b@) == all_boundaries(self.sentences_view(), self.sentences_view().len() as int),
    {
        let mut out: Vec<&ClauseBoundary> = Vec::new();
        let mut k: usize = 0;
        while k < self.sentences.len()
            invariant
                k <= self.sentences@.len(),
                out@.map_values(|b: &ClauseBoundary| b@) == all_boundaries(self.sentences@, k as int),
            decreases self.sentences@.len() - k,
        {
            let bs = &self.sentences[k].clause_graph.boundaries;
            let ghost before = out@.map_values(|b: &ClauseBoundary| b@);
            let mut j: usize = 0;
            while j < bs.len()
                invariant
                    k < self.sentences@.len(),
                    bs == &self.sentences@[k as int].clause_graph.boundaries,
                    j <= bs@.len(),
                    out@.map_values(|b: &ClauseBoundary| b@) == before + boundary_views(bs@.take(j as int)),
                decreases bs@.len() - j,
            {
                let ghost old_out = out@;
                out.push(&bs[j]);
                proof {
                    assert(out@.map_values(|b: &ClauseBoundary| b@) =~= old_out.map_values(
                        |b: &ClauseBoundary| b@,
                    ).push(bs@[j as int]@));
                    assert(boundary_views(bs@.take(j as int + 1)) =~= boundary_views(bs@.take(j as int)).push(
                        bs@[j as int]@,
                    ));
                    assert(out@.map_values(|b: &ClauseBoundary| b@) =~= before + boundary_views(
                        bs@.take(j as int + 1),
                    ));
                }
                j = j + 1;
            }
            proof {
                assert(bs@.take(bs@.len() as int) =~= bs@);
            }
            k = k + 1;
        }
        out
    }

    /// The byte offset lies strictly inside one of the document's
    /// parenthetical or quoted zones.
    pub fn is_inside_punctuation_safe_zone(&self, byte_index: usize) -> (r: bool)
        ensures
            r == inside_some_zone(self.safe_zones_view(), byte_index),
    {
        inside_any_zone(self.safe_zones.as_slice(), byte_index)
    }
}

/// The boundaries of the first `k` sentences, concatenated in order.
pub open spec fn all_boundaries(ss: Seq<SentenceSyntax>, k: int) -> Seq<ClauseBoundaryView>
    decreases k,
{
    if k <= 0 {
        Seq::empty()
    } else {
        all_boundaries(ss, k - 1) + boundary_views(ss[k - 1].clause_graph.boundaries@)
    }
}

} // verus!
