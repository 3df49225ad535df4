use vstd::prelude::*;
use crate::text::{Span, Token, TokenKind};
use crate::unicode::CharOffsets;
use crate::syntax::model::{
    ClauseBoundary, ClauseBoundaryKind, ClauseBoundaryView, ClauseMarker, ClauseMarkerView,
    DependencyEdge, DependencyRelation, SentenceSpan, SyntaxConfidence, SyntaxSpan, SyntaxSpanKind,
    boundary_views, spec_confidence_actionable,
};
use crate::syntax::safe_zones::{inside_some_zone, is_inside_punctuation_safe_zone, spec_safe_zones};
use crate::syntax::sentences::{
    clamp, is_sentence_initial, last_char, last_of, last_token_before,
    previous_non_space_token, punctuation_context_before, sentence_initial, spec_punctuation_context,
};
use crate::syntax::boundaries::{is_opening_boundary_punctuation, spec_is_opening_boundary};
use crate::syntax::markers::{
    find_clause_marker, previous_word_is_coordinating_or_discourse_marker,
    spec_find_clause_marker, spec_prev_word_coordinating,
};
use crate::syntax::diagnostics::SuppressionReason;
use crate::syntax::sentences::{sentence_spans, spec_sentence_spans};
use crate::syntax::markers::{default_clause_marker_set, default_markers, string_views};

verus! {

broadcast use vstd::seq_lib::group_seq_properties;

/// Kind and confidence of the boundary before a marker, given whether the
/// marker opens its sentence.
pub open spec fn boundary_class(s: Seq<char>, toks: Seq<Token>, m: ClauseMarkerView, initial: bool) -> (ClauseBoundaryKind, SyntaxConfidence) {
    let pc = spec_punctuation_context(toks, m.start_token);
    if inside_some_zone(spec_safe_zones(s), m.span.start) {
        (ClauseBoundaryKind::SuppressedSafeZone, SyntaxConfidence::Certain)
    } else if initial {
        (ClauseBoundaryKind::SentenceStartMarker, SyntaxConfidence::Certain)
    } else if pc.has_comma_before || pc.preceded_by_clause_separator || pc.preceded_by_sentence_terminal {
        (ClauseBoundaryKind::PunctuatedBeforeMarker, SyntaxConfidence::Certain)
    } else if spec_prev_word_coordinating(toks, m.start_token) {
        (ClauseBoundaryKind::Ambiguous, SyntaxConfidence::Weak)
    } else if spec_confidence_actionable(m.confidence) {
        (ClauseBoundaryKind::BeforeMarker, m.confidence)
    } else {
        (ClauseBoundaryKind::Ambiguous, SyntaxConfidence::Ambiguous)
    }
}

pub open spec fn boundary_view_of(s: Seq<char>, toks: Seq<Token>, m: ClauseMarkerView, initial: bool) -> ClauseBoundaryView {
    let (kind, confidence) = boundary_class(s, toks, m, initial);
    ClauseBoundaryView {
        marker: m,
        boundary_span: Span { start: m.span.start, end: m.span.start },
        kind,
        confidence,
    }
}

fn classify_boundary(text: &str, tokens: &[Token], marker: ClauseMarker, initial: bool) -> (r: ClauseBoundary)
    ensures
        r@ == boundary_view_of(text@, tokens@, marker@, initial),
{
    let punctuation = punctuation_context_before(tokens, marker.start_token);
    let (kind, confidence) = if is_inside_punctuation_safe_zone(text, marker.span.start) {
        (ClauseBoundaryKind::SuppressedSafeZone, SyntaxConfidence::Certain)
    } else if initial {
        (ClauseBoundaryKind::SentenceStartMarker, SyntaxConfidence::Certain)
    } else if punctuation.has_comma_before || punctuation.preceded_by_clause_separator
        || punctuation.preceded_by_sentence_terminal {
        (ClauseBoundaryKind::PunctuatedBeforeMarker, SyntaxConfidence::Certain)
    } else if previous_word_is_coordinating_or_discourse_marker(tokens, marker.start_token) {
        (ClauseBoundaryKind::Ambiguous, SyntaxConfidence::Weak)
    } else if marker.confidence.is_actionable() {
        (ClauseBoundaryKind::BeforeMarker, marker.confidence)
    } else {
        (ClauseBoundaryKind::Ambiguous, SyntaxConfidence::Ambiguous)
    };
    let start = marker.span.start;
    ClauseBoundary { boundary_span: Span::new(start, start), marker, kind, confidence }
}

/// The boundary before a marker, classified by safe zones, sentence start,
/// preceding punctuation and preceding conjunctions.
pub fn clause_boundary_for_marker(text: &str, tokens: &[Token], marker: ClauseMarker) -> (r: ClauseBoundary)
    ensures
        r@ == boundary_view_of(text@, tokens@, marker@, sentence_initial(tokens@, marker.start_token as int)),
{
    let initial = is_sentence_initial(tokens, marker.start_token);
    classify_boundary(text, tokens, marker, initial)
}

/// The boundaries of all markers that start at their own token, in token
/// order.
pub open spec fn spec_clause_boundaries(s: Seq<char>, toks: Seq<Token>, ms: Seq<String>, k: int) -> Seq<ClauseBoundaryView>
    decreases k,
{
    if k <= 0 {
        Seq::empty()
    } else {
        let prev = spec_clause_boundaries(s, toks, ms, k - 1);
        match spec_find_clause_marker(toks, k - 1, ms) {
            Some(m) => if m.start_token == k - 1 {
                prev.push(boundary_view_of(s, toks, m, sentence_initial(toks, k - 1)))
            } else {
                prev
            },
            None => prev,
        }
    }
}

pub fn clause_boundaries(text: &str, tokens: &[Token], marker_set: &[String]) -> (r: Vec<ClauseBoundary>)
    ensures
        boundary_views(r@) == spec_clause_boundaries(text@, tokens@, marker_set@, tokens@.len() as int),
{
    let mut out: Vec<ClauseBoundary> = Vec::new();
    let mut idx: usize = 0;
    while idx < tokens.len()
        invariant
            idx <= tokens@.len(),
            boundary_views(out@) == spec_clause_boundaries(text@, tokens@, marker_set@, idx as int),
        decreases tokens@.len() - idx,
    {
        match find_clause_marker(tokens, idx, marker_set) {
            None => {},
            Some(marker) => {
                if marker.start_token == idx {
                    let b = clause_boundary_for_marker(text, tokens, marker);
                    out.push(b);
                    assert(boundary_views(out@) =~= spec_clause_boundaries(text@, tokens@, marker_set@, idx as int + 1));
                }
            },
        }
        idx = idx + 1;
    }
    out
}

/// Walking back over opening brackets and quotes, the marker is the first
/// thing in the sentence that starts at byte `sentence_start`.
pub open spec fn initial_in_span(toks: Seq<Token>, cursor: int, sentence_start: int) -> bool
    decreases cursor,
{
    match last_token_before(toks, clamp(cursor, toks.len() as int), TokenKind::Whitespace, false) {
        None => true,
        Some(p) => {
            if 0 <= p < cursor {
                if toks[p].span.start < sentence_start {
                    true
                } else {
                    match last_of(toks[p]) {
                        None => false,
                        Some(c) => if spec_is_opening_boundary(c) {
                            initial_in_span(toks, p, sentence_start)
                        } else {
                            false
                        },
                    }
                }
            } else {
                false
            }
        },
    }
}

fn is_sentence_initial_in_span(tokens: &[Token], idx: usize, sentence_start: usize) -> (r: bool)
    ensures
        r == initial_in_span(tokens@, idx as int, sentence_start as int),
{
    let mut cursor = idx;
    loop
        invariant
            initial_in_span(tokens@, idx as int, sentence_start as int) == initial_in_span(
                tokens@,
                cursor as int,
                sentence_start as int,
            ),
        decreases cursor,
    {
        match previous_non_space_token(tokens, cursor) {
            None => {
                return true;
            },
            Some(p) => {
                if tokens[p].span.start < sentence_start {
                    return true;
                }
                match last_char(&tokens[p].text) {
                    None => {
                        return false;
                    },
                    Some(ch) => {
                        if is_opening_boundary_punctuation(ch) {
                            cursor = p;
                        } else {
                            return false;
                        }
                    },
                }
            },
        }
    }
}

/// Boundaries of the markers that start inside one sentence.
pub open spec fn spec_sentence_boundaries(s: Seq<char>, toks: Seq<Token>, ms: Seq<String>, sentence: SentenceSpan, k: int) -> Seq<ClauseBoundaryView>
    decreases k,
{
    if k <= 0 {
        Seq::empty()
    } else {
        let prev = spec_sentence_boundaries(s, toks, ms, sentence, k - 1);
        let t = toks[k - 1];
        if t.span.start < sentence.start || t.span.start >= sentence.end {
            prev
        } else {
            match spec_find_clause_marker(toks, k - 1, ms) {
                Some(m) => if m.start_token == k - 1 && sentence.start <= m.span.start
                    && m.span.start < sentence.end {
                    prev.push(boundary_view_of(s, toks, m, initial_in_span(toks, k - 1, sentence.start as int)))
                } else {
                    prev
                },
                None => prev,
            }
        }
    }
}

pub fn clause_boundaries_for_sentence(
    text: &str,
    tokens: &[Token],
    marker_set: &[String],
    sentence: SentenceSpan,
) -> (r: Vec<ClauseBoundary>)
    ensures
        boundary_views(r@) == spec_sentence_boundaries(text@, tokens@, marker_set@, sentence, tokens@.len() as int),
{
    let mut out: Vec<ClauseBoundary> = Vec::new();
    let mut idx: usize = 0;
    while idx < tokens.len()
        invariant
            idx <= tokens@.len(),
            boundary_views(out@) == spec_sentence_boundaries(text@, tokens@, marker_set@, sentence, idx as int),
        decreases tokens@.len() - idx,
    {
        let start = tokens[idx].span.start;
        if start < sentence.start || start >= sentence.end {
            idx = idx + 1;
            continue;
        }
        match find_clause_marker(tokens, idx, marker_set) {
            None => {},
            Some(marker) => {
                if marker.start_token == idx && sentence.contains(marker.span.start) {
                    let initial = is_sentence_initial_in_span(tokens, marker.start_token, sentence.start);
                    let b = classify_boundary(text, tokens, marker, initial);
                    out.push(b);
                    assert(boundary_views(out@) =~= spec_sentence_boundaries(text@, tokens@, marker_set@, sentence, idx as int + 1));
                }
            },
        }
        idx = idx + 1;
    }
    out
}

/// The boundary before a marker is already safe: inside a safe zone, at
/// sentence start, after punctuation or after a conjunction.
pub open spec fn spec_safe_boundary(s: Seq<char>, toks: Seq<Token>, m: ClauseMarkerView) -> bool {
    let pc = spec_punctuation_context(toks, m.start_token);
    ||| inside_some_zone(spec_safe_zones(s), m.span.start)
    ||| sentence_initial(toks, m.start_token)
    ||| pc.has_comma_before || pc.preceded_by_clause_separator || pc.preceded_by_sentence_terminal
    ||| spec_prev_word_coordinating(toks, m.start_token)
}

pub fn is_safe_boundary_before_clause_marker(text: &str, tokens: &[Token], marker: &ClauseMarker) -> (r: bool)
    ensures
        r == spec_safe_boundary(text@, tokens@, marker@),
{
    if is_inside_punctuation_safe_zone(text, marker.span.start) || is_sentence_initial(tokens, marker.start_token) {
        return true;
    }
    let punctuation = punctuation_context_before(tokens, marker.start_token);
    if punctuation.has_comma_before || punctuation.preceded_by_clause_separator
        || punctuation.preceded_by_sentence_terminal {
        return true;
    }
    previous_word_is_coordinating_or_discourse_marker(tokens, marker.start_token)
}

/// A missing comma is reported only for actionable markers whose boundary is
/// not already safe.
pub fn should_report_missing_comma_before_clause_marker(text: &str, tokens: &[Token], marker: &ClauseMarker) -> (r: bool)
    ensures
        r == (spec_confidence_actionable(marker.confidence) && !spec_safe_boundary(text@, tokens@, marker@)),
{
    marker.confidence.is_actionable() && !is_safe_boundary_before_clause_marker(text, tokens, marker)
}

pub fn marker_dependency_edge(marker: &ClauseMarker) -> (r: DependencyEdge)
    ensures
        r == (DependencyEdge {
            head_token: marker.start_token,
            dependent_token: marker.end_token,
            relation: DependencyRelation::MarkerIntroducesClause,
            confidence: marker.confidence,
        }),
{
    DependencyEdge {
        head_token: marker.start_token,
        dependent_token: marker.end_token,
        relation: DependencyRelation::MarkerIntroducesClause,
        confidence: marker.confidence,
    }
}

pub fn syntax_span_for_tokens(
    tokens: &[Token],
    start_token: usize,
    end_token: usize,
    kind: SyntaxSpanKind,
    confidence: SyntaxConfidence,
) -> (r: Option<SyntaxSpan>)
    ensures
        r == (if start_token < tokens@.len() && end_token < tokens@.len() {
            Some(
                SyntaxSpan {
                    span: Span { start: tokens@[start_token as int].span.start, end: tokens@[end_token as int].span.end },
                    start_token: Some(start_token),
                    end_token: Some(end_token),
                    kind,
                    confidence,
                },
            )
        } else {
            None
        }),
{
    if start_token >= tokens.len() || end_token >= tokens.len() {
        return None;
    }
    Some(SyntaxSpan {
        span: Span::new(tokens[start_token].span.start, tokens[end_token].span.end),
        start_token: Some(start_token),
        end_token: Some(end_token),
        kind,
        confidence,
    })
}

/// The boundaries of all sentences of a text, sentence by sentence.
pub open spec fn text_boundaries(s: Seq<char>, toks: Seq<Token>, ms: Seq<String>, spans: Seq<SentenceSpan>, k: int) -> Seq<ClauseBoundaryView>
    decreases k,
{
    if k <= 0 || k > spans.len() {
        Seq::empty()
    } else {
        text_boundaries(s, toks, ms, spans, k - 1) + spec_sentence_boundaries(s, toks, ms, spans[k - 1], toks.len() as int)
    }
}

/// A boundary blocks links across it when it stands before an actionable
/// marker that is not sentence-initial or inside a safe zone.
pub open spec fn spec_link_blocker(b: ClauseBoundaryView) -> bool {
    (b.kind == ClauseBoundaryKind::BeforeMarker || b.kind == ClauseBoundaryKind::PunctuatedBeforeMarker)
        && spec_confidence_actionable(b.confidence)
}

/// Some blocking boundary has its marker after the smaller and at or
/// before the larger of the two token indices.
pub open spec fn blocked_between(bs: Seq<ClauseBoundaryView>, left: int, right: int) -> bool {
    let lo = if left < right { left } else { right };
    let hi = if left < right { right } else { left };
    exists|k: int|
        0 <= k < bs.len() && spec_link_blocker(#[trigger] bs[k]) && lo < bs[k].marker.start_token
            && bs[k].marker.start_token <= hi
}

fn boundary_is_link_blocker(boundary: &ClauseBoundary) -> (r: bool)
    ensures
        r == spec_link_blocker(boundary@),
{
    (boundary.kind == ClauseBoundaryKind::BeforeMarker || boundary.kind == ClauseBoundaryKind::PunctuatedBeforeMarker)
        && boundary.confidence.is_actionable()
}

/// The clause boundaries of a text under the default markers.
#[derive(Debug, Clone, PartialEq, Eq, Default)]
pub struct ClauseBoundaryMap {
    boundaries: Vec<ClauseBoundary>,
}

impl ClauseBoundaryMap {
    pub closed spec fn boundaries_view(&self) -> Seq<ClauseBoundaryView> {
        boundary_views(self.boundaries@)
    }

    /// The map of `s` cut into tokens `toks`, with the default markers.
    pub open spec fn built_from(&self, s: Seq<char>, toks: Seq<Token>) -> bool {
        exists|ms: Seq<String>|
            string_views(ms) == default_markers() && #[trigger] self.boundaries_view() == text_boundaries(
                s,
                toks,
                ms,
                spec_sentence_spans(s),
                spec_sentence_spans(s).len() as int,
            )
    }

    pub fn from_text_tokens(text: &str, tokens: &[Token]) -> (r: Self)
        ensures
            r.built_from(text@, tokens@),
    {
        let marker_set = default_clause_marker_set();
        let spans = sentence_spans(text);
        let mut boundaries: Vec<ClauseBoundary> = Vec::new();
        let mut i: usize = 0;
        while i < spans.len()
            invariant
                i <= spans@.len(),
                spans@ == spec_sentence_spans(text@),
                boundary_views(boundaries@) == text_boundaries(text@, tokens@, marker_set@, spans@, i as int),
            decreases spans@.len() - i,
        {
            let mut more = clause_boundaries_for_sentence(text, tokens, marker_set.as_slice(), spans[i]);
            let ghost b0 = boundaries@;
            let ghost m0 = more@;
            boundaries.append(&mut more);
            proof {
                assert(boundary_views(boundaries@) =~= boundary_views(b0) + boundary_views(m0));
            }
            i = i + 1;
        }
        let r = ClauseBoundaryMap { boundaries };
        assert(r.boundaries_view() == text_boundaries(
            text@,
            tokens@,
            marker_set@,
            spec_sentence_spans(text@),
            spec_sentence_spans(text@).len() as int,
        ));
        r
    }

    pub fn boundaries(&self) -> (r: &[ClauseBoundary])
        ensures
            boundary_views(r@) == self.boundaries_view(),
    {
        self.boundaries.as_slice()
    }

    /// `[ClauseBoundary]` when a blocking boundary lies between the two
    /// tokens, else nothing.
    pub fn blockers_between_tokens(&self, left_token: usize, right_token: usize) -> (r: Vec<SuppressionReason>)
        ensures
            r@ == (if left_token != right_token && blocked_between(
                self.boundaries_view(),
                left_token as int,
                right_token as int,
            ) {
                seq![SuppressionReason::ClauseBoundary]
            } else {
                Seq::empty()
            }),
    {
        let mut out: Vec<SuppressionReason> = Vec::new();
        if left_token == right_token {
            assert(out@ =~= Seq::<SuppressionReason>::empty());
            return out;
        }
        let (start, end) = if left_token < right_token {
            (left_token, right_token)
        } else {
            (right_token, left_token)
        };
        let ghost bs = self.boundaries_view();
        let mut k: usize = 0;
        while k < self.boundaries.len()
            invariant
                k <= self.boundaries@.len(),
                out@ == Seq::<SuppressionReason>::empty(),
                bs == boundary_views(self.boundaries@),
                start == (if left_token < right_token { left_token } else { right_token }),
                end == (if left_token < right_token { right_token } else { left_token }),
                forall|j: int|
                    0 <= j < k ==> !(spec_link_blocker(#[trigger] bs[j]) && start < bs[j].marker.start_token
                        && bs[j].marker.start_token <= end),
            decreases self.boundaries@.len() - k,
        {
            let b = &self.boundaries[k];
            assert(bs[k as int] == b@);
            if boundary_is_link_blocker(b) && start < b.marker.start_token && b.marker.start_token <= end {
                out.push(SuppressionReason::ClauseBoundary);
                assert(blocked_between(bs, left_token as int, right_token as int));
                assert(out@ =~= seq![SuppressionReason::ClauseBoundary]);
                return out;
            }
            k = k + 1;
        }
        assert(!blocked_between(bs, left_token as int, right_token as int));
        assert(out@ =~= Seq::<SuppressionReason>::empty());
        out
    }
}

} // verus!
