use vstd::prelude::*;
use crate::text::{Span, Token};

verus! {

#[derive(Debug, Clone, Copy, PartialEq, Eq, Structural, PartialOrd, Ord)]
pub enum SyntaxConfidence {
    Certain,
    Strong,
    Weak,
    Ambiguous,
}

/// Position of a confidence in the order Certain < Strong < Weak < Ambiguous.
pub open spec fn confidence_rank(c: SyntaxConfidence) -> int {
    match c {
        SyntaxConfidence::Certain => 0,
        SyntaxConfidence::Strong => 1,
        SyntaxConfidence::Weak => 2,
        SyntaxConfidence::Ambiguous => 3,
    }
}

pub open spec fn spec_confidence_actionable(c: SyntaxConfidence) -> bool {
    c == SyntaxConfidence::Certain || c == SyntaxConfidence::Strong
}

impl SyntaxConfidence {
    pub fn is_actionable(self) -> (r: bool)
        ensures
            r == spec_confidence_actionable(self),
    {
        match self {
            SyntaxConfidence::Certain | SyntaxConfidence::Strong => true,
            _ => false,
        }
    }

    pub fn rank(self) -> (r: u8)
        ensures
            r == confidence_rank(self),
    {
        match self {
            SyntaxConfidence::Certain => 0,
            SyntaxConfidence::Strong => 1,
            SyntaxConfidence::Weak => 2,
            SyntaxConfidence::Ambiguous => 3,
        }
    }

    /// The more certain of the two confidences.
    pub fn min(self, other: Self) -> (r: Self)
        ensures
            r == (if confidence_rank(self) <= confidence_rank(other) {
                self
            } else {
                other
            }),
    {
        if self.rank() <= other.rank() {
            self
        } else {
            other
        }
    }
}

#[derive(Debug, Clone, Copy, PartialEq, Eq, Structural)]
pub struct SentenceSpan {
    pub start: usize,
    pub end: usize,
}

impl SentenceSpan {
    pub fn as_span(self) -> (r: Span)
        ensures
            r.start == self.start && r.end == self.end,
    {
        Span::new(self.start, self.end)
    }

    pub fn contains(self, byte_index: usize) -> (r: bool)
        ensures
            r == (self.start <= byte_index && byte_index < self.end),
    {
        self.start <= byte_index && byte_index < self.end
    }
}

#[derive(Debug, Clone, Copy, PartialEq, Eq, Structural)]
pub struct PunctuationContext {
    pub has_comma_before: bool,
    pub preceded_by_sentence_terminal: bool,
    pub preceded_by_opening_delimiter: bool,
    pub preceded_by_clause_separator: bool,
}

#[derive(Debug, Clone, Copy, PartialEq, Eq, Structural)]
pub enum ClauseMarkerKind {
    Subordinator,
    MultiwordSubordinator,
    RelativePronoun,
    Unknown,
}

#[derive(Debug, Clone, PartialEq, Eq)]
pub struct ClauseMarker {
    pub start_token: usize,
    pub end_token: usize,
    pub span: Span,
    pub canonical: String,
    pub kind: ClauseMarkerKind,
    pub confidence: SyntaxConfidence,
}

/// A clause marker with its canonical text as characters.
pub struct ClauseMarkerView {
    pub start_token: int,
    pub end_token: int,
    pub span: Span,
    pub canonical: Seq<char>,
    pub kind: ClauseMarkerKind,
    pub confidence: SyntaxConfidence,
}

impl View for ClauseMarker {
    type V = ClauseMarkerView;

    open spec fn view(&self) -> ClauseMarkerView {
        ClauseMarkerView {
            start_token: self.start_token as int,
            end_token: self.end_token as int,
            span: self.span,
            canonical: self.canonical@,
            kind: self.kind,
            confidence: self.confidence,
        }
    }
}

pub open spec fn opt_marker_view(m: Option<ClauseMarker>) -> Option<ClauseMarkerView> {
    match m {
        Some(x) => Some(x@),
        None => None,
    }
}

#[derive(Debug, Clone, Copy, PartialEq, Eq, Structural)]
pub enum ClauseBoundaryKind {
    BeforeMarker,
    SentenceStartMarker,
    PunctuatedBeforeMarker,
    SuppressedSafeZone,
    Ambiguous,
}

#[derive(Debug, Clone, PartialEq, Eq)]
pub struct ClauseBoundary {
    pub marker: ClauseMarker,
    pub boundary_span: Span,
    pub kind: ClauseBoundaryKind,
    pub confidence: SyntaxConfidence,
}

pub struct ClauseBoundaryView {
    pub marker: ClauseMarkerView,
    pub boundary_span: Span,
    pub kind: ClauseBoundaryKind,
    pub confidence: SyntaxConfidence,
}

impl View for ClauseBoundary {
    type V = ClauseBoundaryView;

    open spec fn view(&self) -> ClauseBoundaryView {
        ClauseBoundaryView {
            marker: self.marker@,
            boundary_span: self.boundary_span,
            kind: self.kind,
            confidence: self.confidence,
        }
    }
}

pub open spec fn boundary_views(v: Seq<ClauseBoundary>) -> Seq<ClauseBoundaryView> {
    v.map_values(|b: ClauseBoundary| b@)
}

#[derive(Debug, Clone, Copy, PartialEq, Eq, Structural)]
pub enum DependencyRelation {
    MarkerIntroducesClause,
    QuoteContainsSpeech,
    ParentheticalContainsFragment,
    Unknown,
}

#[derive(Debug, Clone, Copy, PartialEq, Eq, Structural)]
pub struct DependencyEdge {
    pub head_token: usize,
    pub dependent_token: usize,
    pub relation: DependencyRelation,
    pub confidence: SyntaxConfidence,
}

#[derive(Debug, Clone, Copy, PartialEq, Eq, Structural)]
pub enum SyntaxSpanKind {
    Sentence,
    ClauseFragment,
    Parenthetical,
    DirectSpeech,
    PunctuationSafeZone,
}

#[derive(Debug, Clone, Copy, PartialEq, Eq, Structural)]
pub struct SyntaxSpan {
    pub span: Span,
    pub start_token: Option<usize>,
    pub end_token: Option<usize>,
    pub kind: SyntaxSpanKind,
    pub confidence: SyntaxConfidence,
}

#[derive(Debug, Clone, Copy, PartialEq, Eq, Structural)]
pub enum PunctuationSafeZoneKind {
    Parenthetical,
    DirectSpeech,
}

#[derive(Debug, Clone, Copy, PartialEq, Eq, Structural)]
pub struct PunctuationSafeZone {
    pub span: Span,
    pub inner_span: Span,
    pub kind: PunctuationSafeZoneKind,
    pub confidence: SyntaxConfidence,
}

#[derive(Debug, Clone, Copy, PartialEq, Eq, Structural)]
pub struct DelimiterPair {
    pub open: char,
    pub close: char,
}

impl DelimiterPair {
    pub fn new(open: char, close: char) -> (r: Self)
        ensures
            r.open == open && r.close == close,
    {
        DelimiterPair { open, close }
    }
}

#[derive(Debug, Clone, Copy, PartialEq, Eq, Structural)]
pub struct ParentheticalSpan {
    pub span: Span,
    pub inner_span: Span,
    pub delimiter: DelimiterPair,
    pub confidence: SyntaxConfidence,
}

#[derive(Debug, Clone, Copy, PartialEq, Eq, Structural)]
pub struct DirectSpeechSpan {
    pub quote_span: Span,
    pub inner_span: Span,
    pub opening_quote: char,
    pub closing_quote: char,
    pub confidence: SyntaxConfidence,
}

#[derive(Debug, Clone, PartialEq, Eq)]
pub struct ClauseGraph {
    pub boundaries: Vec<ClauseBoundary>,
    pub edges: Vec<DependencyEdge>,
    pub fragments: Vec<SyntaxSpan>,
}

#[derive(Debug, Clone, PartialEq, Eq)]
pub struct SentenceSyntax {
    pub span: SentenceSpan,
    pub start_token: Option<usize>,
    pub end_token: Option<usize>,
    pub clause_graph: ClauseGraph,
    pub confidence: SyntaxConfidence,
}

/// The token at an index with its nearest non-white-space neighbours.
#[derive(Debug, Clone, Copy)]
pub struct TokenWindow<'s> {
    pub previous: Option<&'s Token>,
    pub current: &'s Token,
    pub next: Option<&'s Token>,
}

} // verus!
