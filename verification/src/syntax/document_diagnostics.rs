use vstd::prelude::*;
use crate::text::{append_chars, Span};
use crate::unicode::{str_chars, string_from_chars};
use crate::syntax::model::SyntaxConfidence;
use crate::syntax::diagnostics::{
    DiagnosticConflict, DiagnosticFact, DiagnosticProof, DiagnosticProofKind, ProofConfidence, SuppressedAlternative,
    SuppressionReason,
};
use crate::syntax::document_structure::{HeadingCandidate, HeadingStyle, ListItemCandidate, ListMarkerKind};
use crate::syntax::document_terms::DocumentAbbreviation;
use crate::syntax::document_context::DocumentContext;

verus! {

broadcast use vstd::seq_lib::group_seq_properties;

pub open spec fn digit_char(d: int) -> char {
    if d == 0 {
        '0'
    } else if d == 1 {
        '1'
    } else if d == 2 {
        '2'
    } else if d == 3 {
        '3'
    } else if d == 4 {
        '4'
    } else if d == 5 {
        '5'
    } else if d == 6 {
        '6'
    } else if d == 7 {
        '7'
    } else if d == 8 {
        '8'
    } else {
        '9'
    }
}

/// The decimal digits of `n`, most significant first.
pub open spec fn decimal(n: nat) -> Seq<char>
    decreases n,
{
    if n < 10 {
        seq![digit_char(n as int)]
    } else {
        decimal(n / 10).push(digit_char((n % 10) as int))
    }
}

fn digit_exec(d: usize) -> (c: char)
    requires
        d < 10,
    ensures
        c == digit_char(d as int),
{
    if d == 0 {
        '0'
    } else if d == 1 {
        '1'
    } else if d == 2 {
        '2'
    } else if d == 3 {
        '3'
    } else if d == 4 {
        '4'
    } else if d == 5 {
        '5'
    } else if d == 6 {
        '6'
    } else if d == 7 {
        '7'
    } else if d == 8 {
        '8'
    } else {
        '9'
    }
}

fn decimal_chars(n: usize) -> (r: Vec<char>)
    ensures
        r@ == decimal(n as nat),
    decreases n,
{
    if n < 10 {
        let mut v: Vec<char> = Vec::new();
        v.push(digit_exec(n));
        assert(v@ =~= seq![digit_char(n as int)]);
        v
    } else {
        let mut v = decimal_chars(n / 10);
        v.push(digit_exec(n % 10));
        v
    }
}

/// The number written in decimal.
pub fn decimal_string(n: usize) -> (r: String)
    ensures
        r@ == decimal(n as nat),
{
    let v = decimal_chars(n);
    assert(v@.subrange(0, v@.len() as int) =~= v@);
    string_from_chars(v.as_slice(), 0, v.len())
}

fn text_of(s: &str) -> (r: String)
    ensures
        r@ == s@,
{
    s.to_owned()
}

/// A repeated abbreviation that is never expanded.
#[derive(Debug, Clone, PartialEq, Eq)]
pub struct DocumentAbbreviationCandidate<'a> {
    pub abbreviation: &'a DocumentAbbreviation,
    pub reason: SuppressionReason,
}

/// A style inconsistency between headings or between list items.
#[derive(Debug, Clone, PartialEq, Eq)]
pub struct DocumentStyleCandidate<'a> {
    pub key: &'static str,
    pub span: Span,
    pub reason: SuppressionReason,
    pub headings: Vec<&'a HeadingCandidate>,
    pub list_items: Vec<&'a ListItemCandidate>,
}

/// The first `k` abbreviations that recur without an expansion.
pub open spec fn unexpanded_upto(ab: Seq<DocumentAbbreviation>, k: int) -> Seq<DocumentAbbreviation>
    decreases k,
{
    if k <= 0 || k > ab.len() {
        Seq::empty()
    } else if ab[k - 1].frequency > 1 && ab[k - 1].expansion is None {
        unexpanded_upto(ab, k - 1).push(ab[k - 1])
    } else {
        unexpanded_upto(ab, k - 1)
    }
}

/// Abbreviations used more than once and never expanded, each with the
/// reason that keeps it from being reported.
pub fn document_abbreviation_candidates<'a>(context: &'a DocumentContext<'a>) -> (r: Vec<DocumentAbbreviationCandidate<'a>>)
    ensures
        r@.map_values(|c: DocumentAbbreviationCandidate<'a>| *c.abbreviation) == unexpanded_upto(
            context.abbreviations@,
            context.abbreviations@.len() as int,
        ),
        forall|k: int| 0 <= k < r@.len() ==> (#[trigger] r@[k]).reason == SuppressionReason::ConflictNotProven,
{
    let ab = &context.abbreviations;
    let mut out: Vec<DocumentAbbreviationCandidate<'a>> = Vec::new();
    let mut i: usize = 0;
    while i < ab.len()
        invariant
            ab == &context.abbreviations,
            i <= ab@.len(),
            out@.map_values(|c: DocumentAbbreviationCandidate<'a>| *c.abbreviation) == unexpanded_upto(ab@, i as int),
            forall|k: int| 0 <= k < out@.len() ==> (#[trigger] out@[k]).reason == SuppressionReason::ConflictNotProven,
        decreases ab@.len() - i,
    {
        let a = &ab[i];
        if a.frequency > 1 && a.expansion.is_none() {
            let c = DocumentAbbreviationCandidate { abbreviation: a, reason: SuppressionReason::ConflictNotProven };
            let ghost o = out@;
            out.push(c);
            assert(out@.map_values(|c: DocumentAbbreviationCandidate<'a>| *c.abbreviation) =~= o.map_values(
                |c: DocumentAbbreviationCandidate<'a>| *c.abbreviation,
            ).push(*a));
        }
        i = i + 1;
    }
    out
}

/// The smallest span that covers all of the spans, or `0..0` for none.
pub open spec fn covering(spans: Seq<Span>) -> Span
    decreases spans.len(),
{
    if spans.len() == 0 {
        Span { start: 0, end: 0 }
    } else if spans.len() == 1 {
        spans[0]
    } else {
        let rest = covering(spans.drop_last());
        let last = spans.last();
        Span {
            start: if rest.start <= last.start { rest.start } else { last.start },
            end: if rest.end >= last.end { rest.end } else { last.end },
        }
    }
}

fn span_covering(spans: &Vec<Span>) -> (r: Span)
    ensures
        r == covering(spans@),
{
    if spans.len() == 0 {
        return Span::new(0, 0);
    }
    let mut acc = spans[0];
    let mut i: usize = 1;
    while i < spans.len()
        invariant
            1 <= i <= spans@.len(),
            acc == covering(spans@.take(i as int)),
        decreases spans@.len() - i,
    {
        let s = spans[i];
        let start = if acc.start <= s.start { acc.start } else { s.start };
        let end = if acc.end >= s.end { acc.end } else { s.end };
        acc = Span::new(start, end);
        proof {
            assert(spans@.take(i as int + 1).drop_last() =~= spans@.take(i as int));
        }
        i = i + 1;
    }
    assert(spans@.take(spans@.len() as int) =~= spans@);
    acc
}

/// Mixed list markers and then mixed heading punctuation, when the
/// document shows them.
pub fn document_style_candidates<'a>(context: &'a DocumentContext<'a>) -> (r: Vec<DocumentStyleCandidate<'a>>)
    ensures
        r@.len() == (if context.style.mixed_list_markers { 1int } else { 0 }) + (if context.style.mixed_heading_punctuation {
            1int
        } else {
            0
        }),
        context.style.mixed_list_markers ==> r@[0].key@ == "mixed_list_markers"@ && r@[0].span == covering(
            context.list_items@.map_values(|i: ListItemCandidate| i.span),
        ) && r@[0].reason == SuppressionReason::ConflictNotProven && r@[0].headings@.len() == 0
            && r@[0].list_items@.map_values(|i: &ListItemCandidate| *i) == context.list_items@,
        context.style.mixed_heading_punctuation ==> ({
            let c = r@[r@.len() - 1];
            &&& c.key@ == "mixed_heading_punctuation"@
            &&& c.span == covering(context.headings@.map_values(|h: HeadingCandidate| h.span))
            &&& c.reason == SuppressionReason::ConflictNotProven
            &&& c.headings@.map_values(|h: &HeadingCandidate| *h) == context.headings@
            &&& c.list_items@.len() == 0
        }),
{
    let mut out: Vec<DocumentStyleCandidate<'a>> = Vec::new();
    if context.style.mixed_list_markers {
        let mut spans: Vec<Span> = Vec::new();
        let mut items: Vec<&'a ListItemCandidate> = Vec::new();
        let mut i: usize = 0;
        while i < context.list_items.len()
            invariant
                i <= context.list_items@.len(),
                spans@ == context.list_items@.take(i as int).map_values(|x: ListItemCandidate| x.span),
                items@.map_values(|x: &ListItemCandidate| *x) == context.list_items@.take(i as int),
            decreases context.list_items@.len() - i,
        {
            spans.push(context.list_items[i].span);
            let ghost o = items@;
            items.push(&context.list_items[i]);
            proof {
                assert(context.list_items@.take(i as int + 1) =~= context.list_items@.take(i as int).push(
                    context.list_items@[i as int],
                ));
                assert(items@.map_values(|x: &ListItemCandidate| *x) =~= o.map_values(|x: &ListItemCandidate| *x).push(
                    context.list_items@[i as int],
                ));
            }
            i = i + 1;
        }
        assert(context.list_items@.take(context.list_items@.len() as int) =~= context.list_items@);
        let span = span_covering(&spans);
        out.push(DocumentStyleCandidate {
            key: "mixed_list_markers",
            span,
            reason: SuppressionReason::ConflictNotProven,
            headings: Vec::new(),
            list_items: items,
        });
    }
    if context.style.mixed_heading_punctuation {
        let mut spans: Vec<Span> = Vec::new();
        let mut hs: Vec<&'a HeadingCandidate> = Vec::new();
        let mut i: usize = 0;
        while i < context.headings.len()
            invariant
                i <= context.headings@.len(),
                spans@ == context.headings@.take(i as int).map_values(|x: HeadingCandidate| x.span),
                hs@.map_values(|x: &HeadingCandidate| *x) == context.headings@.take(i as int),
            decreases context.headings@.len() - i,
        {
            spans.push(context.headings[i].span);
            let ghost o = hs@;
            hs.push(&context.headings[i]);
            proof {
                assert(context.headings@.take(i as int + 1) =~= context.headings@.take(i as int).push(
                    context.headings@[i as int],
                ));
                assert(hs@.map_values(|x: &HeadingCandidate| *x) =~= o.map_values(|x: &HeadingCandidate| *x).push(
                    context.headings@[i as int],
                ));
            }
            i = i + 1;
        }
        assert(context.headings@.take(context.headings@.len() as int) =~= context.headings@);
        let span = span_covering(&spans);
        out.push(DocumentStyleCandidate {
            key: "mixed_heading_punctuation",
            span,
            reason: SuppressionReason::ConflictNotProven,
            headings: hs,
            list_items: Vec::new(),
        });
    }
    out
}

pub open spec fn style_name(s: HeadingStyle) -> Seq<char> {
    match s {
        HeadingStyle::MarkdownAtx => "MarkdownAtx"@,
        HeadingStyle::PlainShortLine => "PlainShortLine"@,
    }
}

pub open spec fn marker_kind_name(k: ListMarkerKind) -> Seq<char> {
    match k {
        ListMarkerKind::Dash => "Dash"@,
        ListMarkerKind::Asterisk => "Asterisk"@,
        ListMarkerKind::Bullet => "Bullet"@,
        ListMarkerKind::Numbered => "Numbered"@,
    }
}

fn style_name_str(s: HeadingStyle) -> (r: &'static str)
    ensures
        r@ == style_name(s),
{
    match s {
        HeadingStyle::MarkdownAtx => "MarkdownAtx",
        HeadingStyle::PlainShortLine => "PlainShortLine",
    }
}

fn marker_kind_name_str(k: ListMarkerKind) -> (r: &'static str)
    ensures
        r@ == marker_kind_name(k),
{
    match k {
        ListMarkerKind::Dash => "Dash",
        ListMarkerKind::Asterisk => "Asterisk",
        ListMarkerKind::Bullet => "Bullet",
        ListMarkerKind::Numbered => "Numbered",
    }
}

/// `a::b`.
fn joined_with_colons(a: &str, b: &str) -> (r: String)
    ensures
        r@ == a@ + "::"@ + b@,
{
    let mut v = str_chars(a);
    let sep = str_chars("::");
    let w = str_chars(b);
    append_chars(&mut v, &sep);
    append_chars(&mut v, &w);
    assert(v@.subrange(0, v@.len() as int) =~= v@);
    string_from_chars(v.as_slice(), 0, v.len())
}

/// What `document_abbreviation_proof` gives.
pub open spec fn is_abbreviation_proof(abbreviation: DocumentAbbreviation, reason: SuppressionReason, r: DiagnosticProof) -> bool {
    &&& r.kind == DiagnosticProofKind::DocumentAbbreviation
    &&& r.confidence == ProofConfidence::Strong
    &&& r.assumptions@.len() == 0
    &&& r.blockers@.len() == 0
    &&& r.facts@.len() == (if abbreviation.expansion is Some { 3int } else { 2 })
    &&& r.facts@[0].key@ == "abbreviation"@ && r.facts@[0].value@ == abbreviation.short@ && r.facts@[0].span == Some(
                abbreviation.first_span,
            )
    &&& r.facts@[1].key@ == "frequency"@ && r.facts@[1].value@ == decimal(abbreviation.frequency as nat)
                && r.facts@[1].span == Some(abbreviation.first_span)
    &&& abbreviation.expansion matches Some(e) ==> r.facts@[2].key@ == "expansion"@ && r.facts@[2].value@ == e@
                && r.facts@[2].span == Some(abbreviation.first_span) && r.conflict is None
    &&& abbreviation.expansion is None ==> (r.conflict matches Some(c) && c.kind@ == "missing_first_mention_expansion"@
                && c.expected@.len() == 1 && c.expected@[0]@ == "expanded first mention"@ && c.observed@.len() == 1
                && c.observed@[0]@ == "bare repeated abbreviation"@ && c.span == abbreviation.first_span)
    &&& r.suppressed_alternatives@.len() == 1
    &&& r.suppressed_alternatives@[0].label@ == "known or domain-obvious abbreviation"@
    &&& r.suppressed_alternatives@[0].reason == reason
    &&& r.suppressed_alternatives@[0].span == Some(abbreviation.first_span)
}

/// The proof behind an abbreviation entry: its form, frequency and
/// expansion, or a conflict when it is never expanded.
pub fn document_abbreviation_proof(abbreviation: &DocumentAbbreviation, reason: SuppressionReason) -> (r: DiagnosticProof)
    ensures
        is_abbreviation_proof(*abbreviation, reason, r),
{
    let span = abbreviation.first_span;
    let count = decimal_string(abbreviation.frequency);
    let mut proof = DiagnosticProof::new(DiagnosticProofKind::DocumentAbbreviation, SyntaxConfidence::Strong)
        .with_fact(DiagnosticFact::new("abbreviation", abbreviation.short.as_str(), Some(span)))
        .with_fact(DiagnosticFact::new("frequency", count.as_str(), Some(span)));
    match &abbreviation.expansion {
        Some(expansion) => {
            proof = proof.with_fact(DiagnosticFact::new("expansion", expansion.as_str(), Some(span)));
        },
        None => {
            let mut expected: Vec<String> = Vec::new();
            expected.push(text_of("expanded first mention"));
            let mut observed: Vec<String> = Vec::new();
            observed.push(text_of("bare repeated abbreviation"));
            proof = proof.with_conflict(DiagnosticConflict {
                kind: text_of("missing_first_mention_expansion"),
                expected,
                observed,
                span,
            });
        },
    }
    proof.with_suppressed_alternative(SuppressedAlternative {
        label: text_of("known or domain-obvious abbreviation"),
        reason,
        span: Some(span),
    })
}

/// The proof behind a style entry: the check, the headings or list items
/// involved, and the conflict with a consistent style.
pub fn document_style_proof(candidate: &DocumentStyleCandidate) -> (r: DiagnosticProof)
    ensures
        r.kind == DiagnosticProofKind::DocumentConsistency,
        r.confidence == ProofConfidence::Strong,
        r.assumptions@.len() == 0,
        r.blockers@.len() == 0,
        r.facts@.len() == 1 + candidate.headings@.len() + candidate.list_items@.len(),
        r.facts@[0].key@ == "style_check"@ && r.facts@[0].value@ == candidate.key@ && r.facts@[0].span == Some(
            candidate.span,
        ),
        forall|k: int|
            0 <= k < candidate.headings@.len() ==> (#[trigger] r.facts@[1 + k]).key@ == "heading"@ && r.facts@[1
                + k].value@ == candidate.headings@[k].text@ + "::"@ + style_name(candidate.headings@[k].style)
                && r.facts@[1 + k].span == Some(candidate.headings@[k].span),
        forall|k: int|
            0 <= k < candidate.list_items@.len() ==> (#[trigger] r.facts@[1 + candidate.headings@.len() + k]).key@
                == "list_item_marker"@ && r.facts@[1 + candidate.headings@.len() + k].value@
                == candidate.list_items@[k].marker@ + "::"@ + marker_kind_name(candidate.list_items@[k].marker_kind)
                && r.facts@[1 + candidate.headings@.len() + k].span == Some(candidate.list_items@[k].span),
        r.conflict matches Some(c) && c.kind@ == candidate.key@ && c.expected@.len() == 1 && c.expected@[0]@
            == "consistent document style"@ && c.observed@.len() == 1 && c.observed@[0]@ == candidate.key@
            && c.span == candidate.span,
        r.suppressed_alternatives@.len() == 1,
        r.suppressed_alternatives@[0].label@ == "intentional local formatting"@,
        r.suppressed_alternatives@[0].reason == candidate.reason,
        r.suppressed_alternatives@[0].span == Some(candidate.span),
{
    let mut proof = DiagnosticProof::new(DiagnosticProofKind::DocumentConsistency, SyntaxConfidence::Strong)
        .with_fact(DiagnosticFact::new("style_check", candidate.key, Some(candidate.span)));
    let mut i: usize = 0;
    while i < candidate.headings.len()
        invariant
            i <= candidate.headings@.len(),
            proof.kind == DiagnosticProofKind::DocumentConsistency,
            proof.confidence == ProofConfidence::Strong,
            proof.assumptions@.len() == 0,
            proof.blockers@.len() == 0,
            proof.conflict is None,
            proof.suppressed_alternatives@.len() == 0,
            proof.facts@.len() == 1 + i,
            proof.facts@[0].key@ == "style_check"@ && proof.facts@[0].value@ == candidate.key@ && proof.facts@[0].span
                == Some(candidate.span),
            forall|k: int|
                0 <= k < i ==> (#[trigger] proof.facts@[1 + k]).key@ == "heading"@ && proof.facts@[1 + k].value@
                    == candidate.headings@[k].text@ + "::"@ + style_name(candidate.headings@[k].style) && proof.facts@[1
                    + k].span == Some(candidate.headings@[k].span),
        decreases candidate.headings@.len() - i,
    {
        let h = candidate.headings[i];
        let value = joined_with_colons(h.text.as_str(), style_name_str(h.style));
        proof = proof.with_fact(DiagnosticFact::new("heading", value.as_str(), Some(h.span)));
        i = i + 1;
    }
    let nh = candidate.headings.len();
    let mut j: usize = 0;
    while j < candidate.list_items.len()
        invariant
            nh == candidate.headings@.len(),
            j <= candidate.list_items@.len(),
            proof.kind == DiagnosticProofKind::DocumentConsistency,
            proof.confidence == ProofConfidence::Strong,
            proof.assumptions@.len() == 0,
            proof.blockers@.len() == 0,
            proof.conflict is None,
            proof.suppressed_alternatives@.len() == 0,
            proof.facts@.len() == 1 + nh + j,
            proof.facts@[0].key@ == "style_check"@ && proof.facts@[0].value@ == candidate.key@ && proof.facts@[0].span
                == Some(candidate.span),
            forall|k: int|
                0 <= k < nh ==> (#[trigger] proof.facts@[1 + k]).key@ == "heading"@ && proof.facts@[1 + k].value@
                    == candidate.headings@[k].text@ + "::"@ + style_name(candidate.headings@[k].style) && proof.facts@[1
                    + k].span == Some(candidate.headings@[k].span),
            forall|k: int|
                0 <= k < j ==> (#[trigger] proof.facts@[1 + nh + k]).key@ == "list_item_marker"@ && proof.facts@[1 + nh
                    + k].value@ == candidate.list_items@[k].marker@ + "::"@ + marker_kind_name(
                    candidate.list_items@[k].marker_kind,
                ) && proof.facts@[1 + nh + k].span == Some(candidate.list_items@[k].span),
        decreases candidate.list_items@.len() - j,
    {
        let it = candidate.list_items[j];
        let value = joined_with_colons(it.marker.as_str(), marker_kind_name_str(it.marker_kind));
        proof = proof.with_fact(DiagnosticFact::new("list_item_marker", value.as_str(), Some(it.span)));
        j = j + 1;
    }
    let mut expected: Vec<String> = Vec::new();
    expected.push(text_of("consistent document style"));
    let mut observed: Vec<String> = Vec::new();
    observed.push(text_of(candidate.key));
    proof.with_conflict(DiagnosticConflict {
        kind: text_of(candidate.key),
        expected,
        observed,
        span: candidate.span,
    }).with_suppressed_alternative(SuppressedAlternative {
        label: text_of("intentional local formatting"),
        reason: candidate.reason,
        span: Some(candidate.span),
    })
}

} // verus!
