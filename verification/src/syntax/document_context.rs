use vstd::prelude::*;
use crate::text::{Span, Token};
use crate::unicode::{string_from_chars, str_chars, text_len};
use crate::syntax::model::SentenceSpan;
use crate::syntax::sentences::{sentence_spans, spec_sentence_spans};
use crate::syntax::document_structure::{
    document_style_profile, glossary_entries_from_document, glossary_views, heading_candidates, heading_views,
    item_views, list_item_candidates, paragraphs_from, spec_glossary, spec_headings, spec_items, spec_lines,
    spec_mixed_heading_punctuation, spec_mixed_list_markers, DocumentStyleProfile, GlossaryEntry,
    HeadingCandidate, ListItemCandidate,
};
use crate::syntax::document_terms::{
    abbreviation_starts_ok, abbreviation_views, abbreviations_of, document_abbreviations, document_terms,
    term_views, terms_of, AbbreviationView, DocumentAbbreviation, DocumentMention, DocumentTerm, TermView,
};

verus! {

broadcast use vstd::seq_lib::group_seq_properties;

/// A fact that spans several sentences, such as a term repeated across
/// them.
#[derive(Debug, Clone, PartialEq, Eq)]
pub struct CrossSentenceFact {
    pub key: String,
    pub value: String,
    pub spans: Vec<Span>,
}

pub struct FactView {
    pub key: Seq<char>,
    pub value: Seq<char>,
    pub spans: Seq<Span>,
}

impl View for CrossSentenceFact {
    type V = FactView;

    open spec fn view(&self) -> FactView {
        FactView { key: self.key@, value: self.value@, spans: self.spans@ }
    }
}

pub open spec fn fact_views(v: Seq<CrossSentenceFact>) -> Seq<FactView> {
    v.map_values(|f: CrossSentenceFact| f@)
}

/// Two of the mentions lie in different sentences.
pub open spec fn across_sentences(ms: Seq<DocumentMention>) -> bool {
    exists|i: int, j: int|
        0 <= i < ms.len() && 0 <= j < ms.len() && (#[trigger] ms[i]).sentence_index is Some && (#[trigger] ms[j]).sentence_index is Some
            && ms[i].sentence_index != ms[j].sentence_index
}

pub open spec fn mention_spans(ms: Seq<DocumentMention>) -> Seq<Span> {
    ms.map_values(|m: DocumentMention| m.span)
}

/// Facts of the first `k` terms mentioned in more than one sentence.
pub open spec fn term_facts(ts: Seq<TermView>, k: int) -> Seq<FactView>
    decreases k,
{
    if k <= 0 || k > ts.len() {
        Seq::empty()
    } else if across_sentences(ts[k - 1].mentions) {
        term_facts(ts, k - 1).push(
            FactView {
                key: "repeated_term_across_sentences"@,
                value: ts[k - 1].canonical,
                spans: mention_spans(ts[k - 1].mentions),
            },
        )
    } else {
        term_facts(ts, k - 1)
    }
}

/// Facts of the first `k` abbreviations mentioned in more than one sentence.
pub open spec fn abbreviation_facts(ab: Seq<AbbreviationView>, k: int) -> Seq<FactView>
    decreases k,
{
    if k <= 0 || k > ab.len() {
        Seq::empty()
    } else if across_sentences(ab[k - 1].mentions) {
        abbreviation_facts(ab, k - 1).push(
            FactView {
                key: "repeated_abbreviation_across_sentences"@,
                value: ab[k - 1].short,
                spans: mention_spans(ab[k - 1].mentions),
            },
        )
    } else {
        abbreviation_facts(ab, k - 1)
    }
}

fn mentions_across_sentences(ms: &Vec<DocumentMention>) -> (r: bool)
    ensures
        r == across_sentences(ms@),
{
    let mut first: Option<usize> = None;
    let mut i: usize = 0;
    while i < ms.len()
        invariant
            i <= ms@.len(),
            match first {
                None => forall|j: int| 0 <= j < i ==> (#[trigger] ms@[j]).sentence_index is None,
                Some(a) => (exists|j: int| 0 <= j < i && (#[trigger] ms@[j]).sentence_index == Some(a))
                    && forall|j: int| 0 <= j < i && (#[trigger] ms@[j]).sentence_index is Some ==> ms@[j].sentence_index == Some(a),
            },
        decreases ms@.len() - i,
    {
        match ms[i].sentence_index {
            None => {},
            Some(b) => match first {
                None => {
                    first = Some(b);
                },
                Some(a) => {
                    if a != b {
                        proof {
                            let j = choose|j: int| 0 <= j < i && (#[trigger] ms@[j]).sentence_index == Some(a);
                            assert(ms@[j].sentence_index != ms@[i as int].sentence_index);
                        }
                        return true;
                    }
                },
            },
        }
        i = i + 1;
    }
    false
}

fn spans_of(ms: &Vec<DocumentMention>) -> (r: Vec<Span>)
    ensures
        r@ == mention_spans(ms@),
{
    let mut out: Vec<Span> = Vec::new();
    let mut i: usize = 0;
    while i < ms.len()
        invariant
            i <= ms@.len(),
            out@ == mention_spans(ms@.take(i as int)),
        decreases ms@.len() - i,
    {
        out.push(ms[i].span);
        i = i + 1;
        assert(out@ =~= mention_spans(ms@.take(i as int)));
    }
    assert(ms@.take(ms@.len() as int) =~= ms@);
    out
}

fn own_text(s: &str) -> (r: String)
    ensures
        r@ == s@,
{
    let c = str_chars(s);
    assert(c@.subrange(0, c@.len() as int) =~= c@);
    string_from_chars(c.as_slice(), 0, c.len())
}

/// Facts for the terms and then the abbreviations mentioned in more than
/// one sentence.
pub fn cross_sentence_facts_from_terms_and_abbreviations(
    terms: &[DocumentTerm],
    abbreviations: &[DocumentAbbreviation],
) -> (r: Vec<CrossSentenceFact>)
    ensures
        fact_views(r@) == term_facts(term_views(terms@), terms@.len() as int) + abbreviation_facts(
            abbreviation_views(abbreviations@),
            abbreviations@.len() as int,
        ),
{
    let ghost tv = term_views(terms@);
    let ghost av = abbreviation_views(abbreviations@);
    let mut out: Vec<CrossSentenceFact> = Vec::new();
    let mut i: usize = 0;
    while i < terms.len()
        invariant
            tv == term_views(terms@),
            i <= terms@.len(),
            fact_views(out@) == term_facts(tv, i as int),
        decreases terms@.len() - i,
    {
        let t = &terms[i];
        if mentions_across_sentences(&t.mentions) {
            let f = CrossSentenceFact {
                key: own_text("repeated_term_across_sentences"),
                value: t.canonical.clone(),
                spans: spans_of(&t.mentions),
            };
            let ghost o = fact_views(out@);
            out.push(f);
            assert(fact_views(out@) =~= o.push(f@));
        }
        i = i + 1;
    }
    let ghost mid = fact_views(out@);
    let mut j: usize = 0;
    while j < abbreviations.len()
        invariant
            av == abbreviation_views(abbreviations@),
            j <= abbreviations@.len(),
            fact_views(out@) == mid + abbreviation_facts(av, j as int),
        decreases abbreviations@.len() - j,
    {
        let a = &abbreviations[j];
        if mentions_across_sentences(&a.mentions) {
            let f = CrossSentenceFact {
                key: own_text("repeated_abbreviation_across_sentences"),
                value: a.short.clone(),
                spans: spans_of(&a.mentions),
            };
            let ghost o = fact_views(out@);
            out.push(f);
            assert(fact_views(out@) =~= o.push(f@));
        }
        j = j + 1;
    }
    out
}

/// The first `k` terms that occur more than once.
pub open spec fn repeated_terms_of(ts: Seq<TermView>, k: int) -> Seq<TermView>
    decreases k,
{
    if k <= 0 || k > ts.len() {
        Seq::empty()
    } else if ts[k - 1].frequency > 1 {
        repeated_terms_of(ts, k - 1).push(ts[k - 1])
    } else {
        repeated_terms_of(ts, k - 1)
    }
}

impl DocumentTerm {
    pub fn duplicate(&self) -> (r: Self)
        ensures
            r@ == self@,
    {
        let mut mentions: Vec<DocumentMention> = Vec::new();
        let mut i: usize = 0;
        while i < self.mentions.len()
            invariant
                i <= self.mentions@.len(),
                mentions@ == self.mentions@.take(i as int),
            decreases self.mentions@.len() - i,
        {
            mentions.push(self.mentions[i]);
            i = i + 1;
        }
        assert(self.mentions@.take(self.mentions@.len() as int) =~= self.mentions@);
        DocumentTerm {
            canonical: self.canonical.clone(),
            first_span: self.first_span,
            frequency: self.frequency,
            mentions,
        }
    }
}

/// What a document says across its sentences: terms, headings, list items,
/// abbreviations, glossary entries, style and cross-sentence facts.
#[derive(Debug, Clone, PartialEq, Eq)]
pub struct DocumentContext<'a> {
    pub text: &'a str,
    pub terms: Vec<DocumentTerm>,
    pub repeated_terms: Vec<DocumentTerm>,
    pub headings: Vec<HeadingCandidate>,
    pub list_items: Vec<ListItemCandidate>,
    pub abbreviations: Vec<DocumentAbbreviation>,
    pub glossary_entries: Vec<GlossaryEntry>,
    pub style: DocumentStyleProfile,
    pub cross_sentence_facts: Vec<CrossSentenceFact>,
}

/// `r` is the document context of text `s` cut into `toks`.
pub open spec fn context_of(r: DocumentContext, s: Seq<char>, toks: Seq<Token>) -> bool {
    &&& r.text@ == s
    &&& terms_of(toks, spec_sentence_spans(s), term_views(r.terms@))
    &&& term_views(r.repeated_terms@) == repeated_terms_of(term_views(r.terms@), r.terms@.len() as int)
    &&& heading_views(r.headings@) == spec_headings(s, spec_lines(s), spec_lines(s).len() as int)
    &&& item_views(r.list_items@) == spec_items(s, spec_lines(s), spec_lines(s).len() as int)
    &&& abbreviations_of(s, toks, spec_sentence_spans(s), abbreviation_views(r.abbreviations@))
    &&& glossary_views(r.glossary_entries@) == spec_glossary(
        heading_views(r.headings@),
        text_len(s) as int,
        item_views(r.list_items@),
        r.list_items@.len() as int,
    )
    &&& r.style.paragraph_count == paragraphs_from(s, 0)
    &&& r.style.heading_count == r.headings@.len()
    &&& r.style.list_item_count == r.list_items@.len()
    &&& r.style.mixed_heading_punctuation == spec_mixed_heading_punctuation(heading_views(r.headings@))
    &&& r.style.mixed_list_markers == spec_mixed_list_markers(item_views(r.list_items@))
    &&& fact_views(r.cross_sentence_facts@) == term_facts(term_views(r.terms@), r.terms@.len() as int)
        + abbreviation_facts(abbreviation_views(r.abbreviations@), r.abbreviations@.len() as int)
}

impl<'a> DocumentContext<'a> {
    /// The context of `text` cut into `tokens`.
    pub fn new(text: &'a str, tokens: &[Token]) -> (r: Self)
        requires
            abbreviation_starts_ok(text@, tokens@),
        ensures
            context_of(r, text@, tokens@),
    {
        let sentences = sentence_spans(text);
        let headings = heading_candidates(text);
        let list_items = list_item_candidates(text);
        let terms = document_terms(tokens, sentences.as_slice());
        let ghost tv = term_views(terms@);
        let mut repeated_terms: Vec<DocumentTerm> = Vec::new();
        let mut i: usize = 0;
        while i < terms.len()
            invariant
                tv == term_views(terms@),
                i <= terms@.len(),
                term_views(repeated_terms@) == repeated_terms_of(tv, i as int),
            decreases terms@.len() - i,
        {
            if terms[i].frequency > 1 {
                let t = terms[i].duplicate();
                let ghost o = term_views(repeated_terms@);
                repeated_terms.push(t);
                assert(term_views(repeated_terms@) =~= o.push(t@));
            }
            i = i + 1;
        }
        let abbreviations = document_abbreviations(text, tokens, sentences.as_slice());
        let glossary_entries = glossary_entries_from_document(text, headings.as_slice(), list_items.as_slice());
        let cross_sentence_facts = cross_sentence_facts_from_terms_and_abbreviations(
            terms.as_slice(),
            abbreviations.as_slice(),
        );
        let style = document_style_profile(text, headings.as_slice(), list_items.as_slice());
        DocumentContext {
            text,
            terms,
            repeated_terms,
            headings,
            list_items,
            abbreviations,
            glossary_entries,
            style,
            cross_sentence_facts,
        }
    }
}

} // verus!
