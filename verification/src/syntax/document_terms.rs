use vstd::prelude::*;
use crate::text::{append_chars, Span, Token, TokenKind};
use crate::unicode::{
    byte_offset, chars_eq, chars_eq_str, is_alphabetic, is_lowercase, str_chars, string_from_chars,
    to_lower_chars, to_upper_chars, unicode_alphabetic, unicode_lowercase, unicode_to_lower, unicode_to_upper,
    CharOffsets,
};
use crate::text::{trim_bounds, trim_end_bound, trim_end_seq, trim_seq};
use crate::syntax::model::SentenceSpan;

verus! {

broadcast use vstd::seq_lib::group_seq_properties;

/// One occurrence of a document term or abbreviation.
#[derive(Debug, Clone, Copy, PartialEq, Eq, Structural)]
pub struct DocumentMention {
    pub span: Span,
    pub sentence_index: Option<usize>,
    pub token_index: usize,
    pub is_first_mention: bool,
}

/// Index of the first sentence before `k` that holds the span whole.
pub open spec fn sentence_index_from(sents: Seq<SentenceSpan>, span: Span, k: int) -> Option<usize>
    decreases sents.len() - k,
{
    if k < 0 || k >= sents.len() {
        None
    } else if sents[k].start <= span.start && span.end <= sents[k].end {
        Some(k as usize)
    } else {
        sentence_index_from(sents, span, k + 1)
    }
}

pub open spec fn spec_sentence_index(sents: Seq<SentenceSpan>, span: Span) -> Option<usize> {
    sentence_index_from(sents, span, 0)
}

/// The first sentence that holds the span whole.
pub fn sentence_index_for_span(span: Span, sentences: &[SentenceSpan]) -> (r: Option<usize>)
    ensures
        r == spec_sentence_index(sentences@, span),
{
    let mut k: usize = 0;
    while k < sentences.len() && !(sentences[k].start <= span.start && span.end <= sentences[k].end)
        invariant
            k <= sentences@.len(),
            spec_sentence_index(sentences@, span) == sentence_index_from(sentences@, span, k as int),
        decreases sentences@.len() - k,
    {
        k = k + 1;
    }
    if k < sentences.len() {
        Some(k)
    } else {
        None
    }
}

/// Letters and hyphens of the word, lowercased.
pub open spec fn spec_normalize_term(s: Seq<char>) -> Seq<char>
    decreases s.len(),
{
    if s.len() == 0 {
        Seq::empty()
    } else {
        spec_normalize_term(s.drop_last()) + if unicode_alphabetic(s.last()) || s.last() == '-' {
            unicode_to_lower(s.last())
        } else {
            Seq::empty()
        }
    }
}

pub fn normalize_document_term(value: &str) -> (r: Vec<char>)
    ensures
        r@ == spec_normalize_term(value@),
{
    let s = str_chars(value);
    let mut out: Vec<char> = Vec::new();
    let mut i: usize = 0;
    while i < s.len()
        invariant
            s@ == value@,
            i <= s@.len(),
            out@ == spec_normalize_term(s@.take(i as int)),
        decreases s@.len() - i,
    {
        assert(s@.take(i as int + 1).drop_last() =~= s@.take(i as int));
        let c = s[i];
        if is_alphabetic(c) || c == '-' {
            let low = to_lower_chars(c);
            append_chars(&mut out, &low);
        } else {
            assert(out@ + Seq::<char>::empty() =~= out@);
        }
        i = i + 1;
    }
    assert(s@.take(s@.len() as int) =~= s@);
    out
}

pub open spec fn spec_stop_word(v: Seq<char>) -> bool {
    ||| v == "который"@ || v == "которая"@ || v == "которые"@ || v == "потому"@
    ||| v == "если"@ || v == "чтобы"@ || v == "этого"@ || v == "этот"@
    ||| v == "эта"@ || v == "это"@ || v == "были"@ || v == "было"@
    ||| v == "есть"@ || v == "будет"@ || v == "можно"@ || v == "нужно"@
}

fn is_stop_word(v: &[char]) -> (r: bool)
    ensures
        r == spec_stop_word(v@),
{
    chars_eq_str(v, "который") || chars_eq_str(v, "которая") || chars_eq_str(v, "которые") || chars_eq_str(
        v,
        "потому",
    ) || chars_eq_str(v, "если") || chars_eq_str(v, "чтобы") || chars_eq_str(v, "этого") || chars_eq_str(
        v,
        "этот",
    ) || chars_eq_str(v, "эта") || chars_eq_str(v, "это") || chars_eq_str(v, "были") || chars_eq_str(v, "было")
        || chars_eq_str(v, "есть") || chars_eq_str(v, "будет") || chars_eq_str(v, "можно") || chars_eq_str(
        v,
        "нужно",
    )
}

/// A normalized word of at least four characters that is not a stop word.
pub open spec fn spec_term_candidate(v: Seq<char>) -> bool {
    v.len() >= 4 && !spec_stop_word(v)
}

pub fn is_document_term_candidate(v: &[char]) -> (r: bool)
    ensures
        r == spec_term_candidate(v@),
{
    v.len() >= 4 && !is_stop_word(v)
}

/// Index of the group with key `key`, looking from `i` on.
pub open spec fn group_index(groups: Seq<(Seq<char>, Seq<DocumentMention>)>, key: Seq<char>, i: int) -> Option<int>
    decreases groups.len() - i,
{
    if i < 0 || i >= groups.len() {
        None
    } else if groups[i].0 == key {
        Some(i)
    } else {
        group_index(groups, key, i + 1)
    }
}

/// `groups` with mention `m` added under `key`.
pub open spec fn group_insert(groups: Seq<(Seq<char>, Seq<DocumentMention>)>, key: Seq<char>, m: DocumentMention) -> Seq<
    (Seq<char>, Seq<DocumentMention>),
> {
    match group_index(groups, key, 0) {
        Some(g) => groups.update(g, (key, groups[g].1.push(m))),
        None => groups.push((key, seq![m])),
    }
}

pub proof fn lemma_group_index(groups: Seq<(Seq<char>, Seq<DocumentMention>)>, key: Seq<char>, i: int)
    ensures
        group_index(groups, key, i) matches Some(g) ==> 0 <= i <= g < groups.len() && groups[g].0 == key,
        group_index(groups, key, i) is None ==> forall|j: int| 0 <= i <= j < groups.len() ==> groups[j].0 != key,
    decreases groups.len() - i,
{
    if 0 <= i < groups.len() && groups[i].0 != key {
        lemma_group_index(groups, key, i + 1);
    }
}

pub open spec fn groups_of(v: Seq<(Vec<char>, Vec<DocumentMention>)>) -> Seq<(Seq<char>, Seq<DocumentMention>)> {
    v.map_values(|g: (Vec<char>, Vec<DocumentMention>)| (g.0@, g.1@))
}

/// Adds mention `m` under `key`, keeping groups in first-occurrence order.
pub fn insert_mention(groups: &mut Vec<(Vec<char>, Vec<DocumentMention>)>, key: Vec<char>, m: DocumentMention)
    ensures
        groups_of(final(groups)@) == group_insert(groups_of(old(groups)@), key@, m),
{
    let ghost gs = groups_of(groups@);
    let mut i: usize = 0;
    while i < groups.len() && !chars_eq(groups[i].0.as_slice(), key.as_slice())
        invariant
            i <= groups@.len(),
            gs == groups_of(groups@),
            group_index(gs, key@, 0) == group_index(gs, key@, i as int),
        decreases groups@.len() - i,
    {
        i = i + 1;
    }
    if i < groups.len() {
        let (k, mut ms) = groups.remove(i);
        ms.push(m);
        groups.insert(i, (k, ms));
        proof {
            assert(groups_of(groups@) =~= gs.update(i as int, (key@, gs[i as int].1.push(m))));
        }
    } else {
        let mut ms: Vec<DocumentMention> = Vec::new();
        ms.push(m);
        groups.push((key, ms));
        proof {
            assert(ms@ =~= seq![m]);
            assert(groups_of(groups@) =~= gs.push((key@, seq![m])));
        }
    }
}

/// Whether `a` sorts before `b`, comparing characters by code point.
pub open spec fn chars_lt(a: Seq<char>, b: Seq<char>) -> bool
    decreases a.len(),
{
    if a.len() == 0 {
        b.len() > 0
    } else if b.len() == 0 {
        false
    } else if a[0] != b[0] {
        (a[0] as int) < (b[0] as int)
    } else {
        chars_lt(a.drop_first(), b.drop_first())
    }
}

pub proof fn lemma_chars_lt_total(a: Seq<char>, b: Seq<char>)
    ensures
        a != b ==> chars_lt(a, b) || chars_lt(b, a),
        !(chars_lt(a, b) && chars_lt(b, a)),
        !chars_lt(a, a),
    decreases a.len(),
{
    if a.len() > 0 && b.len() > 0 && a[0] == b[0] {
        lemma_chars_lt_total(a.drop_first(), b.drop_first());
        if a.drop_first() == b.drop_first() {
            assert(a =~= seq![a[0]] + a.drop_first());
            assert(b =~= seq![b[0]] + b.drop_first());
        }
    } else if a.len() == 0 && b.len() == 0 {
        assert(a =~= b);
    } else if a.len() > 0 && b.len() > 0 {
        assert((a[0] as int) != (b[0] as int));
    }
    if a.len() > 0 {
        lemma_chars_lt_total(a.drop_first(), a.drop_first());
    }
}

pub proof fn lemma_chars_lt_trans(a: Seq<char>, b: Seq<char>, c: Seq<char>)
    requires
        chars_lt(a, b),
        chars_lt(b, c),
    ensures
        chars_lt(a, c),
    decreases a.len(),
{
    if a.len() > 0 && b.len() > 0 && c.len() > 0 && a[0] == b[0] && b[0] == c[0] {
        lemma_chars_lt_trans(a.drop_first(), b.drop_first(), c.drop_first());
    }
}

/// Lexicographic comparison by code point.
pub fn chars_less(a: &[char], b: &[char]) -> (r: bool)
    ensures
        r == chars_lt(a@, b@),
{
    let mut i: usize = 0;
    while i < a.len() && i < b.len() && a[i] == b[i]
        invariant
            i <= a@.len(),
            i <= b@.len(),
            chars_lt(a@, b@) == chars_lt(a@.subrange(i as int, a@.len() as int), b@.subrange(i as int, b@.len() as int)),
        decreases a@.len() - i,
    {
        assert(a@.subrange(i as int, a@.len() as int).drop_first() =~= a@.subrange(i as int + 1, a@.len() as int));
        assert(b@.subrange(i as int, b@.len() as int).drop_first() =~= b@.subrange(i as int + 1, b@.len() as int));
        i = i + 1;
    }
    if i == a.len() {
        i < b.len()
    } else if i == b.len() {
        false
    } else {
        let x = a[i];
        let y = b[i];
        let r = x < y;
        proof {
            let sa = a@.subrange(i as int, a@.len() as int);
            let sb = b@.subrange(i as int, b@.len() as int);
            assert(sa[0] == x && sb[0] == y);
            assert(r == ((x as int) < (y as int)));
        }
        r
    }
}

pub open spec fn group_start(g: (Seq<char>, Seq<DocumentMention>)) -> int {
    if g.1.len() > 0 {
        g.1[0].span.start as int
    } else {
        0
    }
}

/// Groups ordered by falling size, then by the start of their first
/// mention, then by key.
pub open spec fn group_lt(a: (Seq<char>, Seq<DocumentMention>), b: (Seq<char>, Seq<DocumentMention>)) -> bool {
    ||| a.1.len() > b.1.len()
    ||| a.1.len() == b.1.len() && group_start(a) < group_start(b)
    ||| a.1.len() == b.1.len() && group_start(a) == group_start(b) && chars_lt(a.0, b.0)
}

pub proof fn lemma_group_lt_total(a: (Seq<char>, Seq<DocumentMention>), b: (Seq<char>, Seq<DocumentMention>))
    requires
        a.0 != b.0,
    ensures
        group_lt(a, b) || group_lt(b, a),
{
    lemma_chars_lt_total(a.0, b.0);
}

pub proof fn lemma_group_lt_trans(
    a: (Seq<char>, Seq<DocumentMention>),
    b: (Seq<char>, Seq<DocumentMention>),
    c: (Seq<char>, Seq<DocumentMention>),
)
    requires
        group_lt(a, b),
        group_lt(b, c),
    ensures
        group_lt(a, c),
{
    if a.1.len() == b.1.len() && b.1.len() == c.1.len() && group_start(a) == group_start(b) && group_start(b)
        == group_start(c) {
        lemma_chars_lt_trans(a.0, b.0, c.0);
    }
}

pub open spec fn groups_sorted(v: Seq<(Seq<char>, Seq<DocumentMention>)>) -> bool {
    forall|i: int, j: int| 0 <= i < j < v.len() ==> group_lt(#[trigger] v[i], #[trigger] v[j])
}

pub open spec fn keys_distinct(v: Seq<(Seq<char>, Seq<DocumentMention>)>) -> bool {
    forall|i: int, j: int| 0 <= i < j < v.len() ==> (#[trigger] v[i]).0 != (#[trigger] v[j]).0
}

pub proof fn lemma_group_insert_distinct(groups: Seq<(Seq<char>, Seq<DocumentMention>)>, key: Seq<char>, m: DocumentMention)
    requires
        keys_distinct(groups),
    ensures
        keys_distinct(group_insert(groups, key, m)),
{
    lemma_group_index(groups, key, 0);
}

fn group_lt_exec(a: &(Vec<char>, Vec<DocumentMention>), b: &(Vec<char>, Vec<DocumentMention>)) -> (r: bool)
    ensures
        r == group_lt((a.0@, a.1@), (b.0@, b.1@)),
{
    let la = a.1.len();
    let lb = b.1.len();
    let sa = if la > 0 { a.1[0].span.start } else { 0 };
    let sb = if lb > 0 { b.1[0].span.start } else { 0 };
    la > lb || (la == lb && sa < sb) || (la == lb && sa == sb && chars_less(a.0.as_slice(), b.0.as_slice()))
}

fn insert_group_sorted(v: &mut Vec<(Vec<char>, Vec<DocumentMention>)>, x: (Vec<char>, Vec<DocumentMention>))
    requires
        groups_sorted(groups_of(old(v)@)),
        forall|k: int| 0 <= k < old(v)@.len() ==> (#[trigger] old(v)@[k]).0@ != x.0@,
    ensures
        groups_sorted(groups_of(final(v)@)),
        groups_of(final(v)@).to_multiset() == groups_of(old(v)@).to_multiset().insert((x.0@, x.1@)),
{
    let ghost old_v = groups_of(v@);
    let ghost xv = (x.0@, x.1@);
    let mut p: usize = v.len();
    while p > 0 && group_lt_exec(&x, &v[p - 1])
        invariant
            p <= v@.len(),
            groups_of(v@) == old_v,
            forall|k: int| p <= k < v@.len() ==> group_lt(xv, #[trigger] groups_of(v@)[k]),
            xv == (x.0@, x.1@),
        decreases p,
    {
        assert(groups_of(v@)[p - 1] == (v@[p - 1].0@, v@[p - 1].1@));
        p = p - 1;
    }
    proof {
        if p > 0 {
            assert(old_v[p - 1].0 == v@[p - 1].0@);
            lemma_group_lt_total(xv, old_v[p - 1]);
        }
    }
    v.insert(p, x);
    proof {
        let nv = groups_of(v@);
        assert(nv =~= old_v.insert(p as int, xv));
        assert(nv.remove(p as int) =~= old_v);
        vstd::seq_lib::to_multiset_remove(nv, p as int);
        vstd::seq_lib::to_multiset_contains(nv, xv);
        assert(nv[p as int] == xv);
        assert(nv.to_multiset() =~= old_v.to_multiset().insert(xv));
        assert forall|i: int, j: int| 0 <= i < j < nv.len() implies group_lt(#[trigger] nv[i], #[trigger] nv[j]) by {
            if i < p && j == p {
                if i < p - 1 {
                    lemma_group_lt_trans(old_v[i], old_v[p - 1], xv);
                }
            } else if i < p && j > p {
                if i < p - 1 {
                    lemma_group_lt_trans(old_v[i], old_v[p - 1], xv);
                }
                lemma_group_lt_trans(nv[i], xv, nv[j]);
            }
        }
    }
}

/// Sorts groups by falling size, first mention and key.
pub fn sort_groups(raw: Vec<(Vec<char>, Vec<DocumentMention>)>) -> (r: Vec<(Vec<char>, Vec<DocumentMention>)>)
    requires
        keys_distinct(groups_of(raw@)),
    ensures
        groups_sorted(groups_of(r@)),
        groups_of(r@).to_multiset() == groups_of(raw@).to_multiset(),
{
    let ghost rv = groups_of(raw@);
    let mut raw = raw;
    let mut sorted: Vec<(Vec<char>, Vec<DocumentMention>)> = Vec::new();
    let n = raw.len();
    let mut k: usize = 0;
    while raw.len() > 0
        invariant
            n == rv.len(),
            k + raw@.len() == n,
            keys_distinct(rv),
            groups_of(raw@) == rv.subrange(k as int, n as int),
            groups_sorted(groups_of(sorted@)),
            groups_of(sorted@).to_multiset() == rv.take(k as int).to_multiset(),
            forall|m: int| 0 <= m < sorted@.len() ==> exists|j: int| 0 <= j < k && (#[trigger] groups_of(sorted@)[m]) == rv[j],
        decreases raw@.len(),
    {
        let x = raw.remove(0);
        let ghost xv = (x.0@, x.1@);
        assert(xv == rv[k as int]);
        proof {
            assert forall|m: int| 0 <= m < sorted@.len() implies (#[trigger] sorted@[m]).0@ != x.0@ by {
                assert(groups_of(sorted@)[m] == (sorted@[m].0@, sorted@[m].1@));
                let j = choose|j: int| 0 <= j < k && groups_of(sorted@)[m] == rv[j];
                assert(rv[j].0 != rv[k as int].0);
            }
        }
        let ghost old_sorted = groups_of(sorted@);
        insert_group_sorted(&mut sorted, x);
        proof {
            assert(rv.take(k as int + 1) =~= rv.take(k as int).push(rv[k as int]));
            vstd::seq_lib::to_multiset_build(rv.take(k as int), rv[k as int]);
            assert(groups_of(raw@) =~= rv.subrange(k as int + 1, n as int));
            assert forall|m: int| 0 <= m < sorted@.len() implies exists|j: int| 0 <= j < k + 1 && (#[trigger] groups_of(sorted@)[m]) == rv[j] by {
                let e = groups_of(sorted@)[m];
                vstd::seq_lib::to_multiset_contains(groups_of(sorted@), e);
                assert(groups_of(sorted@).contains(e));
                assert(groups_of(sorted@).to_multiset().count(e) > 0);
                if e == xv {
                    assert(rv[k as int] == e);
                } else {
                    assert(old_sorted.to_multiset().count(e) > 0);
                    vstd::seq_lib::to_multiset_contains(old_sorted, e);
                    let mm = choose|mm: int| 0 <= mm < old_sorted.len() && old_sorted[mm] == e;
                    assert(old_sorted[mm] == e);
                    let j = choose|j: int| 0 <= j < k && old_sorted[mm] == rv[j];
                    assert(rv[j] == e);
                }
            }
        }
        k = k + 1;
    }
    assert(rv.take(n as int) =~= rv);
    sorted
}

/// The mention of token `k`, not yet marked as first.
pub open spec fn mention_of(toks: Seq<Token>, sents: Seq<SentenceSpan>, k: int) -> DocumentMention {
    DocumentMention {
        span: toks[k].span,
        sentence_index: spec_sentence_index(sents, toks[k].span),
        token_index: k as usize,
        is_first_mention: false,
    }
}

/// The mentions with the first one marked as first.
pub open spec fn flag_first(ms: Seq<DocumentMention>) -> Seq<DocumentMention> {
    if ms.len() > 0 {
        ms.update(0, DocumentMention { is_first_mention: true, ..ms[0] })
    } else {
        ms
    }
}

/// Term mentions of the first `k` tokens, grouped by normalized form.
pub open spec fn term_groups(toks: Seq<Token>, sents: Seq<SentenceSpan>, k: int) -> Seq<(Seq<char>, Seq<DocumentMention>)>
    decreases k,
{
    if k <= 0 || k > toks.len() {
        Seq::empty()
    } else {
        let prev = term_groups(toks, sents, k - 1);
        let t = toks[k - 1];
        let key = spec_normalize_term(t.text@);
        if t.kind == TokenKind::Word && spec_term_candidate(key) {
            group_insert(prev, key, mention_of(toks, sents, k - 1))
        } else {
            prev
        }
    }
}

pub proof fn lemma_term_groups_distinct(toks: Seq<Token>, sents: Seq<SentenceSpan>, k: int)
    ensures
        keys_distinct(term_groups(toks, sents, k)),
    decreases k,
{
    if k > 0 && k <= toks.len() {
        lemma_term_groups_distinct(toks, sents, k - 1);
        let t = toks[k - 1];
        lemma_group_insert_distinct(term_groups(toks, sents, k - 1), spec_normalize_term(t.text@), mention_of(toks, sents, k - 1));
    }
}

/// A word that recurs through the document, with its mentions.
#[derive(Debug, Clone, PartialEq, Eq)]
pub struct DocumentTerm {
    pub canonical: String,
    pub first_span: Span,
    pub frequency: usize,
    pub mentions: Vec<DocumentMention>,
}

pub struct TermView {
    pub canonical: Seq<char>,
    pub first_span: Span,
    pub frequency: usize,
    pub mentions: Seq<DocumentMention>,
}

impl View for DocumentTerm {
    type V = TermView;

    open spec fn view(&self) -> TermView {
        TermView {
            canonical: self.canonical@,
            first_span: self.first_span,
            frequency: self.frequency,
            mentions: self.mentions@,
        }
    }
}

pub open spec fn term_views(v: Seq<DocumentTerm>) -> Seq<TermView> {
    v.map_values(|t: DocumentTerm| t@)
}

pub open spec fn first_span_of(ms: Seq<DocumentMention>) -> Span {
    if ms.len() > 0 {
        ms[0].span
    } else {
        Span { start: 0, end: 0 }
    }
}

pub open spec fn term_of(g: (Seq<char>, Seq<DocumentMention>)) -> TermView {
    TermView {
        canonical: g.0,
        first_span: first_span_of(g.1),
        frequency: g.1.len() as usize,
        mentions: flag_first(g.1),
    }
}

/// The terms of a document are its term groups sorted by falling
/// frequency, then first mention, then form.
pub open spec fn terms_of(toks: Seq<Token>, sents: Seq<SentenceSpan>, v: Seq<TermView>) -> bool {
    exists|sorted: Seq<(Seq<char>, Seq<DocumentMention>)>|
        #[trigger] sorted.to_multiset() == term_groups(toks, sents, toks.len() as int).to_multiset()
            && groups_sorted(sorted) && v == sorted.map_values(|g: (Seq<char>, Seq<DocumentMention>)| term_of(g))
}

fn flag_first_exec(ms: &mut Vec<DocumentMention>)
    ensures
        final(ms)@ == flag_first(old(ms)@),
{
    if ms.len() > 0 {
        let m = ms[0];
        ms.set(0, DocumentMention { is_first_mention: true, ..m });
    }
}

pub fn mention_for(tokens: &[Token], sentences: &[SentenceSpan], k: usize) -> (r: DocumentMention)
    requires
        k < tokens@.len(),
    ensures
        r == mention_of(tokens@, sentences@, k as int),
{
    DocumentMention {
        span: tokens[k].span,
        sentence_index: sentence_index_for_span(tokens[k].span, sentences),
        token_index: k,
        is_first_mention: false,
    }
}

/// Words of at least four letters outside the stop list, grouped by their
/// lowercase letters and hyphens.
pub fn document_terms(tokens: &[Token], sentences: &[SentenceSpan]) -> (r: Vec<DocumentTerm>)
    ensures
        terms_of(tokens@, sentences@, term_views(r@)),
{
    let mut groups: Vec<(Vec<char>, Vec<DocumentMention>)> = Vec::new();
    let mut k: usize = 0;
    while k < tokens.len()
        invariant
            k <= tokens@.len(),
            groups_of(groups@) == term_groups(tokens@, sentences@, k as int),
        decreases tokens@.len() - k,
    {
        if tokens[k].kind == TokenKind::Word {
            let key = normalize_document_term(tokens[k].text.as_str());
            if is_document_term_candidate(key.as_slice()) {
                let m = mention_for(tokens, sentences, k);
                insert_mention(&mut groups, key, m);
            }
        }
        k = k + 1;
    }
    proof {
        lemma_term_groups_distinct(tokens@, sentences@, tokens@.len() as int);
    }
    let ghost raw = groups_of(groups@);
    let sorted = sort_groups(groups);
    let ghost sv = groups_of(sorted@);
    let mut sorted = sorted;
    let mut out: Vec<DocumentTerm> = Vec::new();
    let n = sorted.len();
    let mut i: usize = 0;
    while sorted.len() > 0
        invariant
            n == sv.len(),
            i + sorted@.len() == n,
            groups_of(sorted@) == sv.subrange(i as int, n as int),
            term_views(out@) == sv.take(i as int).map_values(|g: (Seq<char>, Seq<DocumentMention>)| term_of(g)),
        decreases sorted@.len(),
    {
        let (key, mut ms) = sorted.remove(0);
        assert((key@, ms@) == sv[i as int]);
        let freq = ms.len();
        let first_span = if ms.len() > 0 { ms[0].span } else { Span::new(0, 0) };
        flag_first_exec(&mut ms);
        let t = DocumentTerm {
            canonical: string_from_chars(key.as_slice(), 0, key.len()),
            first_span,
            frequency: freq,
            mentions: ms,
        };
        assert(key@.subrange(0, key@.len() as int) =~= key@);
        let ghost o = term_views(out@);
        out.push(t);
        proof {
            assert(term_views(out@) =~= o.push(t@));
            assert(sv.take(i as int + 1) =~= sv.take(i as int).push(sv[i as int]));
            assert(groups_of(sorted@) =~= sv.subrange(i as int + 1, n as int));
        }
        i = i + 1;
    }
    assert(sv.take(n as int) =~= sv);
    out
}

/// The letters of `s`, in order.
pub open spec fn letters_of(s: Seq<char>) -> Seq<char>
    decreases s.len(),
{
    if s.len() == 0 {
        Seq::empty()
    } else if unicode_alphabetic(s.last()) {
        letters_of(s.drop_last()).push(s.last())
    } else {
        letters_of(s.drop_last())
    }
}

/// The uppercase mapping of every character, concatenated.
pub open spec fn upper_seq(s: Seq<char>) -> Seq<char>
    decreases s.len(),
{
    if s.len() == 0 {
        Seq::empty()
    } else {
        upper_seq(s.drop_last()) + unicode_to_upper(s.last())
    }
}

/// The uppercased letters of a word of 2 to 10 letters none of which is
/// lowercase.
pub open spec fn spec_normalize_abbreviation(s: Seq<char>) -> Option<Seq<char>> {
    let c = letters_of(s);
    if 2 <= c.len() <= 10 && !(exists|i: int| 0 <= i < c.len() && unicode_lowercase(#[trigger] c[i])) {
        Some(upper_seq(c))
    } else {
        None
    }
}

fn letters_exec(s: &[char]) -> (r: Vec<char>)
    ensures
        r@ == letters_of(s@),
{
    let mut cleaned: Vec<char> = Vec::new();
    let mut i: usize = 0;
    while i < s.len()
        invariant
            i <= s@.len(),
            cleaned@ == letters_of(s@.take(i as int)),
        decreases s@.len() - i,
    {
        assert(s@.take(i as int + 1).drop_last() =~= s@.take(i as int));
        if is_alphabetic(s[i]) {
            cleaned.push(s[i]);
        }
        i = i + 1;
    }
    assert(s@.take(s@.len() as int) =~= s@);
    cleaned
}

fn any_lowercase(v: &[char]) -> (r: bool)
    ensures
        r == exists|i: int| 0 <= i < v@.len() && unicode_lowercase(#[trigger] v@[i]),
{
    let mut j: usize = 0;
    while j < v.len()
        invariant
            j <= v@.len(),
            forall|m: int| 0 <= m < j ==> !unicode_lowercase(#[trigger] v@[m]),
        decreases v@.len() - j,
    {
        if is_lowercase(v[j]) {
            return true;
        }
        j = j + 1;
    }
    false
}

fn upper_exec(v: &[char]) -> (r: Vec<char>)
    ensures
        r@ == upper_seq(v@),
{
    let mut up: Vec<char> = Vec::new();
    let mut k: usize = 0;
    while k < v.len()
        invariant
            k <= v@.len(),
            up@ == upper_seq(v@.take(k as int)),
        decreases v@.len() - k,
    {
        assert(v@.take(k as int + 1).drop_last() =~= v@.take(k as int));
        let u = to_upper_chars(v[k]);
        append_chars(&mut up, &u);
        k = k + 1;
    }
    assert(v@.take(v@.len() as int) =~= v@);
    up
}

pub fn normalize_abbreviation(value: &str) -> (r: Option<Vec<char>>)
    ensures
        r is None ==> spec_normalize_abbreviation(value@) is None,
        r matches Some(v) ==> spec_normalize_abbreviation(value@) == Some(v@),
{
    let s = str_chars(value);
    let cleaned = letters_exec(s.as_slice());
    if cleaned.len() < 2 || cleaned.len() > 10 {
        return None;
    }
    if any_lowercase(cleaned.as_slice()) {
        return None;
    }
    Some(upper_exec(cleaned.as_slice()))
}

/// Abbreviation mentions of the first `k` tokens, grouped by their
/// normalized form.
pub open spec fn abbreviation_groups(toks: Seq<Token>, sents: Seq<SentenceSpan>, k: int) -> Seq<(Seq<char>, Seq<DocumentMention>)>
    decreases k,
{
    if k <= 0 || k > toks.len() {
        Seq::empty()
    } else {
        let prev = abbreviation_groups(toks, sents, k - 1);
        let t = toks[k - 1];
        if t.kind == TokenKind::Word {
            match spec_normalize_abbreviation(t.text@) {
                Some(key) => group_insert(prev, key, mention_of(toks, sents, k - 1)),
                None => prev,
            }
        } else {
            prev
        }
    }
}

pub open spec fn abbreviation_key(t: Token) -> Option<Seq<char>> {
    if t.kind == TokenKind::Word {
        spec_normalize_abbreviation(t.text@)
    } else {
        None
    }
}

/// Token `k` is the first with its abbreviation form.
pub open spec fn first_of_abbreviation(toks: Seq<Token>, k: int) -> bool {
    &&& 0 <= k < toks.len()
    &&& abbreviation_key(toks[k]) is Some
    &&& forall|j: int| 0 <= j < k ==> abbreviation_key(#[trigger] toks[j]) != abbreviation_key(toks[k])
}

/// Byte `b` starts a character of `s`, or is its end.
pub open spec fn is_char_boundary(s: Seq<char>, b: int) -> bool {
    exists|i: int| 0 <= i <= s.len() && byte_offset(s, i) == b
}

/// Every first mention of an abbreviation starts at a character boundary of
/// the text, so that the text before it can be read.
pub open spec fn abbreviation_starts_ok(s: Seq<char>, toks: Seq<Token>) -> bool {
    forall|k: int| #[trigger] first_of_abbreviation(toks, k) ==> is_char_boundary(s, toks[k].span.start as int)
}

pub open spec fn groups_first_ok(toks: Seq<Token>, sents: Seq<SentenceSpan>, groups: Seq<(Seq<char>, Seq<DocumentMention>)>) -> bool {
    forall|g: int|
        0 <= g < groups.len() ==> (#[trigger] groups[g]).1.len() > 0 && first_of_abbreviation(
            toks,
            groups[g].1[0].token_index as int,
        ) && groups[g].1[0] == mention_of(toks, sents, groups[g].1[0].token_index as int)
}

pub proof fn lemma_abbreviation_groups(toks: Seq<Token>, sents: Seq<SentenceSpan>, k: int)
    requires
        0 <= k <= toks.len(),
        toks.len() <= usize::MAX,
    ensures
        keys_distinct(abbreviation_groups(toks, sents, k)),
        groups_first_ok(toks, sents, abbreviation_groups(toks, sents, k)),
        forall|j: int|
            0 <= j < k && (#[trigger] abbreviation_key(toks[j])) is Some ==> group_index(
                abbreviation_groups(toks, sents, k),
                abbreviation_key(toks[j]).unwrap(),
                0,
            ) is Some,
        forall|g: int|
            0 <= g < abbreviation_groups(toks, sents, k).len() ==> Some((#[trigger] abbreviation_groups(toks, sents, k)[g]).0)
                == abbreviation_key(toks[abbreviation_groups(toks, sents, k)[g].1[0].token_index as int]),
    decreases k,
{
    if k > 0 {
        lemma_abbreviation_groups(toks, sents, k - 1);
        let prev = abbreviation_groups(toks, sents, k - 1);
        let cur = abbreviation_groups(toks, sents, k);
        let t = toks[k - 1];
        match abbreviation_key(t) {
            None => {
                assert(cur == prev);
            },
            Some(key) => {
                let m = mention_of(toks, sents, k - 1);
                assert(cur == group_insert(prev, key, m));
                lemma_group_insert_distinct(prev, key, m);
                lemma_group_index(prev, key, 0);
                match group_index(prev, key, 0) {
                    Some(g) => {
                        assert(cur == prev.update(g, (key, prev[g].1.push(m))));
                        assert forall|h: int| 0 <= h < cur.len() implies (#[trigger] cur[h]).1.len() > 0 && cur[h].1[0]
                            == prev[h].1[0] && cur[h].0 == prev[h].0 by {
                            if h == g {
                                assert(prev[g].1.push(m)[0] == prev[g].1[0]);
                            }
                        }
                        assert(groups_first_ok(toks, sents, cur)) by {
                            assert forall|h: int| 0 <= h < cur.len() implies (#[trigger] cur[h]).1.len() > 0 && first_of_abbreviation(
                                toks,
                                cur[h].1[0].token_index as int,
                            ) && cur[h].1[0] == mention_of(toks, sents, cur[h].1[0].token_index as int) by {
                                assert(prev[h].1.len() > 0);
                            }
                        }
                        assert forall|h: int| 0 <= h < cur.len() implies Some((#[trigger] cur[h]).0) == abbreviation_key(
                            toks[cur[h].1[0].token_index as int],
                        ) by {
                            assert(Some(prev[h].0) == abbreviation_key(toks[prev[h].1[0].token_index as int]));
                        }
                    },
                    None => {
                        assert(cur == prev.push((key, seq![m])));
                        assert(first_of_abbreviation(toks, k - 1)) by {
                            assert forall|j: int| 0 <= j < k - 1 implies abbreviation_key(#[trigger] toks[j]) != abbreviation_key(
                                toks[k - 1],
                            ) by {
                                if abbreviation_key(toks[j]) == abbreviation_key(toks[k - 1]) {
                                    assert(group_index(prev, key, 0) is Some);
                                }
                            }
                        }
                        assert(groups_first_ok(toks, sents, cur)) by {
                            assert forall|h: int| 0 <= h < cur.len() implies (#[trigger] cur[h]).1.len() > 0 && first_of_abbreviation(
                                toks,
                                cur[h].1[0].token_index as int,
                            ) && cur[h].1[0] == mention_of(toks, sents, cur[h].1[0].token_index as int) by {
                                if h < prev.len() {
                                    assert(cur[h] == prev[h]);
                                } else {
                                    assert(cur[h].1[0] == m);
                                    assert(m.token_index as int == k - 1);
                                }
                            }
                        }
                        assert forall|h: int| 0 <= h < cur.len() implies Some((#[trigger] cur[h]).0) == abbreviation_key(
                            toks[cur[h].1[0].token_index as int],
                        ) by {
                            if h < prev.len() {
                                assert(cur[h] == prev[h]);
                            } else {
                                assert(cur[h].1[0] == m);
                            }
                        }
                    },
                }
                assert forall|j: int| 0 <= j < k && (#[trigger] abbreviation_key(toks[j])) is Some implies group_index(
                    cur,
                    abbreviation_key(toks[j]).unwrap(),
                    0,
                ) is Some by {
                    let kj = abbreviation_key(toks[j]).unwrap();
                    lemma_group_index(cur, kj, 0);
                    if j < k - 1 {
                        lemma_group_index(prev, kj, 0);
                        let gj = group_index(prev, kj, 0).unwrap();
                        assert(cur[gj].0 == prev[gj].0);
                    } else {
                        match group_index(prev, key, 0) {
                            Some(g) => {
                                assert(cur[g].0 == kj);
                            },
                            None => {
                                assert(cur[prev.len() as int].0 == kj);
                            },
                        }
                    }
                }
            },
        }
    }
}

/// Index of the last `c` before index `i`.
pub open spec fn last_index_of(s: Seq<char>, c: char, i: int) -> Option<int>
    decreases i,
{
    if i <= 0 || i > s.len() {
        None
    } else if s[i - 1] == c {
        Some(i - 1)
    } else {
        last_index_of(s, c, i - 1)
    }
}

pub open spec fn is_context_boundary(c: char) -> bool {
    c == '.' || c == '!' || c == '?' || c == '\n'
}

/// Index of the last sentence-ending character or line feed before `i`.
pub open spec fn last_context_boundary(s: Seq<char>, i: int) -> Option<int>
    decreases i,
{
    if i <= 0 || i > s.len() {
        None
    } else if is_context_boundary(s[i - 1]) {
        Some(i - 1)
    } else {
        last_context_boundary(s, i - 1)
    }
}

pub open spec fn is_edge_punct(c: char) -> bool {
    c == ':' || c == ';' || c == ',' || c == '\u{2014}' || c == '-'
}

pub open spec fn trim_punct_start(v: Seq<char>) -> Seq<char>
    decreases v.len(),
{
    if v.len() > 0 && is_edge_punct(v[0]) {
        trim_punct_start(v.drop_first())
    } else {
        v
    }
}

pub open spec fn trim_punct_end(v: Seq<char>) -> Seq<char>
    decreases v.len(),
{
    if v.len() > 0 && is_edge_punct(v.last()) {
        trim_punct_end(v.drop_last())
    } else {
        v
    }
}

/// The words right before the parenthesis that opens the abbreviation at
/// character `ci`: back to the last sentence end or line break, trimmed of
/// white space and of `:;,—-` at both ends, when at least six characters
/// remain and the parenthesis is still open.
pub open spec fn spec_expansion(s: Seq<char>, ci: int) -> Option<Seq<char>> {
    match last_index_of(s, '(', ci) {
        None => None,
        Some(open) => if exists|m: int| open <= m < ci && s[m] == ')' {
            None
        } else {
            let before = trim_end_seq(s.subrange(0, open));
            let st = match last_context_boundary(before, before.len() as int) {
                Some(j) => j + 1,
                None => 0,
            };
            let cand = trim_seq(trim_punct_end(trim_punct_start(trim_seq(before.subrange(st, before.len() as int)))));
            if cand.len() >= 6 {
                Some(cand)
            } else {
                None
            }
        },
    }
}

pub proof fn lemma_last_index(s: Seq<char>, c: char, i: int)
    ensures
        last_index_of(s, c, i) matches Some(j) ==> 0 <= j < i <= s.len() && s[j] == c,
    decreases i,
{
    if 0 < i <= s.len() && s[i - 1] != c {
        lemma_last_index(s, c, i - 1);
    }
}

pub proof fn lemma_last_boundary(s: Seq<char>, i: int)
    ensures
        last_context_boundary(s, i) matches Some(j) ==> 0 <= j < i <= s.len(),
    decreases i,
{
    if 0 < i <= s.len() && !is_context_boundary(s[i - 1]) {
        lemma_last_boundary(s, i - 1);
    }
}

/// Bounds of `v[a..b]` trimmed of edge punctuation at both ends.
fn trim_punct_bounds(v: &[char], a: usize, b: usize) -> (r: (usize, usize))
    requires
        a <= b <= v@.len(),
    ensures
        a <= r.0 <= r.1 <= b,
        v@.subrange(r.0 as int, r.1 as int) == trim_punct_end(trim_punct_start(v@.subrange(a as int, b as int))),
{
    let mut x = a;
    while x < b && (v[x] == ':' || v[x] == ';' || v[x] == ',' || v[x] == '\u{2014}' || v[x] == '-')
        invariant
            a <= x <= b <= v@.len(),
            trim_punct_start(v@.subrange(a as int, b as int)) == trim_punct_start(v@.subrange(x as int, b as int)),
        decreases b - x,
    {
        assert(v@.subrange(x as int, b as int).drop_first() =~= v@.subrange(x as int + 1, b as int));
        x = x + 1;
    }
    let mut y = b;
    while y > x && (v[y - 1] == ':' || v[y - 1] == ';' || v[y - 1] == ',' || v[y - 1] == '\u{2014}' || v[y - 1] == '-')
        invariant
            a <= x <= y <= b <= v@.len(),
            trim_punct_end(v@.subrange(x as int, b as int)) == trim_punct_end(v@.subrange(x as int, y as int)),
        decreases y,
    {
        assert(v@.subrange(x as int, y as int).drop_last() =~= v@.subrange(x as int, y as int - 1));
        y = y - 1;
    }
    (x, y)
}

/// The expansion written before the parenthesis that holds the
/// abbreviation starting at character `ci`.
pub fn expansion_before_parenthetical_abbreviation(v: &[char], ci: usize) -> (r: Option<String>)
    requires
        ci <= v@.len(),
    ensures
        match r {
            Some(x) => spec_expansion(v@, ci as int) == Some(x@),
            None => spec_expansion(v@, ci as int) is None,
        },
{
    let ghost s = v@;
    let mut o = ci;
    while o > 0 && v[o - 1] != '('
        invariant
            s == v@,
            o <= ci <= v@.len(),
            last_index_of(s, '(', ci as int) == last_index_of(s, '(', o as int),
        decreases o,
    {
        o = o - 1;
    }
    if o == 0 {
        return None;
    }
    let open = o - 1;
    assert(last_index_of(s, '(', ci as int) == Some(open as int));
    let mut m = open;
    while m < ci
        invariant
            s == v@,
            last_index_of(s, '(', ci as int) == Some(open as int),
            open <= m <= ci <= v@.len(),
            forall|j: int| open <= j < m ==> s[j] != ')',
        decreases ci - m,
    {
        if v[m] == ')' {
            assert(s[m as int] == ')');
            return None;
        }
        m = m + 1;
    }
    let be = trim_end_bound(v, 0, open);
    let ghost before = s.subrange(0, be as int);
    assert(before == trim_end_seq(s.subrange(0, open as int)));
    let mut q = be;
    while q > 0 && !(v[q - 1] == '.' || v[q - 1] == '!' || v[q - 1] == '?' || v[q - 1] == '\n')
        invariant
            s == v@,
            q <= be <= open < v@.len(),
            before == s.subrange(0, be as int),
            last_context_boundary(before, be as int) == last_context_boundary(before, q as int),
        decreases q,
    {
        q = q - 1;
    }
    let st = q;
    proof {
        assert(before.subrange(st as int, be as int) =~= s.subrange(st as int, be as int));
    }
    let (a1, b1) = trim_bounds(v, st, be);
    let (a2, b2) = trim_punct_bounds(v, a1, b1);
    let (a3, b3) = trim_bounds(v, a2, b2);
    if b3 - a3 >= 6 {
        Some(string_from_chars(v, a3, b3))
    } else {
        None
    }
}

/// A repeated abbreviation with its mentions and, when one is written
/// before its first parenthesized mention, its expansion.
#[derive(Debug, Clone, PartialEq, Eq)]
pub struct DocumentAbbreviation {
    pub short: String,
    pub expansion: Option<String>,
    pub first_span: Span,
    pub frequency: usize,
    pub mentions: Vec<DocumentMention>,
}

pub struct AbbreviationView {
    pub short: Seq<char>,
    pub expansion: Option<Seq<char>>,
    pub first_span: Span,
    pub frequency: usize,
    pub mentions: Seq<DocumentMention>,
}

impl View for DocumentAbbreviation {
    type V = AbbreviationView;

    open spec fn view(&self) -> AbbreviationView {
        AbbreviationView {
            short: self.short@,
            expansion: match self.expansion {
                Some(x) => Some(x@),
                None => None,
            },
            first_span: self.first_span,
            frequency: self.frequency,
            mentions: self.mentions@,
        }
    }
}

pub open spec fn abbreviation_views(v: Seq<DocumentAbbreviation>) -> Seq<AbbreviationView> {
    v.map_values(|a: DocumentAbbreviation| a@)
}

/// The character index at byte `b` of `s`.
pub open spec fn char_index_at(s: Seq<char>, b: int) -> int {
    choose|i: int| 0 <= i <= s.len() && byte_offset(s, i) == b
}

pub open spec fn abbreviation_of(s: Seq<char>, g: (Seq<char>, Seq<DocumentMention>)) -> AbbreviationView {
    AbbreviationView {
        short: g.0,
        expansion: spec_expansion(s, char_index_at(s, first_span_of(g.1).start as int)),
        first_span: first_span_of(g.1),
        frequency: g.1.len() as usize,
        mentions: flag_first(g.1),
    }
}

/// The abbreviations of a document are its abbreviation groups sorted by
/// falling frequency, then first mention, then form.
pub open spec fn abbreviations_of(s: Seq<char>, toks: Seq<Token>, sents: Seq<SentenceSpan>, v: Seq<AbbreviationView>) -> bool {
    exists|sorted: Seq<(Seq<char>, Seq<DocumentMention>)>|
        #[trigger] sorted.to_multiset() == abbreviation_groups(toks, sents, toks.len() as int).to_multiset()
            && groups_sorted(sorted) && v == sorted.map_values(|g: (Seq<char>, Seq<DocumentMention>)| abbreviation_of(s, g))
}

pub proof fn lemma_multiset_member<A>(a: Seq<A>, b: Seq<A>, x: A)
    requires
        a.to_multiset() == b.to_multiset(),
        a.contains(x),
    ensures
        b.contains(x),
{
    vstd::seq_lib::to_multiset_contains(a, x);
    vstd::seq_lib::to_multiset_contains(b, x);
}

/// Words of two to ten letters none of which is lowercase, grouped by their
/// uppercase form.
pub fn document_abbreviations(text: &str, tokens: &[Token], sentences: &[SentenceSpan]) -> (r: Vec<DocumentAbbreviation>)
    requires
        abbreviation_starts_ok(text@, tokens@),
    ensures
        abbreviations_of(text@, tokens@, sentences@, abbreviation_views(r@)),
{
    let ghost s = text@;
    let offs = CharOffsets::new(text);
    let mut groups: Vec<(Vec<char>, Vec<DocumentMention>)> = Vec::new();
    let mut k: usize = 0;
    while k < tokens.len()
        invariant
            k <= tokens@.len(),
            groups_of(groups@) == abbreviation_groups(tokens@, sentences@, k as int),
        decreases tokens@.len() - k,
    {
        if tokens[k].kind == TokenKind::Word {
            match normalize_abbreviation(tokens[k].text.as_str()) {
                Some(key) => {
                    let m = mention_for(tokens, sentences, k);
                    insert_mention(&mut groups, key, m);
                },
                None => {},
            }
        }
        k = k + 1;
    }
    let ghost raw = groups_of(groups@);
    proof {
        lemma_abbreviation_groups(tokens@, sentences@, tokens@.len() as int);
    }
    let sorted = sort_groups(groups);
    let ghost sv = groups_of(sorted@);
    proof {
        assert forall|g: int| 0 <= g < sv.len() implies (#[trigger] sv[g]).1.len() > 0 && is_char_boundary(
            s,
            sv[g].1[0].span.start as int,
        ) by {
            assert(sv.contains(sv[g]));
            lemma_multiset_member(sv, raw, sv[g]);
            let h = choose|h: int| 0 <= h < raw.len() && raw[h] == sv[g];
            assert(raw[h] == sv[g]);
            let t = raw[h].1[0].token_index as int;
            assert(first_of_abbreviation(tokens@, t));
        }
    }
    let mut sorted = sorted;
    let mut out: Vec<DocumentAbbreviation> = Vec::new();
    let n = sorted.len();
    let mut i: usize = 0;
    while sorted.len() > 0
        invariant
            offs.wf_for(s),
            n == sv.len(),
            i + sorted@.len() == n,
            groups_of(sorted@) == sv.subrange(i as int, n as int),
            forall|g: int| 0 <= g < sv.len() ==> (#[trigger] sv[g]).1.len() > 0 && is_char_boundary(s, sv[g].1[0].span.start as int),
            abbreviation_views(out@) == sv.take(i as int).map_values(
                |g: (Seq<char>, Seq<DocumentMention>)| abbreviation_of(s, g),
            ),
        decreases sorted@.len(),
    {
        let (key, mut ms) = sorted.remove(0);
        assert((key@, ms@) == sv[i as int]);
        let freq = ms.len();
        let first_span = ms[0].span;
        let ci = match offs.boundary_index(Ghost(s), first_span.start) {
            Some(c) => c,
            None => {
                proof {
                    let w = choose|w: int| 0 <= w <= s.len() && byte_offset(s, w) == first_span.start;
                    assert(byte_offset(s, w) == first_span.start);
                }
                0
            },
        };
        proof {
            crate::unicode::lemma_byte_offset_order(s);
            let c0 = char_index_at(s, first_span.start as int);
            assert(0 <= c0 <= s.len() && byte_offset(s, c0) == first_span.start);
            if c0 != ci as int {
                if c0 < ci {
                    assert(byte_offset(s, c0) < byte_offset(s, ci as int));
                } else {
                    assert(byte_offset(s, ci as int) < byte_offset(s, c0));
                }
            }
        }
        let expansion = expansion_before_parenthetical_abbreviation(offs.chars.as_slice(), ci);
        flag_first_exec(&mut ms);
        let a = DocumentAbbreviation {
            short: string_from_chars(key.as_slice(), 0, key.len()),
            expansion,
            first_span,
            frequency: freq,
            mentions: ms,
        };
        assert(key@.subrange(0, key@.len() as int) =~= key@);
        let ghost o = abbreviation_views(out@);
        out.push(a);
        proof {
            assert(abbreviation_views(out@) =~= o.push(a@));
            assert(sv.take(i as int + 1) =~= sv.take(i as int).push(sv[i as int]));
            assert(groups_of(sorted@) =~= sv.subrange(i as int + 1, n as int));
        }
        i = i + 1;
    }
    assert(sv.take(n as int) =~= sv);
    out
}

} // verus!
