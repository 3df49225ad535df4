use vstd::prelude::*;
use crate::text::{fold_yo_seq, lower_seq, morph_lookup_key, Span, Token, TokenKind};
use crate::unicode::{chars_eq_str, str_chars};

verus! {

broadcast use vstd::seq_lib::group_seq_properties;

/// The lookup key of a token: lowercased with `ё` folded to `е`.
pub open spec fn key_of(t: Token) -> Seq<char> {
    fold_yo_seq(lower_seq(t.text@))
}

pub open spec fn triple_is(c: Seq<char>, a: Seq<char>, b: Seq<char>, x: &str, y: &str, z: &str) -> bool {
    c == x@ && a == y@ && b == z@
}

/// Fixed `и X и Y` / `ни X ни Y` expressions, which take no comma between
/// their halves (in lookup-key form).
pub open spec fn spec_phraseological_pair(c: Seq<char>, a: Seq<char>, b: Seq<char>) -> bool {
    ||| triple_is(c, a, b, "и", "так", "сяк")
    ||| triple_is(c, a, b, "и", "так", "эдак")
    ||| triple_is(c, a, b, "и", "так", "этак")
    ||| triple_is(c, a, b, "и", "день", "ночь")
    ||| triple_is(c, a, b, "и", "стар", "млад")
    ||| triple_is(c, a, b, "и", "смех", "грех")
    ||| triple_is(c, a, b, "и", "смех", "горе")
    ||| triple_is(c, a, b, "и", "холод", "голод")
    ||| triple_is(c, a, b, "и", "туда", "сюда")
    ||| triple_is(c, a, b, "ни", "слуху", "духу")
    ||| triple_is(c, a, b, "ни", "свет", "заря")
    ||| triple_is(c, a, b, "ни", "рыба", "мясо")
    ||| triple_is(c, a, b, "ни", "ответа", "привета")
    ||| triple_is(c, a, b, "ни", "конца", "края")
    ||| triple_is(c, a, b, "ни", "конца", "краю")
    ||| triple_is(c, a, b, "ни", "да", "нет")
    ||| triple_is(c, a, b, "ни", "дать", "взять")
    ||| triple_is(c, a, b, "ни", "себе", "людям")
    ||| triple_is(c, a, b, "ни", "жив", "мертв")
    ||| triple_is(c, a, b, "ни", "взад", "вперед")
    ||| triple_is(c, a, b, "ни", "сном", "духом")
    ||| triple_is(c, a, b, "ни", "пуха", "пера")
    ||| triple_is(c, a, b, "ни", "много", "мало")
    ||| triple_is(c, a, b, "ни", "больше", "меньше")
    ||| triple_is(c, a, b, "ни", "тпру", "ну")
    ||| triple_is(c, a, b, "ни", "встать", "сесть")
    ||| triple_is(c, a, b, "ни", "туда", "сюда")
}

fn triple_matches(c: &[char], a: &[char], b: &[char], x: &str, y: &str, z: &str) -> (r: bool)
    ensures
        r == triple_is(c@, a@, b@, x, y, z),
{
    chars_eq_str(c, x) && chars_eq_str(a, y) && chars_eq_str(b, z)
}

fn is_phraseological_repeated_pair(c: &[char], a: &[char], b: &[char]) -> (r: bool)
    ensures
        r == spec_phraseological_pair(c@, a@, b@),
{
    triple_matches(c, a, b, "и", "так", "сяк") || triple_matches(c, a, b, "и", "так", "эдак")
        || triple_matches(c, a, b, "и", "так", "этак") || triple_matches(c, a, b, "и", "день", "ночь")
        || triple_matches(c, a, b, "и", "стар", "млад") || triple_matches(c, a, b, "и", "смех", "грех")
        || triple_matches(c, a, b, "и", "смех", "горе") || triple_matches(c, a, b, "и", "холод", "голод")
        || triple_matches(c, a, b, "и", "туда", "сюда") || triple_matches(c, a, b, "ни", "слуху", "духу")
        || triple_matches(c, a, b, "ни", "свет", "заря") || triple_matches(c, a, b, "ни", "рыба", "мясо")
        || triple_matches(c, a, b, "ни", "ответа", "привета") || triple_matches(c, a, b, "ни", "конца", "края")
        || triple_matches(c, a, b, "ни", "конца", "краю") || triple_matches(c, a, b, "ни", "да", "нет")
        || triple_matches(c, a, b, "ни", "дать", "взять") || triple_matches(c, a, b, "ни", "себе", "людям")
        || triple_matches(c, a, b, "ни", "жив", "мертв") || triple_matches(c, a, b, "ни", "взад", "вперед")
        || triple_matches(c, a, b, "ни", "сном", "духом") || triple_matches(c, a, b, "ни", "пуха", "пера")
        || triple_matches(c, a, b, "ни", "много", "мало") || triple_matches(c, a, b, "ни", "больше", "меньше")
        || triple_matches(c, a, b, "ни", "тпру", "ну") || triple_matches(c, a, b, "ни", "встать", "сесть")
        || triple_matches(c, a, b, "ни", "туда", "сюда")
}

/// A comma wrongly written inside a phraseological repeated-conjunction pair.
#[derive(Debug, Clone, Copy, PartialEq, Eq, Structural)]
pub struct PhraseologicalPairComma {
    /// Token index of the offending comma.
    pub comma_token_index: usize,
    /// Span of the comma itself.
    pub comma_span: Span,
    /// Span of the whole `и X, и Y` expression.
    pub pair_span: Span,
}

/// Indices of the tokens before `k` that are not white space.
pub open spec fn significant(toks: Seq<Token>, k: int) -> Seq<int>
    decreases k,
{
    if k <= 0 || k > toks.len() {
        Seq::empty()
    } else if toks[k - 1].kind != TokenKind::Whitespace {
        significant(toks, k - 1).push(k - 1)
    } else {
        significant(toks, k - 1)
    }
}

/// The five significant tokens from position `w` read `conj X , conj Y`
/// with a known pair.
pub open spec fn pair_window(toks: Seq<Token>, sig: Seq<int>, w: int) -> bool {
    &&& 0 <= w && w + 4 < sig.len()
    &&& toks[sig[w]].kind == TokenKind::Word
    &&& toks[sig[w + 2]].kind == TokenKind::Punctuation
    &&& toks[sig[w + 2]].text@ == ","@
    &&& key_of(toks[sig[w + 3]]) == key_of(toks[sig[w]])
    &&& toks[sig[w + 1]].kind == TokenKind::Word
    &&& toks[sig[w + 4]].kind == TokenKind::Word
    &&& spec_phraseological_pair(key_of(toks[sig[w]]), key_of(toks[sig[w + 1]]), key_of(toks[sig[w + 4]]))
}

pub open spec fn pair_comma_at(toks: Seq<Token>, sig: Seq<int>, w: int) -> PhraseologicalPairComma {
    PhraseologicalPairComma {
        comma_token_index: sig[w + 2] as usize,
        comma_span: toks[sig[w + 2]].span,
        pair_span: Span { start: toks[sig[w]].span.start, end: toks[sig[w + 4]].span.end },
    }
}

/// The pair commas of the windows that start before `k`.
pub open spec fn spec_pair_commas(toks: Seq<Token>, sig: Seq<int>, k: int) -> Seq<PhraseologicalPairComma>
    decreases k,
{
    if k <= 0 {
        Seq::empty()
    } else if pair_window(toks, sig, k - 1) {
        spec_pair_commas(toks, sig, k - 1).push(pair_comma_at(toks, sig, k - 1))
    } else {
        spec_pair_commas(toks, sig, k - 1)
    }
}

pub proof fn lemma_significant_bounds(toks: Seq<Token>, k: int)
    ensures
        forall|i: int| 0 <= i < significant(toks, k).len() ==> 0 <= #[trigger] significant(toks, k)[i] < toks.len(),
        k >= 0 ==> significant(toks, k).len() <= k,
        significant(toks, k).len() <= toks.len(),
    decreases k,
{
    if k > 0 && k <= toks.len() {
        lemma_significant_bounds(toks, k - 1);
    }
}

fn key_chars(t: &Token) -> (r: Vec<char>)
    ensures
        r@ == key_of(*t),
{
    let k = morph_lookup_key(t.text.as_str());
    str_chars(k.as_str())
}

/// Finds commas inside known `и X, и Y` / `ни X, ни Y` phraseological pairs.
pub fn phraseological_pair_commas(tokens: &[Token]) -> (r: Vec<PhraseologicalPairComma>)
    ensures
        r@ == spec_pair_commas(
            tokens@,
            significant(tokens@, tokens@.len() as int),
            significant(tokens@, tokens@.len() as int).len() as int,
        ),
{
    let ghost toks = tokens@;
    let mut sig: Vec<usize> = Vec::new();
    let mut i: usize = 0;
    while i < tokens.len()
        invariant
            toks == tokens@,
            i <= toks.len(),
            sig@.map_values(|x: usize| x as int) == significant(toks, i as int),
        decreases toks.len() - i,
    {
        if tokens[i].kind != TokenKind::Whitespace {
            sig.push(i);
        }
        proof {
            assert(sig@.map_values(|x: usize| x as int) =~= significant(toks, i as int + 1));
        }
        i = i + 1;
    }
    let ghost gs = significant(toks, toks.len() as int);
    proof {
        lemma_significant_bounds(toks, toks.len() as int);
    }
    let mut out: Vec<PhraseologicalPairComma> = Vec::new();
    let mut w: usize = 0;
    while w < sig.len()
        invariant
            toks == tokens@,
            gs == significant(toks, toks.len() as int),
            sig@.map_values(|x: usize| x as int) == gs,
            forall|j: int| 0 <= j < gs.len() ==> 0 <= #[trigger] gs[j] < toks.len(),
            w <= sig@.len(),
            out@ == spec_pair_commas(toks, gs, w as int),
        decreases sig@.len() - w,
    {
        if sig.len() - w > 4 {
            proof {
                assert(gs[w as int] == sig@[w as int] as int);
                assert(gs[w as int + 1] == sig@[w as int + 1] as int);
                assert(gs[w as int + 2] == sig@[w as int + 2] as int);
                assert(gs[w as int + 3] == sig@[w as int + 3] as int);
                assert(gs[w as int + 4] == sig@[w as int + 4] as int);
            }
            let c1 = &tokens[sig[w]];
            let first = &tokens[sig[w + 1]];
            let comma = &tokens[sig[w + 2]];
            let c2 = &tokens[sig[w + 3]];
            let second = &tokens[sig[w + 4]];
            if c1.kind == TokenKind::Word && comma.kind == TokenKind::Punctuation && chars_eq_str(
                str_chars(comma.text.as_str()).as_slice(),
                ",",
            ) {
                let k1 = key_chars(c1);
                let k2 = key_chars(c2);
                if crate::unicode::chars_eq(k1.as_slice(), k2.as_slice()) && first.kind == TokenKind::Word
                    && second.kind == TokenKind::Word {
                    let kf = key_chars(first);
                    let ks = key_chars(second);
                    if is_phraseological_repeated_pair(k1.as_slice(), kf.as_slice(), ks.as_slice()) {
                        out.push(PhraseologicalPairComma {
                            comma_token_index: sig[w + 2],
                            comma_span: comma.span,
                            pair_span: Span::new(c1.span.start, second.span.end),
                        });
                    }
                }
            }
        }
        w = w + 1;
    }
    out
}

} // verus!
