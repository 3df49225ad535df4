use vstd::prelude::*;
use crate::unicode::{
    byte_offset, is_alphabetic, is_ascii_alphabetic, is_ascii_digit, is_ascii_punctuation,
    is_ceil_index, is_floor_index, is_lowercase, is_whitespace, lemma_byte_offset_order,
    spec_is_ascii_alphabetic, spec_is_ascii_digit, spec_is_ascii_punctuation, spec_is_whitespace,
    str_chars, string_from_chars, text_len, to_lower_chars, to_upper_chars, unicode_alphabetic,
    unicode_lowercase, unicode_to_lower, unicode_to_upper, CharOffsets,
};

verus! {

broadcast use vstd::seq_lib::group_seq_properties;

/// A half-open byte range `start..end` of a text.
#[derive(Debug, Clone, Copy, PartialEq, Eq, Structural)]
pub struct Span {
    pub start: usize,
    pub end: usize,
}

impl Span {
    pub fn new(start: usize, end: usize) -> (r: Span)
        ensures
            r.start == start,
            r.end == end,
    {
        Span { start, end }
    }
}

/// A one-based line and column (in characters).
#[derive(Debug, Clone, Copy, PartialEq, Eq, Structural)]
pub struct Position {
    pub line: usize,
    pub column: usize,
}

#[derive(Debug, Clone, Copy, PartialEq, Eq, Structural)]
pub enum TokenKind {
    Word,
    Number,
    Whitespace,
    Punctuation,
    Other,
}

/// A maximal run of characters of one kind, with its byte span.
#[derive(Debug, Clone, PartialEq, Eq)]
pub struct Token {
    pub kind: TokenKind,
    pub text: String,
    pub span: Span,
}

impl Token {
    /// A copy of the token.
    pub fn duplicate(&self) -> (r: Token)
        ensures
            r == *self,
    {
        Token { kind: self.kind, text: self.text.clone(), span: self.span }
    }
}

pub open spec fn spec_is_fullwidth_digit(c: char) -> bool {
    '\u{FF10}' <= c <= '\u{FF19}'
}

pub open spec fn spec_is_word_joiner(c: char) -> bool {
    c == '-' || c == '\u{2011}' || c == '\u{2013}' || c == '\''
}

pub open spec fn spec_is_ru_punctuation(c: char) -> bool {
    ||| c == '\u{AB}'
    ||| c == '\u{BB}'
    ||| c == '\u{2014}'
    ||| c == '\u{2013}'
    ||| c == '\u{2026}'
    ||| c == '\u{201C}'
    ||| c == '\u{201D}'
    ||| c == '\u{201E}'
}

pub open spec fn spec_classify(c: char) -> TokenKind {
    if spec_is_whitespace(c) {
        TokenKind::Whitespace
    } else if spec_is_ascii_digit(c) || spec_is_fullwidth_digit(c) {
        TokenKind::Number
    } else if unicode_alphabetic(c) || spec_is_word_joiner(c) {
        TokenKind::Word
    } else if spec_is_ru_punctuation(c) || spec_is_ascii_punctuation(c) {
        TokenKind::Punctuation
    } else {
        TokenKind::Other
    }
}

pub open spec fn spec_same_group(kind: TokenKind, c: char) -> bool {
    match kind {
        TokenKind::Word => unicode_alphabetic(c) || spec_is_word_joiner(c),
        TokenKind::Number => spec_is_ascii_digit(c) || spec_is_fullwidth_digit(c),
        TokenKind::Whitespace => spec_is_whitespace(c),
        TokenKind::Punctuation => spec_is_ru_punctuation(c) || spec_is_ascii_punctuation(c),
        TokenKind::Other => spec_classify(c) == TokenKind::Other,
    }
}

fn is_word_joiner(c: char) -> (r: bool)
    ensures
        r == spec_is_word_joiner(c),
{
    c == '-' || c == '\u{2011}' || c == '\u{2013}' || c == '\''
}

fn is_ru_punctuation(c: char) -> (r: bool)
    ensures
        r == spec_is_ru_punctuation(c),
{
    c == '\u{AB}' || c == '\u{BB}' || c == '\u{2014}' || c == '\u{2013}' || c == '\u{2026}' || c
        == '\u{201C}' || c == '\u{201D}' || c == '\u{201E}'
}

fn is_fullwidth_digit(c: char) -> (r: bool)
    ensures
        r == spec_is_fullwidth_digit(c),
{
    '\u{FF10}' <= c && c <= '\u{FF19}'
}

fn classify(c: char) -> (k: TokenKind)
    ensures
        k == spec_classify(c),
{
    if is_whitespace(c) {
        TokenKind::Whitespace
    } else if is_ascii_digit(c) || is_fullwidth_digit(c) {
        TokenKind::Number
    } else if is_alphabetic(c) || is_word_joiner(c) {
        TokenKind::Word
    } else if is_ru_punctuation(c) || is_ascii_punctuation(c) {
        TokenKind::Punctuation
    } else {
        TokenKind::Other
    }
}

fn same_group(kind: TokenKind, c: char) -> (r: bool)
    ensures
        r == spec_same_group(kind, c),
{
    match kind {
        TokenKind::Word => is_alphabetic(c) || is_word_joiner(c),
        TokenKind::Number => is_ascii_digit(c) || is_fullwidth_digit(c),
        TokenKind::Whitespace => is_whitespace(c),
        TokenKind::Punctuation => is_ru_punctuation(c) || is_ascii_punctuation(c),
        TokenKind::Other => classify(c) == TokenKind::Other,
    }
}

/// Characters `a..b` of `s` form one maximal run of the kind of `s[a]`.
pub open spec fn token_run(s: Seq<char>, a: int, b: int, kind: TokenKind) -> bool {
    &&& 0 <= a < b <= s.len()
    &&& spec_classify(s[a]) == kind
    &&& forall|m: int| a < m < b ==> spec_same_group(kind, #[trigger] s[m])
    &&& b < s.len() ==> !spec_same_group(kind, s[b])
}

/// Token `t` is the run of characters `a..b` of `s`, with its byte span.
pub open spec fn token_matches(s: Seq<char>, t: Token, a: int, b: int) -> bool {
    &&& token_run(s, a, b, t.kind)
    &&& t.text@ == s.subrange(a, b)
    &&& t.span.start == byte_offset(s, a)
    &&& t.span.end == byte_offset(s, b)
}

/// `toks` cuts `s` at the character indices `bounds` into maximal runs.
pub open spec fn is_tokenization(s: Seq<char>, toks: Seq<Token>, bounds: Seq<int>) -> bool {
    &&& bounds.len() == toks.len() + 1
    &&& bounds[0] == 0
    &&& bounds[toks.len() as int] == s.len()
    &&& forall|k: int|
        0 <= k < toks.len() ==> token_matches(s, #[trigger] toks[k], bounds[k], bounds[k + 1])
}

/// Splits the text into maximal runs of words, numbers, white space,
/// punctuation and other characters, each with its byte span.
pub fn tokenize(text: &str) -> (tokens: Vec<Token>)
    ensures
        exists|bounds: Seq<int>| is_tokenization(text@, tokens@, bounds),
{
    let offs = CharOffsets::new(text);
    let ghost s = text@;
    let n = offs.chars.len();
    let mut tokens: Vec<Token> = Vec::new();
    let ghost mut bounds: Seq<int> = seq![0];
    let mut i: usize = 0;
    while i < n
        invariant
            offs.wf_for(s),
            n == s.len(),
            i <= n,
            bounds.len() == tokens@.len() + 1,
            bounds[0] == 0,
            bounds[tokens@.len() as int] == i,
            forall|k: int|
                0 <= k < tokens@.len() ==> token_matches(
                    s,
                    #[trigger] tokens@[k],
                    bounds[k],
                    bounds[k + 1],
                ),
        decreases n - i,
    {
        let kind = classify(offs.chars[i]);
        let mut j = i + 1;
        while j < n && same_group(kind, offs.chars[j])
            invariant
                offs.wf_for(s),
                n == s.len(),
                i < j <= n,
                forall|m: int| i < m < j ==> spec_same_group(kind, #[trigger] s[m]),
            decreases n - j,
        {
            j = j + 1;
        }
        let t = Token {
            kind,
            text: string_from_chars(offs.chars.as_slice(), i, j),
            span: Span { start: offs.starts[i], end: offs.starts[j] },
        };
        proof {
            assert(token_matches(s, t, i as int, j as int));
            bounds = bounds.push(j as int);
        }
        tokens.push(t);
        i = j;
    }
    assert(is_tokenization(s, tokens@, bounds));
    tokens
}


/// The tokens of `toks` whose kind is `kind`, in order.
pub open spec fn tokens_of_kind(toks: Seq<Token>, kind: TokenKind) -> Seq<Token>
    decreases toks.len(),
{
    if toks.len() == 0 {
        Seq::empty()
    } else if toks.last().kind == kind {
        tokens_of_kind(toks.drop_last(), kind).push(toks.last())
    } else {
        tokens_of_kind(toks.drop_last(), kind)
    }
}

/// The word tokens of the text.
pub fn word_tokens(text: &str) -> (words: Vec<Token>)
    ensures
        exists|toks: Seq<Token>, bounds: Seq<int>|
            is_tokenization(text@, toks, bounds) && words@ == tokens_of_kind(
                toks,
                TokenKind::Word,
            ),
{
    let all = tokenize(text);
    let mut words: Vec<Token> = Vec::new();
    let mut i: usize = 0;
    while i < all.len()
        invariant
            i <= all@.len(),
            words@ == tokens_of_kind(all@.take(i as int), TokenKind::Word),
        decreases all@.len() - i,
    {
        assert(all@.take(i as int + 1).drop_last() =~= all@.take(i as int));
        if all[i].kind == TokenKind::Word {
            words.push(all[i].duplicate());
        }
        i = i + 1;
    }
    assert(all@.take(all@.len() as int) =~= all@);
    words
}

/// Index of the last token before `idx` that is not white space.
pub open spec fn spec_previous_non_ws_index(toks: Seq<Token>, idx: int) -> Option<int>
    decreases idx,
{
    if idx <= 0 {
        None
    } else if toks[idx - 1].kind != TokenKind::Whitespace {
        Some(idx - 1)
    } else {
        spec_previous_non_ws_index(toks, idx - 1)
    }
}

/// Index of the first token after `idx` that is not white space.
pub open spec fn spec_next_non_ws_index(toks: Seq<Token>, idx: int) -> Option<int>
    decreases toks.len() - idx,
{
    if idx + 1 >= toks.len() {
        None
    } else if toks[idx + 1].kind != TokenKind::Whitespace {
        Some(idx + 1)
    } else {
        spec_next_non_ws_index(toks, idx + 1)
    }
}

pub fn previous_non_ws_index(tokens: &[Token], idx: usize) -> (r: Option<usize>)
    requires
        idx <= tokens@.len(),
    ensures
        r == (match spec_previous_non_ws_index(tokens@, idx as int) {
            Some(j) => Some(j as usize),
            None => None,
        }),
        r matches Some(j) ==> j < idx,
        spec_previous_non_ws_index(tokens@, idx as int) matches Some(j) ==> 0 <= j < idx,
    decreases idx,
{
    if idx == 0 {
        None
    } else if tokens[idx - 1].kind != TokenKind::Whitespace {
        Some(idx - 1)
    } else {
        previous_non_ws_index(tokens, idx - 1)
    }
}

pub fn next_non_ws_index(tokens: &[Token], idx: usize) -> (r: Option<usize>)
    requires
        idx < tokens@.len(),
    ensures
        r == (match spec_next_non_ws_index(tokens@, idx as int) {
            Some(j) => Some(j as usize),
            None => None,
        }),
        r matches Some(j) ==> idx < j < tokens@.len(),
        spec_next_non_ws_index(tokens@, idx as int) matches Some(j) ==> idx < j < tokens@.len(),
    decreases tokens@.len() - idx,
{
    if idx >= tokens.len() - 1 {
        None
    } else if tokens[idx + 1].kind != TokenKind::Whitespace {
        Some(idx + 1)
    } else {
        next_non_ws_index(tokens, idx + 1)
    }
}

/// The last token before `idx` that is not white space.
pub fn previous_non_ws(tokens: &[Token], idx: usize) -> (r: Option<&Token>)
    requires
        idx <= tokens@.len(),
    ensures
        r == (match spec_previous_non_ws_index(tokens@, idx as int) {
            Some(j) => Some(&tokens@[j]),
            None => None,
        }),
{
    match previous_non_ws_index(tokens, idx) {
        Some(j) => Some(&tokens[j]),
        None => None,
    }
}

/// The first token after `idx` that is not white space.
pub fn next_non_ws(tokens: &[Token], idx: usize) -> (r: Option<&Token>)
    requires
        idx < tokens@.len(),
    ensures
        r == (match spec_next_non_ws_index(tokens@, idx as int) {
            Some(j) => Some(&tokens@[j]),
            None => None,
        }),
{
    match next_non_ws_index(tokens, idx) {
        Some(j) => Some(&tokens[j]),
        None => None,
    }
}

/// The lowercase mapping of every character, concatenated.
pub open spec fn lower_seq(s: Seq<char>) -> Seq<char>
    decreases s.len(),
{
    if s.len() == 0 {
        Seq::empty()
    } else {
        lower_seq(s.drop_last()) + unicode_to_lower(s.last())
    }
}

pub fn append_chars(out: &mut Vec<char>, add: &Vec<char>)
    ensures
        final(out)@ == old(out)@ + add@,
{
    let mut i: usize = 0;
    while i < add.len()
        invariant
            i <= add@.len(),
            out@ == old(out)@ + add@.take(i as int),
        decreases add@.len() - i,
    {
        out.push(add[i]);
        i = i + 1;
    }
    assert(add@.take(add@.len() as int) =~= add@);
}

/// The characters of `s`, lowercased.
pub fn lower_chars(s: &[char]) -> (r: Vec<char>)
    ensures
        r@ == lower_seq(s@),
{
    let mut out: Vec<char> = Vec::new();
    let mut i: usize = 0;
    while i < s.len()
        invariant
            i <= s@.len(),
            out@ == lower_seq(s@.take(i as int)),
        decreases s@.len() - i,
    {
        assert(s@.take(i as int + 1).drop_last() =~= s@.take(i as int));
        let low = to_lower_chars(s[i]);
        append_chars(&mut out, &low);
        i = i + 1;
    }
    assert(s@.take(s@.len() as int) =~= s@);
    out
}

/// The text with every character lowercased.
pub fn lower_ru(s: &str) -> (r: String)
    ensures
        r@ == lower_seq(s@),
{
    let chars = str_chars(s);
    let low = lower_chars(chars.as_slice());
    string_from_chars(low.as_slice(), 0, low.len())
}

/// `c` with `ё` folded to `е`.
pub open spec fn fold_yo_char(c: char) -> char {
    if c == '\u{451}' {
        '\u{435}'
    } else {
        c
    }
}

/// The sequence with every `ё` folded to `е`.
pub open spec fn fold_yo_seq(s: Seq<char>) -> Seq<char> {
    Seq::new(s.len(), |i: int| fold_yo_char(s[i]))
}

fn fold_yo_chars(s: &[char]) -> (r: Vec<char>)
    ensures
        r@ == fold_yo_seq(s@),
{
    let mut out: Vec<char> = Vec::new();
    let mut i: usize = 0;
    while i < s.len()
        invariant
            i <= s@.len(),
            out@ == fold_yo_seq(s@.take(i as int)),
        decreases s@.len() - i,
    {
        let c = s[i];
        out.push(if c == '\u{451}' { '\u{435}' } else { c });
        i = i + 1;
        assert(out@ =~= fold_yo_seq(s@.take(i as int)));
    }
    assert(s@.take(s@.len() as int) =~= s@);
    out
}

/// Folds `ё` to `е`. Russian text routinely omits `ё`, so dictionary lookup
/// must treat the two spellings as one key space.
pub fn fold_yo(s: &str) -> (r: String)
    ensures
        r@ == fold_yo_seq(s@),
{
    let chars = str_chars(s);
    let folded = fold_yo_chars(chars.as_slice());
    string_from_chars(folded.as_slice(), 0, folded.len())
}

/// Canonical lexicon lookup key: lowercased with `ё` folded to `е`.
pub fn morph_lookup_key(s: &str) -> (r: String)
    ensures
        r@ == fold_yo_seq(lower_seq(s@)),
{
    let chars = str_chars(s);
    let low = lower_chars(chars.as_slice());
    let folded = fold_yo_chars(low.as_slice());
    string_from_chars(folded.as_slice(), 0, folded.len())
}

/// The letters and hyphens of `s`, lowercased, in order.
pub open spec fn normalized_seq(s: Seq<char>) -> Seq<char>
    decreases s.len(),
{
    if s.len() == 0 {
        Seq::empty()
    } else if unicode_alphabetic(s.last()) || s.last() == '-' {
        normalized_seq(s.drop_last()) + unicode_to_lower(s.last())
    } else {
        normalized_seq(s.drop_last())
    }
}

/// Keeps letters and hyphens of a word and lowercases them.
pub fn normalize_word(word: &str) -> (r: String)
    ensures
        r@ == normalized_seq(word@),
{
    let s = str_chars(word);
    let mut out: Vec<char> = Vec::new();
    let mut i: usize = 0;
    while i < s.len()
        invariant
            s@ == word@,
            i <= s@.len(),
            out@ == normalized_seq(s@.take(i as int)),
        decreases s@.len() - i,
    {
        assert(s@.take(i as int + 1).drop_last() =~= s@.take(i as int));
        let c = s[i];
        if is_alphabetic(c) || c == '-' {
            let low = to_lower_chars(c);
            append_chars(&mut out, &low);
        }
        i = i + 1;
    }
    assert(s@.take(s@.len() as int) =~= s@);
    string_from_chars(out.as_slice(), 0, out.len())
}

/// Whether the first character of `s` is lowercase.
pub fn first_char_is_lowercase(s: &str) -> (r: bool)
    ensures
        r == (s@.len() > 0 && unicode_lowercase(s@[0])),
{
    let chars = str_chars(s);
    chars.len() > 0 && is_lowercase(chars[0])
}

/// Whether the first character of `value` is a lowercase letter.
pub fn starts_with_lowercase_letter(value: &str) -> (r: bool)
    ensures
        r == (value@.len() > 0 && unicode_lowercase(value@[0])),
{
    first_char_is_lowercase(value)
}

/// The first character uppercased, followed by the rest unchanged.
pub open spec fn capitalized(s: Seq<char>) -> Seq<char> {
    if s.len() == 0 {
        Seq::empty()
    } else {
        unicode_to_upper(s[0]) + s.drop_first()
    }
}

pub fn capitalize_first(s: &str) -> (r: String)
    ensures
        r@ == capitalized(s@),
{
    let chars = str_chars(s);
    if chars.len() == 0 {
        return String::new();
    }
    let mut out = to_upper_chars(chars[0]);
    let mut i: usize = 1;
    let ghost up = out@;
    while i < chars.len()
        invariant
            chars@ == s@,
            1 <= i <= chars@.len(),
            up == unicode_to_upper(s@[0]),
            out@ == up + chars@.subrange(1, i as int),
        decreases chars@.len() - i,
    {
        out.push(chars[i]);
        i = i + 1;
        assert(out@ =~= up + chars@.subrange(1, i as int));
    }
    assert(chars@.subrange(1, chars@.len() as int) =~= s@.drop_first());
    string_from_chars(out.as_slice(), 0, out.len())
}

pub fn uppercase_first(value: &str) -> (r: String)
    ensures
        r@ == capitalized(value@),
{
    capitalize_first(value)
}

pub open spec fn spec_is_cyrillic(c: char) -> bool {
    ||| '\u{0400}' <= c <= '\u{04FF}'
    ||| '\u{0500}' <= c <= '\u{052F}'
    ||| '\u{2DE0}' <= c <= '\u{2DFF}'
    ||| '\u{A640}' <= c <= '\u{A69F}'
}

/// Whether `c` lies in one of the Cyrillic blocks.
pub fn is_cyrillic(c: char) -> (r: bool)
    ensures
        r == spec_is_cyrillic(c),
{
    ('\u{0400}' <= c && c <= '\u{04FF}') || ('\u{0500}' <= c && c <= '\u{052F}') || ('\u{2DE0}'
        <= c && c <= '\u{2DFF}') || ('\u{A640}' <= c && c <= '\u{A69F}')
}

pub fn has_cyrillic(value: &str) -> (r: bool)
    ensures
        r == exists|i: int| 0 <= i < value@.len() && spec_is_cyrillic(#[trigger] value@[i]),
{
    let s = str_chars(value);
    let mut i: usize = 0;
    while i < s.len()
        invariant
            s@ == value@,
            i <= s@.len(),
            forall|k: int| 0 <= k < i ==> !spec_is_cyrillic(#[trigger] s@[k]),
        decreases s@.len() - i,
    {
        if is_cyrillic(s[i]) {
            return true;
        }
        i = i + 1;
    }
    false
}

pub fn has_latin(value: &str) -> (r: bool)
    ensures
        r == exists|i: int| 0 <= i < value@.len() && spec_is_ascii_alphabetic(#[trigger] value@[i]),
{
    let s = str_chars(value);
    let mut i: usize = 0;
    while i < s.len()
        invariant
            s@ == value@,
            i <= s@.len(),
            forall|k: int| 0 <= k < i ==> !spec_is_ascii_alphabetic(#[trigger] s@[k]),
        decreases s@.len() - i,
    {
        if is_ascii_alphabetic(s[i]) {
            return true;
        }
        i = i + 1;
    }
    false
}

pub open spec fn spec_is_sentence_boundary(c: char) -> bool {
    c == '.' || c == '!' || c == '?' || c == '\u{2026}' || c == '\n'
}

pub fn is_sentence_boundary(ch: char) -> (r: bool)
    ensures
        r == spec_is_sentence_boundary(ch),
{
    ch == '.' || ch == '!' || ch == '?' || ch == '\u{2026}' || ch == '\n'
}

pub fn is_punctuation_requiring_space_after(ch: char) -> (r: bool)
    ensures
        r == (ch == ',' || ch == ';' || ch == ':' || ch == '!' || ch == '?' || ch == '\u{2026}'
            || ch == '.'),
{
    ch == ',' || ch == ';' || ch == ':' || ch == '!' || ch == '?' || ch == '\u{2026}' || ch == '.'
}

pub fn is_space_forbidden_before(ch: char) -> (r: bool)
    ensures
        r == (ch == ',' || ch == ';' || ch == ':' || ch == '!' || ch == '?' || ch == ')' || ch
            == ']' || ch == '}' || ch == '\u{BB}' || ch == '.'),
{
    ch == ',' || ch == ';' || ch == ':' || ch == '!' || ch == '?' || ch == ')' || ch == ']' || ch
        == '}' || ch == '\u{BB}' || ch == '.'
}

pub open spec fn min_usize(a: usize, b: int) -> int {
    if a < b {
        a as int
    } else {
        b
    }
}

/// The largest character boundary at or before `idx` (clamped to the text);
/// a boundary here is one that `str::is_char_boundary` accepts, which vstd
/// states over the text's UTF-8 encoding.
pub fn floor_char_boundary(text: &str, idx: usize) -> (r: usize)
    ensures
        exists|i: int|
            is_floor_index(text@, min_usize(idx, text_len(text@) as int), i) && r == byte_offset(
                text@,
                i,
            ),
        vstd::utf8::is_char_boundary(vstd::utf8::encode_utf8(text@), r as int),
        r <= min_usize(idx, text_len(text@) as int),
        forall|j: int|
            r < j <= min_usize(idx, text_len(text@) as int) ==> !vstd::utf8::is_char_boundary(
                vstd::utf8::encode_utf8(text@),
                j,
            ),
{
    let offs = CharOffsets::new(text);
    proof {
        lemma_byte_offset_order(text@);
    }
    let total = offs.starts[offs.chars.len()];
    let m = if idx < total { idx } else { total };
    let i = offs.floor_index(Ghost(text@), m);
    proof {
        crate::unicode::lemma_floor_is_greatest_boundary(text@, m as int, i as int);
    }
    offs.starts[i]
}

/// The smallest character boundary at or after `idx` (clamped to the text);
/// a boundary here is one that `str::is_char_boundary` accepts, which vstd
/// states over the text's UTF-8 encoding.
pub fn ceil_char_boundary(text: &str, idx: usize) -> (r: usize)
    ensures
        exists|i: int|
            is_ceil_index(text@, min_usize(idx, text_len(text@) as int), i) && r == byte_offset(
                text@,
                i,
            ),
        vstd::utf8::is_char_boundary(vstd::utf8::encode_utf8(text@), r as int),
        min_usize(idx, text_len(text@) as int) <= r <= text_len(text@),
        forall|j: int|
            min_usize(idx, text_len(text@) as int) <= j < r ==> !vstd::utf8::is_char_boundary(
                vstd::utf8::encode_utf8(text@),
                j,
            ),
{
    let offs = CharOffsets::new(text);
    proof {
        lemma_byte_offset_order(text@);
    }
    let total = offs.starts[offs.chars.len()];
    let m = if idx < total { idx } else { total };
    let i = offs.ceil_index(Ghost(text@), m);
    proof {
        crate::unicode::lemma_ceil_is_least_boundary(text@, m as int, i as int);
    }
    offs.starts[i]
}

/// The character that ends at the floor boundary of `byte_index`, with its
/// byte offset.
pub fn char_before(text: &str, byte_index: usize) -> (r: Option<(usize, char)>)
    ensures
        exists|i: int|
            is_floor_index(text@, min_usize(byte_index, text_len(text@) as int), i) && r == (if i
                == 0 {
                None
            } else {
                Some((byte_offset(text@, i - 1) as usize, text@[i - 1]))
            }),
{
    let offs = CharOffsets::new(text);
    proof {
        lemma_byte_offset_order(text@);
    }
    let total = offs.starts[offs.chars.len()];
    let m = if byte_index < total { byte_index } else { total };
    let i = offs.floor_index(Ghost(text@), m);
    assert(m == min_usize(byte_index, text_len(text@) as int));
    let r = if i == 0 {
        None
    } else {
        Some((offs.starts[i - 1], offs.chars[i - 1]))
    };
    assert(is_floor_index(text@, min_usize(byte_index, text_len(text@) as int), i as int));
    r
}

/// The character that starts at `byte_index`, if it is a character boundary
/// inside the text.
pub fn char_after(text: &str, byte_index: usize) -> (r: Option<(usize, char)>)
    ensures
        r matches Some((b, c)) ==> b == byte_index && exists|i: int|
            0 <= i < text@.len() && byte_offset(text@, i) == byte_index && c == text@[i],
        r is None ==> forall|i: int|
            0 <= i < text@.len() ==> byte_offset(text@, i) != byte_index,
{
    let offs = CharOffsets::new(text);
    match offs.boundary_index(Ghost(text@), byte_index) {
        Some(i) => {
            if i < offs.chars.len() {
                Some((byte_index, offs.chars[i]))
            } else {
                proof {
                    lemma_byte_offset_order(text@);
                }
                None
            }
        },
        None => None,
    }
}

/// The last non-white-space character before the floor boundary of
/// `byte_index`, with its byte offset.
pub fn prev_non_ws_char(text: &str, byte_index: usize) -> (r: Option<(usize, char)>)
    ensures
        exists|i: int|
            is_floor_index(text@, min_usize(byte_index, text_len(text@) as int), i) && (match r {
                Some((b, c)) => exists|j: int|
                    0 <= j < i && b == byte_offset(text@, j) && c == text@[j]
                        && !spec_is_whitespace(c) && forall|k: int|
                        j < k < i ==> spec_is_whitespace(#[trigger] text@[k]),
                None => forall|k: int| 0 <= k < i ==> spec_is_whitespace(#[trigger] text@[k]),
            }),
{
    let offs = CharOffsets::new(text);
    proof {
        lemma_byte_offset_order(text@);
    }
    let total = offs.starts[offs.chars.len()];
    let m = if byte_index < total { byte_index } else { total };
    let i = offs.floor_index(Ghost(text@), m);
    assert(is_floor_index(text@, min_usize(byte_index, text_len(text@) as int), i as int));
    let mut j = i;
    while j > 0
        invariant
            offs.wf_for(text@),
            j <= i <= text@.len(),
            is_floor_index(text@, min_usize(byte_index, text_len(text@) as int), i as int),
            forall|k: int| j <= k < i ==> spec_is_whitespace(#[trigger] text@[k]),
        decreases j,
    {
        if !is_whitespace(offs.chars[j - 1]) {
            let r = Some((offs.starts[j - 1], offs.chars[j - 1]));
            assert(exists|jj: int|
                0 <= jj < i && offs.starts[j - 1] == byte_offset(text@, jj) && offs.chars[j - 1]
                    == text@[jj] && !spec_is_whitespace(text@[jj]) && forall|k: int|
                    jj < k < i ==> spec_is_whitespace(#[trigger] text@[k])) by {
                assert(0 <= j - 1 < i);
            }
            return r;
        }
        j = j - 1;
    }
    None
}

/// The first non-white-space character at or after `byte_index`, if that is
/// a character boundary of the text.
pub fn next_non_ws_char(text: &str, byte_index: usize) -> (r: Option<(usize, char)>)
    ensures
        r matches Some((b, c)) ==> exists|i: int, j: int|
            0 <= i <= j < text@.len() && byte_offset(text@, i) == byte_index && b == byte_offset(
                text@,
                j,
            ) && c == text@[j] && !spec_is_whitespace(c) && forall|k: int|
                i <= k < j ==> spec_is_whitespace(#[trigger] text@[k]),
        r is None ==> forall|i: int|
            0 <= i <= text@.len() && byte_offset(text@, i) == byte_index ==> forall|k: int|
                i <= k < text@.len() ==> spec_is_whitespace(#[trigger] text@[k]),
{
    let offs = CharOffsets::new(text);
    proof {
        lemma_byte_offset_order(text@);
    }
    match offs.boundary_index(Ghost(text@), byte_index) {
        Some(i) => {
            let mut j = i;
            while j < offs.chars.len()
                invariant
                    offs.wf_for(text@),
                    i <= j <= text@.len(),
                    byte_offset(text@, i as int) == byte_index,
                    forall|k: int| i <= k < j ==> spec_is_whitespace(#[trigger] text@[k]),
                decreases text@.len() - j,
            {
                if !is_whitespace(offs.chars[j]) {
                    return Some((offs.starts[j], offs.chars[j]));
                }
                j = j + 1;
            }
            None
        },
        None => None,
    }
}

/// Character indices at which lines start: 0, and one past every `\n`.
pub open spec fn line_start_indices(s: Seq<char>) -> Seq<int>
    decreases s.len(),
{
    if s.len() == 0 {
        seq![0]
    } else if s.last() == '\n' {
        line_start_indices(s.drop_last()).push(s.len() as int)
    } else {
        line_start_indices(s.drop_last())
    }
}

pub proof fn lemma_line_starts_sorted(s: Seq<char>)
    ensures
        line_start_indices(s).len() >= 1,
        line_start_indices(s)[0] == 0,
        forall|k: int|
            0 <= k < line_start_indices(s).len() ==> k <= #[trigger] line_start_indices(s)[k]
                <= s.len(),
        forall|k: int, l: int|
            0 <= k < l < line_start_indices(s).len() ==> #[trigger] line_start_indices(s)[k]
                < #[trigger] line_start_indices(s)[l],
    decreases s.len(),
{
    if s.len() > 0 {
        lemma_line_starts_sorted(s.drop_last());
        let prev = line_start_indices(s.drop_last());
        assert(prev[prev.len() - 1] >= prev.len() - 1);
    }
}

/// `p` is the position of byte `off`: `f` is the floor character index of
/// the offset and `k` the zero-based line that holds it.
pub open spec fn is_position(s: Seq<char>, off: usize, p: Position, f: int, k: int) -> bool {
    &&& is_floor_index(s, min_usize(off, text_len(s) as int), f)
    &&& 0 <= k < line_start_indices(s).len()
    &&& line_start_indices(s)[k] <= f
    &&& k + 1 < line_start_indices(s).len() ==> line_start_indices(s)[k + 1] > f
    &&& p.line == k + 1
    &&& p.column == f - line_start_indices(s)[k] + 1
}

/// Maps byte offsets of a text to one-based lines and character columns.
#[derive(Debug, Clone)]
pub struct LineIndex {
    text: String,
    starts: Vec<usize>,
    start_chars: Vec<usize>,
}

impl LineIndex {
    pub closed spec fn text_view(&self) -> Seq<char> {
        self.text@
    }

    pub closed spec fn wf(&self) -> bool {
        let s = self.text@;
        &&& self.start_chars@.len() == line_start_indices(s).len()
        &&& self.starts@.len() == self.start_chars@.len()
        &&& text_len(s) <= usize::MAX
        &&& forall|k: int|
            0 <= k < self.starts@.len() ==> #[trigger] self.start_chars@[k]
                == line_start_indices(s)[k] && self.starts@[k] == byte_offset(
                s,
                line_start_indices(s)[k],
            )
    }

    pub fn new(text: &str) -> (r: LineIndex)
        ensures
            r.wf(),
            r.text_view() == text@,
    {
        let offs = CharOffsets::new(text);
        let mut starts: Vec<usize> = Vec::new();
        let mut start_chars: Vec<usize> = Vec::new();
        starts.push(0);
        start_chars.push(0);
        proof {
            lemma_byte_offset_order(text@);
            assert(text@.take(0) =~= Seq::<char>::empty());
        }
        let mut i: usize = 0;
        while i < offs.chars.len()
            invariant
                offs.wf_for(text@),
                i <= text@.len(),
                start_chars@.len() == line_start_indices(text@.take(i as int)).len(),
                starts@.len() == start_chars@.len(),
                forall|k: int|
                    0 <= k < starts@.len() ==> #[trigger] start_chars@[k] == line_start_indices(
                        text@.take(i as int),
                    )[k] && starts@[k] == byte_offset(
                        text@,
                        line_start_indices(text@.take(i as int))[k],
                    ),
            decreases text@.len() - i,
        {
            assert(text@.take(i as int + 1).drop_last() =~= text@.take(i as int));
            if offs.chars[i] == '\n' {
                starts.push(offs.starts[i + 1]);
                start_chars.push(i + 1);
            }
            i = i + 1;
        }
        assert(text@.take(text@.len() as int) =~= text@);
        LineIndex { text: string_from_chars(offs.chars.as_slice(), 0, offs.chars.len()), starts, start_chars }
    }

    /// The line and character column of the (floor boundary of the) offset.
    pub fn position(&self, byte_offset_in: usize) -> (p: Position)
        requires
            self.wf(),
            self.text_view().len() < usize::MAX,
        ensures
            exists|f: int, k: int| #[trigger] is_position(self.text_view(), byte_offset_in, p, f, k),
    {
        let ghost s = self.text@;
        let offs = CharOffsets::new(self.text.as_str());
        proof {
            lemma_byte_offset_order(s);
            lemma_line_starts_sorted(s);
        }
        let total = offs.starts[offs.chars.len()];
        let m = if byte_offset_in < total { byte_offset_in } else { total };
        let f = offs.floor_index(Ghost(s), m);
        let safe = offs.starts[f];
        let k = self.line_of(Ghost(s), f, safe);
        let line_start_char = self.start_chars[k];
        let p = Position { line: k + 1, column: f - line_start_char + 1 };
        assert(is_position(s, byte_offset_in, p, f as int, k as int));
        p
    }

    fn line_of(&self, Ghost(s): Ghost<Seq<char>>, f: usize, safe: usize) -> (k: usize)
        requires
            self.wf(),
            s == self.text@,
            f <= s.len(),
            safe == byte_offset(s, f as int),
        ensures
            0 <= k < line_start_indices(s).len(),
            k <= f,
            self.start_chars@[k as int] == line_start_indices(s)[k as int],
            line_start_indices(s)[k as int] <= f,
            k + 1 < line_start_indices(s).len() ==> line_start_indices(s)[k + 1] > f,
    {
        proof {
            lemma_line_starts_sorted(s);
            lemma_byte_offset_order(s);
        }
        let mut k: usize = 0;
        while k < self.starts.len() - 1 && self.starts[k + 1] <= safe
            invariant
                self.wf(),
                s == self.text@,
                f <= s.len(),
                safe == byte_offset(s, f as int),
                self.starts@.len() >= 1,
                k < self.starts@.len(),
                line_start_indices(s)[k as int] <= f,
            decreases self.starts@.len() - k,
        {
            proof {
                lemma_byte_offset_order(s);
                lemma_line_starts_sorted(s);
                assert(self.start_chars@[k + 1] == line_start_indices(s)[k + 1]);
                let g = line_start_indices(s)[k + 1];
                if g > f {
                    assert(byte_offset(s, f as int) < byte_offset(s, g));
                }
            }
            k = k + 1;
        }
        proof {
            assert(self.start_chars@[k as int] == line_start_indices(s)[k as int]);
            if k + 1 < self.starts@.len() {
                assert(self.start_chars@[k + 1] == line_start_indices(s)[k + 1]);
                let g = line_start_indices(s)[k + 1];
                if g <= f {
                    if g < f {
                        assert(byte_offset(s, g) < byte_offset(s, f as int));
                    }
                }
            }
        }
        k
    }

    pub fn line_count(&self) -> (n: usize)
        requires
            self.wf(),
        ensures
            n == line_start_indices(self.text_view()).len(),
    {
        self.starts.len()
    }
}

pub open spec fn spec_is_excerpt_boundary(c: char) -> bool {
    c == '.' || c == '!' || c == '?' || c == '\n'
}

fn is_excerpt_boundary(c: char) -> (r: bool)
    ensures
        r == spec_is_excerpt_boundary(c),
{
    c == '.' || c == '!' || c == '?' || c == '\n'
}

/// Index just past the last excerpt boundary before character `i`, or 0.
pub open spec fn excerpt_start(s: Seq<char>, i: int) -> int
    decreases i,
{
    if i <= 0 {
        0
    } else if spec_is_excerpt_boundary(s[i - 1]) {
        i
    } else {
        excerpt_start(s, i - 1)
    }
}

/// Index just past the first excerpt boundary at or after character `i`, or
/// the end of the text.
pub open spec fn excerpt_end(s: Seq<char>, i: int) -> int
    decreases s.len() - i,
{
    if i >= s.len() {
        s.len() as int
    } else if spec_is_excerpt_boundary(s[i]) {
        i + 1
    } else {
        excerpt_end(s, i + 1)
    }
}

/// The sequence without leading white space.
pub open spec fn trim_start_seq(s: Seq<char>) -> Seq<char>
    decreases s.len(),
{
    if s.len() > 0 && spec_is_whitespace(s[0]) {
        trim_start_seq(s.drop_first())
    } else {
        s
    }
}

/// The sequence without trailing white space.
pub open spec fn trim_end_seq(s: Seq<char>) -> Seq<char>
    decreases s.len(),
{
    if s.len() > 0 && spec_is_whitespace(s.last()) {
        trim_end_seq(s.drop_last())
    } else {
        s
    }
}

/// The sequence without leading and trailing white space.
pub open spec fn trim_seq(s: Seq<char>) -> Seq<char> {
    trim_end_seq(trim_start_seq(s))
}

/// End `b` such that `v[start..b]` is `v[start..end]` without trailing
/// white space.
pub fn trim_end_bound(v: &[char], start: usize, end: usize) -> (b: usize)
    requires
        start <= end <= v@.len(),
    ensures
        start <= b <= end,
        v@.subrange(start as int, b as int) == trim_end_seq(v@.subrange(start as int, end as int)),
{
    let mut b = end;
    while b > start && is_whitespace(v[b - 1])
        invariant
            start <= b <= end <= v@.len(),
            trim_end_seq(v@.subrange(start as int, end as int)) == trim_end_seq(
                v@.subrange(start as int, b as int),
            ),
        decreases b,
    {
        assert(v@.subrange(start as int, b as int).drop_last() =~= v@.subrange(
            start as int,
            b as int - 1,
        ));
        b = b - 1;
    }
    b
}

/// Bounds `a..b` of the trimmed part of `v[start..end]`.
pub fn trim_bounds(v: &[char], start: usize, end: usize) -> (r: (usize, usize))
    requires
        start <= end <= v@.len(),
    ensures
        start <= r.0 <= r.1 <= end,
        v@.subrange(r.0 as int, r.1 as int) == trim_seq(v@.subrange(start as int, end as int)),
{
    let mut a = start;
    while a < end && is_whitespace(v[a])
        invariant
            start <= a <= end <= v@.len(),
            trim_start_seq(v@.subrange(start as int, end as int)) == trim_start_seq(
                v@.subrange(a as int, end as int),
            ),
        decreases end - a,
    {
        assert(v@.subrange(a as int, end as int).drop_first() =~= v@.subrange(
            a as int + 1,
            end as int,
        ));
        a = a + 1;
    }
    let mut b = end;
    while b > a && is_whitespace(v[b - 1])
        invariant
            start <= a <= b <= end <= v@.len(),
            trim_end_seq(v@.subrange(a as int, end as int)) == trim_end_seq(
                v@.subrange(a as int, b as int),
            ),
        decreases b,
    {
        assert(v@.subrange(a as int, b as int).drop_last() =~= v@.subrange(
            a as int,
            b as int - 1,
        ));
        b = b - 1;
    }
    (a, b)
}

fn excerpt_start_exec(offs: &CharOffsets, Ghost(s): Ghost<Seq<char>>, fs: usize) -> (r: usize)
    requires
        offs.wf_for(s),
        fs <= s.len(),
    ensures
        r == excerpt_start(s, fs as int),
        r <= fs,
{
    let mut before = fs;
    while before > 0 && !is_excerpt_boundary(offs.chars[before - 1])
        invariant
            offs.wf_for(s),
            before <= fs <= s.len(),
            excerpt_start(s, fs as int) == excerpt_start(s, before as int),
        decreases before,
    {
        before = before - 1;
    }
    before
}

fn excerpt_end_exec(offs: &CharOffsets, Ghost(s): Ghost<Seq<char>>, ce: usize) -> (r: usize)
    requires
        offs.wf_for(s),
        ce <= s.len(),
    ensures
        r == excerpt_end(s, ce as int),
        ce <= r <= s.len(),
{
    let n = offs.chars.len();
    let mut after = ce;
    while after < n && !is_excerpt_boundary(offs.chars[after])
        invariant
            offs.wf_for(s),
            n == s.len(),
            ce <= after <= n,
            excerpt_end(s, ce as int) == excerpt_end(s, after as int),
        decreases n - after,
    {
        after = after + 1;
    }
    if after < n {
        after = after + 1;
    }
    after
}

/// The sentence-like excerpt of the text around the span: from just after
/// the preceding `.`/`!`/`?`/newline to just after the following one,
/// trimmed. Defined whenever the excerpt's bounds do not cross, which
/// holds for every span whose start is at most its end.
pub fn excerpt(text: &str, span: Span) -> (r: String)
    requires
        forall|fs: int, ce: int|
            is_floor_index(text@, min_usize(span.start, text_len(text@) as int), fs) && is_ceil_index(
                text@,
                min_usize(span.end, text_len(text@) as int),
                ce,
            ) ==> #[trigger] excerpt_start(text@, fs) <= #[trigger] excerpt_end(text@, ce),
    ensures
        exists|fs: int, ce: int|
            is_floor_index(text@, min_usize(span.start, text_len(text@) as int), fs)
                && is_ceil_index(text@, min_usize(span.end, text_len(text@) as int), ce) && r@
                == trim_seq(text@.subrange(excerpt_start(text@, fs), excerpt_end(text@, ce))),
{
    let ghost s = text@;
    let offs = CharOffsets::new(text);
    proof {
        lemma_byte_offset_order(s);
    }
    let n = offs.chars.len();
    let total = offs.starts[n];
    let ms = if span.start < total { span.start } else { total };
    let me = if span.end < total { span.end } else { total };
    let fs = offs.floor_index(Ghost(s), ms);
    let ce = offs.ceil_index(Ghost(s), me);
    assert(is_floor_index(s, min_usize(span.start, text_len(s) as int), fs as int));
    assert(is_ceil_index(s, min_usize(span.end, text_len(s) as int), ce as int));
    let before = excerpt_start_exec(&offs, Ghost(s), fs);
    let after = excerpt_end_exec(&offs, Ghost(s), ce);
    let (a, b) = trim_bounds(offs.chars.as_slice(), before, after);
    assert(is_floor_index(s, min_usize(span.start, text_len(s) as int), fs as int));
    string_from_chars(offs.chars.as_slice(), a, b)
}

} // verus!
