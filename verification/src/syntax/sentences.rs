use vstd::prelude::*;
use crate::text::{
    previous_non_ws, next_non_ws, spec_next_non_ws_index, spec_previous_non_ws_index, Token,
    TokenKind, lower_chars, lower_seq, spec_is_sentence_boundary, trim_end_bound, trim_end_seq,
};
use crate::unicode::{
    byte_offset, chars_eq_str, is_alphabetic, is_ascii_digit, is_lowercase, is_uppercase,
    is_whitespace, lemma_byte_offset_order, spec_is_ascii_digit, spec_is_whitespace,
    unicode_alphabetic, unicode_lowercase, unicode_uppercase, CharOffsets,
};
use crate::syntax::boundaries::{
    is_clause_separator, is_closing_boundary_punctuation, is_opening_boundary_punctuation,
    spec_is_clause_separator, spec_is_closing_boundary, spec_is_opening_boundary,
};
use crate::syntax::model::{
    PunctuationContext, PunctuationSafeZone, PunctuationSafeZoneKind, SentenceSpan, TokenWindow,
};
use crate::syntax::safe_zones::{punctuation_safe_zone_records, spec_safe_zones};

verus! {

broadcast use vstd::seq_lib::group_seq_properties;

/// End of the run of closing brackets and quotes that starts at `i`.
pub open spec fn closing_run_end(s: Seq<char>, i: int) -> int
    decreases s.len() - i,
{
    if 0 <= i < s.len() && spec_is_closing_boundary(s[i]) {
        closing_run_end(s, i + 1)
    } else {
        i
    }
}

/// End of the run of sentence-terminal characters that starts at `i`.
pub open spec fn terminal_run_end(s: Seq<char>, i: int) -> int
    decreases s.len() - i,
{
    if 0 <= i < s.len() && spec_is_sentence_boundary(s[i]) {
        terminal_run_end(s, i + 1)
    } else {
        i
    }
}

/// The first index at or after `i` that is not white space, or the length.
pub open spec fn first_non_ws_from(s: Seq<char>, i: int) -> int
    decreases s.len() - i,
{
    if 0 <= i < s.len() && spec_is_whitespace(s[i]) {
        first_non_ws_from(s, i + 1)
    } else {
        i
    }
}

/// Start of the run of letters that ends just before `p`.
pub open spec fn alpha_run_start(s: Seq<char>, p: int) -> int
    decreases p,
{
    if 0 < p <= s.len() && unicode_alphabetic(s[p - 1]) {
        alpha_run_start(s, p - 1)
    } else {
        p
    }
}

pub proof fn lemma_run_bounds(s: Seq<char>, i: int)
    requires
        0 <= i <= s.len(),
    ensures
        i <= closing_run_end(s, i) <= s.len(),
        i <= terminal_run_end(s, i) <= s.len(),
        i <= first_non_ws_from(s, i) <= s.len(),
        forall|k: int| i <= k < first_non_ws_from(s, i) ==> spec_is_whitespace(#[trigger] s[k]),
        first_non_ws_from(s, i) < s.len() ==> !spec_is_whitespace(s[first_non_ws_from(s, i)]),
    decreases s.len() - i,
{
    if i < s.len() {
        lemma_run_bounds(s, i + 1);
    }
}

pub proof fn lemma_alpha_run_bounds(s: Seq<char>, p: int)
    requires
        0 <= p <= s.len(),
    ensures
        0 <= alpha_run_start(s, p) <= p,
    decreases p,
{
    if p > 0 {
        lemma_alpha_run_bounds(s, p - 1);
    }
}

/// The sentence continues at `i`: the next non-white-space character is a
/// dash, comma, semicolon, colon or a lowercase letter.
pub open spec fn continues_at(s: Seq<char>, i: int) -> bool {
    let j = first_non_ws_from(s, i);
    j < s.len() && (s[j] == '\u{2014}' || s[j] == '-' || s[j] == ',' || s[j] == ';' || s[j] == ':'
        || unicode_lowercase(s[j]))
}

/// As `continues_at`, for a byte offset (false unless it is a character
/// boundary).
pub open spec fn continues_after_byte(s: Seq<char>, b: int) -> bool {
    exists|i: int| 0 <= i <= s.len() && byte_offset(s, i) == b && continues_at(s, i)
}

pub open spec fn is_decimal_period(s: Seq<char>, p: int) -> bool {
    &&& 0 < p
    &&& spec_is_ascii_digit(s[p - 1])
    &&& p + 1 < s.len()
    &&& spec_is_ascii_digit(s[p + 1])
}

pub open spec fn ends_with(a: Seq<char>, b: Seq<char>) -> bool {
    b.len() <= a.len() && a.subrange(a.len() - b.len(), a.len() as int) == b
}

pub open spec fn has_abbreviation_suffix(w: Seq<char>) -> bool {
    ||| ends_with(w, "т.е."@)
    ||| ends_with(w, "т. е."@)
    ||| ends_with(w, "т.к."@)
    ||| ends_with(w, "т. к."@)
    ||| ends_with(w, "т.п."@)
    ||| ends_with(w, "т. п."@)
    ||| ends_with(w, "т.д."@)
    ||| ends_with(w, "т. д."@)
}

pub open spec fn spec_known_abbreviation(w: Seq<char>) -> bool {
    ||| w == "г"@
    ||| w == "ул"@
    ||| w == "д"@
    ||| w == "кв"@
    ||| w == "стр"@
    ||| w == "рис"@
    ||| w == "см"@
    ||| w == "им"@
    ||| w == "тов"@
    ||| w == "проф"@
    ||| w == "доц"@
    ||| w == "акад"@
    ||| w == "др"@
    ||| w == "пр"@
    ||| w == "т"@
    ||| w == "н"@
    ||| w == "э"@
    ||| w == "руб"@
    ||| w == "коп"@
    ||| w == "тыс"@
    ||| w == "млн"@
    ||| w == "млрд"@
    ||| w == "зам"@
    ||| w == "нач"@
    ||| w == "ред"@
}

/// The period at `p` probably ends an abbreviation (or is a decimal
/// separator) rather than a sentence.
pub open spec fn probable_abbreviation(s: Seq<char>, start: int, p: int) -> bool {
    let ws = alpha_run_start(s, p);
    ||| is_decimal_period(s, p)
    ||| has_abbreviation_suffix(lower_seq(trim_end_seq(s.subrange(start, p + 1))))
    ||| ws < p && spec_known_abbreviation(lower_seq(s.subrange(ws, p)))
    ||| ws < p && p - ws == 1 && unicode_uppercase(s[ws]) && first_non_ws_from(s, p + 1) < s.len()
        && unicode_uppercase(s[first_non_ws_from(s, p + 1)])
}

/// The first zone that strictly encloses byte `b`.
pub open spec fn first_zone_containing(zones: Seq<PunctuationSafeZone>, b: int) -> Option<PunctuationSafeZone>
    decreases zones.len(),
{
    if zones.len() == 0 {
        None
    } else if zones[0].span.start < b && b < zones[0].span.end {
        Some(zones[0])
    } else {
        first_zone_containing(zones.drop_first(), b)
    }
}

/// The terminal run `ts..te` may end the sentence that starts at `start`.
#[verifier::opaque]
pub open spec fn split_candidate(s: Seq<char>, zones: Seq<PunctuationSafeZone>, start: int, ts: int, te: int) -> bool {
    if s[ts] == '.' && te == ts + 1 && probable_abbreviation(s, start, ts) {
        false
    } else {
        let be = closing_run_end(s, te);
        match first_zone_containing(zones, byte_offset(s, ts) as int) {
            Some(z) => if byte_offset(s, be) < z.span.end {
                false
            } else if z.kind == PunctuationSafeZoneKind::Parenthetical && !continues_after_byte(
                s,
                z.span.end as int,
            ) {
                true
            } else {
                !continues_at(s, be)
            },
            None => true,
        }
    }
}

pub open spec fn sentence_of(s: Seq<char>, a: int, b: int) -> SentenceSpan {
    SentenceSpan { start: byte_offset(s, a) as usize, end: byte_offset(s, b) as usize }
}

/// The sentences found scanning from `cursor`, with the current sentence
/// starting at `start`.
pub open spec fn sentence_scan(s: Seq<char>, zones: Seq<PunctuationSafeZone>, start: int, cursor: int) -> Seq<SentenceSpan>
    decreases s.len() - cursor,
{
    if cursor < 0 || cursor >= s.len() {
        if 0 <= start < s.len() {
            seq![sentence_of(s, start, s.len() as int)]
        } else {
            Seq::empty()
        }
    } else if !spec_is_sentence_boundary(s[cursor]) {
        sentence_scan(s, zones, start, cursor + 1)
    } else {
        let te = terminal_run_end(s, cursor + 1);
        proof {
            lemma_run_bounds(s, cursor + 1);
        }
        if !split_candidate(s, zones, start, cursor, te) {
            sentence_scan(s, zones, start, te)
        } else {
            let end = closing_run_end(s, te);
            proof {
                lemma_run_bounds(s, te);
            }
            let ns = first_non_ws_from(s, end);
            proof {
                lemma_run_bounds(s, end);
            }
            (if start < end {
                seq![sentence_of(s, start, end)]
            } else {
                Seq::empty()
            }) + sentence_scan(s, zones, ns, ns)
        }
    }
}

/// The sentences of a text as byte spans.
pub open spec fn spec_sentence_spans(s: Seq<char>) -> Seq<SentenceSpan> {
    let st = first_non_ws_from(s, 0);
    if st >= s.len() {
        Seq::empty()
    } else {
        sentence_scan(s, spec_safe_zones(s), st, st)
    }
}

/// The spans are non-empty and in strictly increasing, disjoint order.
pub open spec fn spans_increasing(spans: Seq<SentenceSpan>) -> bool {
    &&& forall|k: int| 0 <= k < spans.len() ==> (#[trigger] spans[k]).start < spans[k].end
    &&& forall|k: int| 0 <= k < spans.len() - 1 ==> (#[trigger] spans[k]).end <= spans[k + 1].start
}

fn closing_run_end_exec(offs: &CharOffsets, Ghost(s): Ghost<Seq<char>>, i: usize) -> (r: usize)
    requires
        offs.wf_for(s),
        i <= s.len(),
    ensures
        r == closing_run_end(s, i as int),
        i <= r <= s.len(),
{
    let mut j = i;
    while j < offs.chars.len() && is_closing_boundary_punctuation(offs.chars[j])
        invariant
            offs.wf_for(s),
            i <= j <= s.len(),
            closing_run_end(s, i as int) == closing_run_end(s, j as int),
        decreases s.len() - j,
    {
        j = j + 1;
    }
    j
}

fn terminal_run_end_exec(offs: &CharOffsets, Ghost(s): Ghost<Seq<char>>, i: usize) -> (r: usize)
    requires
        offs.wf_for(s),
        i <= s.len(),
    ensures
        r == terminal_run_end(s, i as int),
        i <= r <= s.len(),
{
    let mut j = i;
    while j < offs.chars.len() && crate::text::is_sentence_boundary(offs.chars[j])
        invariant
            offs.wf_for(s),
            i <= j <= s.len(),
            terminal_run_end(s, i as int) == terminal_run_end(s, j as int),
        decreases s.len() - j,
    {
        j = j + 1;
    }
    j
}

fn first_non_ws_exec(offs: &CharOffsets, Ghost(s): Ghost<Seq<char>>, i: usize) -> (r: usize)
    requires
        offs.wf_for(s),
        i <= s.len(),
    ensures
        r == first_non_ws_from(s, i as int),
        i <= r <= s.len(),
{
    let mut j = i;
    while j < offs.chars.len() && is_whitespace(offs.chars[j])
        invariant
            offs.wf_for(s),
            i <= j <= s.len(),
            first_non_ws_from(s, i as int) == first_non_ws_from(s, j as int),
        decreases s.len() - j,
    {
        j = j + 1;
    }
    j
}

fn alpha_run_start_exec(offs: &CharOffsets, Ghost(s): Ghost<Seq<char>>, p: usize) -> (r: usize)
    requires
        offs.wf_for(s),
        p <= s.len(),
    ensures
        r == alpha_run_start(s, p as int),
        r <= p,
{
    let mut j = p;
    while j > 0 && is_alphabetic(offs.chars[j - 1])
        invariant
            offs.wf_for(s),
            j <= p <= s.len(),
            alpha_run_start(s, p as int) == alpha_run_start(s, j as int),
        decreases j,
    {
        j = j - 1;
    }
    j
}

fn continues_at_exec(offs: &CharOffsets, Ghost(s): Ghost<Seq<char>>, i: usize) -> (r: bool)
    requires
        offs.wf_for(s),
        i <= s.len(),
    ensures
        r == continues_at(s, i as int),
{
    let j = first_non_ws_exec(offs, Ghost(s), i);
    if j >= offs.chars.len() {
        return false;
    }
    let c = offs.chars[j];
    c == '\u{2014}' || c == '-' || c == ',' || c == ';' || c == ':' || is_lowercase(c)
}

fn continues_after_byte_exec(offs: &CharOffsets, Ghost(s): Ghost<Seq<char>>, b: usize) -> (r: bool)
    requires
        offs.wf_for(s),
    ensures
        r == continues_after_byte(s, b as int),
{
    proof {
        lemma_byte_offset_order(s);
    }
    match offs.boundary_index(Ghost(s), b) {
        Some(i) => {
            let r = continues_at_exec(offs, Ghost(s), i);
            proof {
                if !r {
                    assert forall|k: int| 0 <= k <= s.len() && byte_offset(s, k) == b implies !continues_at(s, k) by {
                        if k != i {
                            if k < i {
                                assert(byte_offset(s, k) < byte_offset(s, i as int));
                            } else {
                                assert(byte_offset(s, i as int) < byte_offset(s, k));
                            }
                        }
                    }
                }
            }
            r
        },
        None => false,
    }
}

fn chars_ends_with(a: &[char], lit: &str) -> (r: bool)
    ensures
        r == ends_with(a@, lit@),
{
    let b = crate::unicode::str_chars(lit);
    if b.len() > a.len() {
        return false;
    }
    let alen = a.len();
    let off = alen - b.len();
    let mut i: usize = 0;
    while i < b.len()
        invariant
            b@ == lit@,
            alen == a@.len(),
            off + b@.len() == alen,
            i <= b@.len(),
            forall|k: int| 0 <= k < i ==> a@[off + k] == b@[k],
        decreases b@.len() - i,
    {
        if a[off + i] != b[i] {
            assert(a@.subrange(off as int, a@.len() as int)[i as int] != b@[i as int]);
            return false;
        }
        i = i + 1;
    }
    assert(a@.subrange(off as int, a@.len() as int) =~= b@);
    true
}

fn has_abbreviation_suffix_exec(w: &[char]) -> (r: bool)
    ensures
        r == has_abbreviation_suffix(w@),
{
    chars_ends_with(w, "т.е.") || chars_ends_with(w, "т. е.") || chars_ends_with(w, "т.к.")
        || chars_ends_with(w, "т. к.") || chars_ends_with(w, "т.п.") || chars_ends_with(w, "т. п.")
        || chars_ends_with(w, "т.д.") || chars_ends_with(w, "т. д.")
}

fn is_known_abbreviation_word(w: &[char]) -> (r: bool)
    ensures
        r == spec_known_abbreviation(w@),
{
    chars_eq_str(w, "г") || chars_eq_str(w, "ул") || chars_eq_str(w, "д") || chars_eq_str(w, "кв")
        || chars_eq_str(w, "стр") || chars_eq_str(w, "рис") || chars_eq_str(w, "см")
        || chars_eq_str(w, "им") || chars_eq_str(w, "тов") || chars_eq_str(w, "проф")
        || chars_eq_str(w, "доц") || chars_eq_str(w, "акад") || chars_eq_str(w, "др")
        || chars_eq_str(w, "пр") || chars_eq_str(w, "т") || chars_eq_str(w, "н") || chars_eq_str(
        w,
        "э",
    ) || chars_eq_str(w, "руб") || chars_eq_str(w, "коп") || chars_eq_str(w, "тыс")
        || chars_eq_str(w, "млн") || chars_eq_str(w, "млрд") || chars_eq_str(w, "зам")
        || chars_eq_str(w, "нач") || chars_eq_str(w, "ред")
}

fn sub_chars(v: &[char], a: usize, b: usize) -> (r: Vec<char>)
    requires
        a <= b <= v@.len(),
    ensures
        r@ == v@.subrange(a as int, b as int),
{
    let mut out: Vec<char> = Vec::new();
    let mut i = a;
    while i < b
        invariant
            a <= i <= b <= v@.len(),
            out@ == v@.subrange(a as int, i as int),
        decreases b - i,
    {
        out.push(v[i]);
        i = i + 1;
    }
    out
}

fn probable_abbreviation_exec(offs: &CharOffsets, Ghost(s): Ghost<Seq<char>>, start: usize, p: usize) -> (r: bool)
    requires
        offs.wf_for(s),
        start <= p < s.len(),
    ensures
        r == probable_abbreviation(s, start as int, p as int),
{
    let n = offs.chars.len();
    let chars = offs.chars.as_slice();
    if p > 0 && is_ascii_digit(chars[p - 1]) && p + 1 < n && is_ascii_digit(chars[p + 1]) {
        return true;
    }
    let b = trim_end_bound(chars, start, p + 1);
    let piece = sub_chars(chars, start, b);
    let lowered = lower_chars(piece.as_slice());
    if has_abbreviation_suffix_exec(lowered.as_slice()) {
        return true;
    }
    let ws = alpha_run_start_exec(offs, Ghost(s), p);
    if ws >= p {
        return false;
    }
    let word = sub_chars(chars, ws, p);
    let normalized = lower_chars(word.as_slice());
    if is_known_abbreviation_word(normalized.as_slice()) {
        return true;
    }
    if p - ws == 1 && is_uppercase(chars[ws]) {
        let j = first_non_ws_exec(offs, Ghost(s), p + 1);
        return j < n && is_uppercase(chars[j]);
    }
    false
}

fn first_zone_containing_exec(zones: &[PunctuationSafeZone], b: usize) -> (r: Option<PunctuationSafeZone>)
    ensures
        r == first_zone_containing(zones@, b as int),
{
    let mut k: usize = 0;
    while k < zones.len()
        invariant
            k <= zones@.len(),
            first_zone_containing(zones@, b as int) == first_zone_containing(zones@.skip(k as int), b as int),
        decreases zones@.len() - k,
    {
        assert(zones@.skip(k as int).drop_first() =~= zones@.skip(k as int + 1));
        if zones[k].span.start < b && b < zones[k].span.end {
            return Some(zones[k]);
        }
        k = k + 1;
    }
    None
}

fn split_candidate_exec(
    offs: &CharOffsets,
    Ghost(s): Ghost<Seq<char>>,
    zones: &[PunctuationSafeZone],
    start: usize,
    ts: usize,
    te: usize,
) -> (r: bool)
    requires
        offs.wf_for(s),
        start <= ts < te <= s.len(),
    ensures
        r == split_candidate(s, zones@, start as int, ts as int, te as int),
{
    reveal(split_candidate);
    if offs.chars[ts] == '.' && te == ts + 1 && probable_abbreviation_exec(offs, Ghost(s), start, ts) {
        return false;
    }
    let be = closing_run_end_exec(offs, Ghost(s), te);
    match first_zone_containing_exec(zones, offs.starts[ts]) {
        Some(z) => {
            if offs.starts[be] < z.span.end {
                false
            } else if z.kind == PunctuationSafeZoneKind::Parenthetical && !continues_after_byte_exec(
                offs,
                Ghost(s),
                z.span.end,
            ) {
                true
            } else {
                !continues_at_exec(offs, Ghost(s), be)
            }
        },
        None => true,
    }
}

proof fn lemma_scan_split(s: Seq<char>, zones: Seq<PunctuationSafeZone>, start: int, cursor: int)
    requires
        0 <= cursor < s.len(),
        spec_is_sentence_boundary(s[cursor]),
        split_candidate(s, zones, start, cursor, terminal_run_end(s, cursor + 1)),
    ensures
        sentence_scan(s, zones, start, cursor) == (if start < closing_run_end(s, terminal_run_end(s, cursor + 1)) {
            seq![sentence_of(s, start, closing_run_end(s, terminal_run_end(s, cursor + 1)))]
        } else {
            Seq::empty()
        }) + sentence_scan(
            s,
            zones,
            first_non_ws_from(s, closing_run_end(s, terminal_run_end(s, cursor + 1))),
            first_non_ws_from(s, closing_run_end(s, terminal_run_end(s, cursor + 1))),
        ),
{
}

/// Closes the sentence that a split at `cursor` ends, and returns where
/// the next one starts.
#[verifier::rlimit(60)]
fn emit_sentence(
    offs: &CharOffsets,
    Ghost(s): Ghost<Seq<char>>,
    zones: &Vec<PunctuationSafeZone>,
    spans: &mut Vec<SentenceSpan>,
    Ghost(total): Ghost<Seq<SentenceSpan>>,
    n: usize,
    start: usize,
    cursor: usize,
    te: usize,
) -> (ns: usize)
    requires
        offs.wf_for(s),
        n == s.len(),
        start <= cursor < n,
        spec_is_sentence_boundary(s[cursor as int]),
        te == terminal_run_end(s, cursor + 1),
        split_candidate(s, zones@, start as int, cursor as int, te as int),
        old(spans)@ + sentence_scan(s, zones@, start as int, cursor as int) == total,
        spans_increasing(old(spans)@),
        old(spans)@.len() > 0 ==> old(spans)@.last().end <= byte_offset(s, start as int),
        forall|k: int| 0 <= k < old(spans)@.len() ==> (#[trigger] old(spans)@[k]).end <= byte_offset(s, n as int),
    ensures
        cursor < ns <= n,
        final(spans)@ + sentence_scan(s, zones@, ns as int, ns as int) == total,
        spans_increasing(final(spans)@),
        final(spans)@.len() > 0 ==> final(spans)@.last().end <= byte_offset(s, ns as int),
        forall|k: int| 0 <= k < final(spans)@.len() ==> (#[trigger] final(spans)@[k]).end <= byte_offset(s, n as int),
{
    proof {
        lemma_run_bounds(s, cursor + 1);
    }
    let end = closing_run_end_exec(offs, Ghost(s), te);
    let ghost old_spans = spans@;
    if start < end {
        spans.push(SentenceSpan { start: offs.starts[start], end: offs.starts[end] });
    }
    let ns = first_non_ws_exec(offs, Ghost(s), end);
    proof {
        lemma_run_bounds(s, te as int);
        lemma_run_bounds(s, end as int);
        lemma_byte_offset_order(s);
        lemma_scan_split(s, zones@, start as int, cursor as int);
        if start < end {
            assert(spans@ =~= old_spans + seq![sentence_of(s, start as int, end as int)]);
            assert(byte_offset(s, start as int) < byte_offset(s, end as int));
            assert(byte_offset(s, end as int) <= byte_offset(s, ns as int));
        } else {
            assert(spans@ =~= old_spans + Seq::<SentenceSpan>::empty());
            assert(byte_offset(s, start as int) <= byte_offset(s, ns as int));
        }
        assert(old_spans + (if start < end {
            seq![sentence_of(s, start as int, end as int)]
        } else {
            Seq::empty()
        }) + sentence_scan(s, zones@, ns as int, ns as int) =~= spans@ + sentence_scan(
            s,
            zones@,
            ns as int,
            ns as int,
        ));
    }
    ns
}

#[verifier::rlimit(60)]
/// Splits the text into sentences at runs of `.`, `!`, `?`, `…` and line
/// breaks, skipping abbreviation and decimal periods and terminals inside
/// parenthetical or quoted zones unless the zone itself closes the
/// sentence.
pub fn sentence_spans(text: &str) -> (r: Vec<SentenceSpan>)
    ensures
        r@ == spec_sentence_spans(text@),
        spans_increasing(r@),
        forall|k: int| 0 <= k < r@.len() ==> (#[trigger] r@[k]).end <= crate::unicode::text_len(text@),
{
    let ghost s = text@;
    let offs = CharOffsets::new(text);
    proof {
        lemma_byte_offset_order(s);
    }
    let n = offs.chars.len();
    let zones = punctuation_safe_zone_records(text);
    let st = first_non_ws_exec(&offs, Ghost(s), 0);
    let mut spans: Vec<SentenceSpan> = Vec::new();
    if st >= n {
        return spans;
    }
    let ghost total = sentence_scan(s, zones@, st as int, st as int);
    let mut start = st;
    let mut cursor = st;
    while cursor < n
        invariant
            total == sentence_scan(s, zones@, st as int, st as int),
            offs.wf_for(s),
            n == s.len(),
            zones@ == spec_safe_zones(s),
            start <= cursor <= n,
            spans@ + sentence_scan(s, zones@, start as int, cursor as int) == sentence_scan(
                s,
                zones@,
                st as int,
                st as int,
            ),
            spans_increasing(spans@),
            spans@.len() > 0 ==> spans@.last().end <= byte_offset(s, start as int),
            forall|k: int| 0 <= k < spans@.len() ==> (#[trigger] spans@[k]).end <= byte_offset(s, n as int),
        decreases n - cursor,
    {
        let ch = offs.chars[cursor];
        if !crate::text::is_sentence_boundary(ch) {
            cursor = cursor + 1;
            continue;
        }
        let te = terminal_run_end_exec(&offs, Ghost(s), cursor + 1);
        if !split_candidate_exec(&offs, Ghost(s), zones.as_slice(), start, cursor, te) {
            cursor = te;
            continue;
        }
        let ns = emit_sentence(&offs, Ghost(s), &zones, &mut spans, Ghost(total), n, start, cursor, te);
        start = ns;
        cursor = ns;
    }
    if start < n {
        spans.push(SentenceSpan { start: offs.starts[start], end: offs.starts[n] });
    }
    assert(spans@ =~= sentence_scan(s, zones@, st as int, st as int));
    spans
}

/// The sentence that holds the byte offset.
pub fn sentence_span_at(text: &str, byte_index: usize) -> (r: Option<SentenceSpan>)
    ensures
        r matches Some(sp) ==> exists|k: int|
            0 <= k < spec_sentence_spans(text@).len() && spec_sentence_spans(text@)[k] == sp
                && sp.start <= byte_index < sp.end && forall|j: int|
                0 <= j < k ==> !((#[trigger] spec_sentence_spans(text@)[j]).start <= byte_index
                    < spec_sentence_spans(text@)[j].end),
        r is None ==> forall|j: int|
            0 <= j < spec_sentence_spans(text@).len() ==> !((#[trigger] spec_sentence_spans(
                text@,
            )[j]).start <= byte_index < spec_sentence_spans(text@)[j].end),
{
    let spans = sentence_spans(text);
    let mut k: usize = 0;
    while k < spans.len()
        invariant
            spans@ == spec_sentence_spans(text@),
            k <= spans@.len(),
            forall|j: int| 0 <= j < k ==> !((#[trigger] spans@[j]).start <= byte_index < spans@[j].end),
        decreases spans@.len() - k,
    {
        if spans[k].contains(byte_index) {
            return Some(spans[k]);
        }
        k = k + 1;
    }
    None
}

/// The first token at or after `i` whose kind is (`want`) or is not
/// (`!want`) `kind`.
pub open spec fn first_token_from(toks: Seq<Token>, i: int, kind: TokenKind, want: bool) -> Option<int>
    decreases toks.len() - i,
{
    if i < 0 || i >= toks.len() {
        None
    } else if (toks[i].kind == kind) == want {
        Some(i)
    } else {
        first_token_from(toks, i + 1, kind, want)
    }
}

/// The last token before `i` whose kind is (`want`) or is not (`!want`)
/// `kind`.
pub open spec fn last_token_before(toks: Seq<Token>, i: int, kind: TokenKind, want: bool) -> Option<int>
    decreases i,
{
    if i <= 0 || i > toks.len() {
        None
    } else if (toks[i - 1].kind == kind) == want {
        Some(i - 1)
    } else {
        last_token_before(toks, i - 1, kind, want)
    }
}

pub open spec fn clamp(idx: int, len: int) -> int {
    if idx < len {
        idx
    } else {
        len
    }
}

fn first_token_from_exec(tokens: &[Token], i: usize, kind: TokenKind, want: bool) -> (r: Option<usize>)
    ensures
        r == (match first_token_from(tokens@, i as int, kind, want) {
            Some(j) => Some(j as usize),
            None => None,
        }),
        r matches Some(j) ==> i <= j < tokens@.len(),
        first_token_from(tokens@, i as int, kind, want) matches Some(j) ==> i <= j < tokens@.len(),
{
    let mut j = i;
    while j < tokens.len()
        invariant
            i <= j,
            first_token_from(tokens@, i as int, kind, want) == first_token_from(tokens@, j as int, kind, want),
        decreases tokens@.len() - j,
    {
        if (tokens[j].kind == kind) == want {
            return Some(j);
        }
        j = j + 1;
    }
    None
}

fn last_token_before_exec(tokens: &[Token], i: usize, kind: TokenKind, want: bool) -> (r: Option<usize>)
    requires
        i <= tokens@.len(),
    ensures
        r == (match last_token_before(tokens@, i as int, kind, want) {
            Some(j) => Some(j as usize),
            None => None,
        }),
        r matches Some(j) ==> j < i,
        last_token_before(tokens@, i as int, kind, want) matches Some(j) ==> 0 <= j < i,
{
    let mut j = i;
    while j > 0
        invariant
            j <= i <= tokens@.len(),
            last_token_before(tokens@, i as int, kind, want) == last_token_before(tokens@, j as int, kind, want),
        decreases j,
    {
        if (tokens[j - 1].kind == kind) == want {
            return Some(j - 1);
        }
        j = j - 1;
    }
    None
}

/// Index of the last non-white-space token before `idx`.
pub fn previous_non_space_token(tokens: &[Token], idx: usize) -> (r: Option<usize>)
    ensures
        r == (match last_token_before(tokens@, clamp(idx as int, tokens@.len() as int), TokenKind::Whitespace, false) {
            Some(j) => Some(j as usize),
            None => None,
        }),
        r matches Some(j) ==> j < idx && j < tokens@.len(),
        last_token_before(tokens@, clamp(idx as int, tokens@.len() as int), TokenKind::Whitespace, false) matches Some(j) ==> 0 <= j < tokens@.len() && j < idx,
{
    let end = if idx < tokens.len() { idx } else { tokens.len() };
    last_token_before_exec(tokens, end, TokenKind::Whitespace, false)
}

/// Index of the first non-white-space token after `idx`.
pub fn next_non_space_token(tokens: &[Token], idx: usize) -> (r: Option<usize>)
    ensures
        r == (match first_token_from(tokens@, idx as int + 1, TokenKind::Whitespace, false) {
            Some(j) => Some(j as usize),
            None => None,
        }),
        r matches Some(j) ==> idx < j < tokens@.len(),
        first_token_from(tokens@, idx as int + 1, TokenKind::Whitespace, false) matches Some(j) ==> idx < j < tokens@.len(),
{
    if idx >= tokens.len() {
        return None;
    }
    first_token_from_exec(tokens, idx + 1, TokenKind::Whitespace, false)
}

/// Index of the last word token before `idx`.
pub fn previous_word_token(tokens: &[Token], idx: usize) -> (r: Option<usize>)
    ensures
        r == (match last_token_before(tokens@, clamp(idx as int, tokens@.len() as int), TokenKind::Word, true) {
            Some(j) => Some(j as usize),
            None => None,
        }),
        r matches Some(j) ==> j < idx && j < tokens@.len(),
        last_token_before(tokens@, clamp(idx as int, tokens@.len() as int), TokenKind::Word, true) matches Some(j) ==> 0 <= j < tokens@.len() && j < idx,
{
    let end = if idx < tokens.len() { idx } else { tokens.len() };
    last_token_before_exec(tokens, end, TokenKind::Word, true)
}

/// Index of the first word token after `idx`.
pub fn next_word_token(tokens: &[Token], idx: usize) -> (r: Option<usize>)
    ensures
        r == (match first_token_from(tokens@, idx as int + 1, TokenKind::Word, true) {
            Some(j) => Some(j as usize),
            None => None,
        }),
        r matches Some(j) ==> idx < j < tokens@.len(),
        first_token_from(tokens@, idx as int + 1, TokenKind::Word, true) matches Some(j) ==> idx < j < tokens@.len(),
{
    if idx >= tokens.len() {
        return None;
    }
    first_token_from_exec(tokens, idx + 1, TokenKind::Word, true)
}

/// The last character of a string.
pub fn last_char(value: &String) -> (r: Option<char>)
    ensures
        r == (if value@.len() == 0 {
            None
        } else {
            Some(value@.last())
        }),
{
    let chars = crate::unicode::str_chars(value.as_str());
    if chars.len() == 0 {
        None
    } else {
        Some(chars[chars.len() - 1])
    }
}

/// Walking back over closing brackets and quotes, the previous token ends
/// with a comma.
pub open spec fn comma_before(toks: Seq<Token>, cursor: int) -> bool
    decreases cursor,
{
    match last_token_before(toks, clamp(cursor, toks.len() as int), TokenKind::Whitespace, false) {
        None => false,
        Some(p) => {
            if 0 <= p < cursor {
                let t = toks[p].text@;
                if t.len() == 0 {
                    false
                } else if spec_is_closing_boundary(t.last()) {
                    comma_before(toks, p)
                } else {
                    t.last() == ','
                }
            } else {
                false
            }
        },
    }
}

/// Walking back over opening brackets and quotes, nothing precedes the token
/// but a sentence terminal or the start of the text.
pub open spec fn sentence_initial(toks: Seq<Token>, cursor: int) -> bool
    decreases cursor,
{
    match last_token_before(toks, clamp(cursor, toks.len() as int), TokenKind::Whitespace, false) {
        None => true,
        Some(p) => {
            if 0 <= p < cursor {
                let t = toks[p].text@;
                if t.len() == 0 {
                    false
                } else if spec_is_opening_boundary(t.last()) {
                    sentence_initial(toks, p)
                } else {
                    spec_is_sentence_boundary(t.last())
                }
            } else {
                false
            }
        },
    }
}

pub fn has_comma_before_marker(tokens: &[Token], idx: usize) -> (r: bool)
    ensures
        r == comma_before(tokens@, idx as int),
{
    let mut cursor = idx;
    loop
        invariant
            comma_before(tokens@, idx as int) == comma_before(tokens@, cursor as int),
        decreases cursor,
    {
        match previous_non_space_token(tokens, cursor) {
            None => {
                return false;
            },
            Some(p) => {
                match last_char(&tokens[p].text) {
                    None => {
                        return false;
                    },
                    Some(ch) => {
                        assert(tokens@[p as int].text@.last() == ch);
                        assert(last_token_before(tokens@, clamp(cursor as int, tokens@.len() as int), TokenKind::Whitespace, false) == Some(p as int));
                        if is_closing_boundary_punctuation(ch) {
                            assert(comma_before(tokens@, cursor as int) == comma_before(tokens@, p as int));
                            cursor = p;
                        } else {
                            assert(comma_before(tokens@, cursor as int) == (ch == ','));
                            return ch == ',';
                        }
                    },
                }
            },
        }
    }
}

pub fn is_sentence_initial(tokens: &[Token], idx: usize) -> (r: bool)
    ensures
        r == sentence_initial(tokens@, idx as int),
{
    let mut cursor = idx;
    loop
        invariant
            sentence_initial(tokens@, idx as int) == sentence_initial(tokens@, cursor as int),
        decreases cursor,
    {
        match previous_non_space_token(tokens, cursor) {
            None => {
                return true;
            },
            Some(p) => {
                match last_char(&tokens[p].text) {
                    None => {
                        return false;
                    },
                    Some(ch) => {
                        if is_opening_boundary_punctuation(ch) {
                            cursor = p;
                        } else {
                            return crate::text::is_sentence_boundary(ch);
                        }
                    },
                }
            },
        }
    }
}

pub open spec fn last_of(t: Token) -> Option<char> {
    if t.text@.len() == 0 {
        None
    } else {
        Some(t.text@.last())
    }
}

/// The punctuation just before token `idx`.
pub open spec fn spec_punctuation_context(toks: Seq<Token>, idx: int) -> PunctuationContext {
    match last_token_before(toks, clamp(idx, toks.len() as int), TokenKind::Whitespace, false) {
        None => PunctuationContext {
            has_comma_before: false,
            preceded_by_sentence_terminal: false,
            preceded_by_opening_delimiter: false,
            preceded_by_clause_separator: false,
        },
        Some(p) => PunctuationContext {
            has_comma_before: comma_before(toks, idx),
            preceded_by_sentence_terminal: (last_of(toks[p]) matches Some(c) && spec_is_sentence_boundary(c)),
            preceded_by_opening_delimiter: (last_of(toks[p]) matches Some(c) && spec_is_opening_boundary(c)),
            preceded_by_clause_separator: (last_of(toks[p]) matches Some(c) && spec_is_clause_separator(c)),
        },
    }
}

pub fn punctuation_context_before(tokens: &[Token], idx: usize) -> (r: PunctuationContext)
    ensures
        r == spec_punctuation_context(tokens@, idx as int),
{
    match previous_non_space_token(tokens, idx) {
        None => PunctuationContext {
            has_comma_before: false,
            preceded_by_sentence_terminal: false,
            preceded_by_opening_delimiter: false,
            preceded_by_clause_separator: false,
        },
        Some(p) => {
            let last = last_char(&tokens[p].text);
            let (t, o, c) = match last {
                Some(ch) => (crate::text::is_sentence_boundary(ch), is_opening_boundary_punctuation(ch), is_clause_separator(ch)),
                None => (false, false, false),
            };
            PunctuationContext {
                has_comma_before: has_comma_before_marker(tokens, idx),
                preceded_by_sentence_terminal: t,
                preceded_by_opening_delimiter: o,
                preceded_by_clause_separator: c,
            }
        },
    }
}

/// The token at `idx` with its nearest non-white-space neighbours.
pub fn token_window<'s>(tokens: &'s [Token], idx: usize) -> (r: Option<TokenWindow<'s>>)
    ensures
        idx >= tokens@.len() ==> r is None,
        idx < tokens@.len() ==> (r matches Some(w) && w.current == &tokens@[idx as int]
            && w.previous == (match spec_previous_non_ws_index(tokens@, idx as int) {
            Some(j) => Some(&tokens@[j]),
            None => None,
        }) && w.next == (match spec_next_non_ws_index(tokens@, idx as int) {
            Some(j) => Some(&tokens@[j]),
            None => None,
        })),
{
    if idx >= tokens.len() {
        return None;
    }
    Some(TokenWindow { previous: previous_non_ws(tokens, idx), current: &tokens[idx], next: next_non_ws(tokens, idx) })
}

} // verus!
