use vstd::prelude::*;
use crate::text::Span;
use crate::unicode::{byte_offset, lemma_byte_offset_order, CharOffsets};
use crate::syntax::model::{
    DelimiterPair, DirectSpeechSpan, ParentheticalSpan, PunctuationSafeZone,
    PunctuationSafeZoneKind, SyntaxConfidence, SyntaxSpan, SyntaxSpanKind,
};

verus! {

broadcast use vstd::seq_lib::group_seq_properties;

pub open spec fn pairs_close(pairs: Seq<DelimiterPair>, c: char) -> bool {
    exists|k: int| 0 <= k < pairs.len() && (#[trigger] pairs[k]).close == c
}

pub open spec fn pairs_open(pairs: Seq<DelimiterPair>, c: char) -> bool {
    exists|k: int| 0 <= k < pairs.len() && (#[trigger] pairs[k]).open == c
}

/// The first pair that opens with `c`.
pub open spec fn first_opening_pair(pairs: Seq<DelimiterPair>, c: char) -> Option<DelimiterPair>
    decreases pairs.len(),
{
    if pairs.len() == 0 {
        None
    } else if pairs[0].open == c {
        Some(pairs[0])
    } else {
        first_opening_pair(pairs.drop_first(), c)
    }
}

/// Open delimiters (pair and character index) and, per opening index, the
/// index of the matching close and the pair.
pub struct DelimState {
    pub stack: Seq<(DelimiterPair, usize)>,
    pub slots: Seq<Option<(usize, DelimiterPair)>>,
}

/// One step of delimiter matching at character `i` holding `c`: a close that
/// matches the innermost open delimiter pops it and records the match; a
/// close that can not open is skipped; an opening character is pushed.
pub open spec fn delim_step(pairs: Seq<DelimiterPair>, c: char, i: usize, st: DelimState) -> DelimState {
    if pairs_close(pairs, c) && st.stack.len() > 0 && st.stack.last().0.close == c {
        let (pair, o) = st.stack.last();
        DelimState { stack: st.stack.drop_last(), slots: st.slots.update(o as int, Some((i, pair))) }
    } else if pairs_close(pairs, c) && !pairs_open(pairs, c) {
        st
    } else {
        match first_opening_pair(pairs, c) {
            Some(p) => DelimState { stack: st.stack.push((p, i)), slots: st.slots },
            None => st,
        }
    }
}

/// The matching state after the first `i` characters of `s`.
pub open spec fn delim_state(s: Seq<char>, pairs: Seq<DelimiterPair>, i: int) -> DelimState
    decreases i,
{
    if i <= 0 {
        DelimState { stack: Seq::empty(), slots: Seq::new(s.len(), |k: int| None) }
    } else {
        delim_step(pairs, s[i - 1], (i - 1) as usize, delim_state(s, pairs, i - 1))
    }
}

/// The matched delimiter spans among the opening positions `0..i`, ordered
/// by opening position: the whole span, the inner span and the pair.
pub open spec fn delim_output(s: Seq<char>, slots: Seq<Option<(usize, DelimiterPair)>>, i: int) -> Seq<(Span, Span, DelimiterPair)>
    decreases i,
{
    if i <= 0 {
        Seq::empty()
    } else {
        let prev = delim_output(s, slots, i - 1);
        match slots[i - 1] {
            Some((c, p)) => prev.push(
                (
                    Span { start: byte_offset(s, i - 1) as usize, end: byte_offset(s, c + 1) as usize },
                    Span { start: byte_offset(s, i) as usize, end: byte_offset(s, c as int) as usize },
                    p,
                ),
            ),
            None => prev,
        }
    }
}

/// The delimiter spans of `s` for the pairs, ordered by start.
pub open spec fn spec_delimiter_spans(s: Seq<char>, pairs: Seq<DelimiterPair>) -> Seq<(Span, Span, DelimiterPair)> {
    delim_output(s, delim_state(s, pairs, s.len() as int).slots, s.len() as int)
}

fn any_close(pairs: &[DelimiterPair], c: char) -> (r: bool)
    ensures
        r == pairs_close(pairs@, c),
{
    let mut k: usize = 0;
    while k < pairs.len()
        invariant
            k <= pairs@.len(),
            forall|j: int| 0 <= j < k ==> (#[trigger] pairs@[j]).close != c,
        decreases pairs@.len() - k,
    {
        if pairs[k].close == c {
            return true;
        }
        k = k + 1;
    }
    false
}

fn any_open(pairs: &[DelimiterPair], c: char) -> (r: bool)
    ensures
        r == pairs_open(pairs@, c),
{
    let mut k: usize = 0;
    while k < pairs.len()
        invariant
            k <= pairs@.len(),
            forall|j: int| 0 <= j < k ==> (#[trigger] pairs@[j]).open != c,
        decreases pairs@.len() - k,
    {
        if pairs[k].open == c {
            return true;
        }
        k = k + 1;
    }
    false
}

fn find_opening(pairs: &[DelimiterPair], c: char) -> (r: Option<DelimiterPair>)
    ensures
        r == first_opening_pair(pairs@, c),
{
    let mut k: usize = 0;
    while k < pairs.len()
        invariant
            k <= pairs@.len(),
            first_opening_pair(pairs@, c) == first_opening_pair(pairs@.skip(k as int), c),
        decreases pairs@.len() - k,
    {
        assert(pairs@.skip(k as int).drop_first() =~= pairs@.skip(k as int + 1));
        if pairs[k].open == c {
            return Some(pairs[k]);
        }
        k = k + 1;
    }
    None
}

/// Matches delimiter pairs with a stack and returns each matched span with
/// its inner span and pair, ordered by start.
fn delimiter_spans(text: &str, pairs: &[DelimiterPair]) -> (r: Vec<(Span, Span, DelimiterPair)>)
    ensures
        r@ == spec_delimiter_spans(text@, pairs@),
{
    let offs = CharOffsets::new(text);
    let ghost s = text@;
    let n = offs.chars.len();
    let mut stack: Vec<(DelimiterPair, usize)> = Vec::new();
    let mut slots: Vec<Option<(usize, DelimiterPair)>> = Vec::new();
    let mut k: usize = 0;
    while k < n
        invariant
            k <= n,
            slots@ == Seq::new(k as nat, |j: int| None::<(usize, DelimiterPair)>),
        decreases n - k,
    {
        slots.push(None);
        k = k + 1;
        assert(slots@ =~= Seq::new(k as nat, |j: int| None::<(usize, DelimiterPair)>));
    }
    let mut i: usize = 0;
    while i < n
        invariant
            offs.wf_for(s),
            n == s.len(),
            i <= n,
            stack@ == delim_state(s, pairs@, i as int).stack,
            slots@ == delim_state(s, pairs@, i as int).slots,
            slots@.len() == n,
            forall|j: int| 0 <= j < stack@.len() ==> (#[trigger] stack@[j]).1 < i,
            forall|o: int|
                0 <= o < n ==> (#[trigger] slots@[o] matches Some((c, p)) ==> o < c < i),
        decreases n - i,
    {
        let c = offs.chars[i];
        let closes = any_close(pairs, c);
        if closes && stack.len() > 0 && stack[stack.len() - 1].0.close == c {
            let (pair, o) = stack.pop().unwrap();
            slots.set(o, Some((i, pair)));
        } else if closes && !any_open(pairs, c) {
        } else {
            match find_opening(pairs, c) {
                Some(p) => {
                    stack.push((p, i));
                },
                None => {},
            }
        }
        i = i + 1;
    }
    let mut out: Vec<(Span, Span, DelimiterPair)> = Vec::new();
    let mut o: usize = 0;
    proof {
        lemma_byte_offset_order(s);
    }
    while o < n
        invariant
            offs.wf_for(s),
            n == s.len(),
            o <= n,
            slots@ == delim_state(s, pairs@, n as int).slots,
            slots@.len() == n,
            forall|j: int| 0 <= j < n ==> (#[trigger] slots@[j] matches Some((c, p)) ==> j < c < n),
            out@ == delim_output(s, slots@, o as int),
        decreases n - o,
    {
        match slots[o] {
            Some((c, p)) => {
                let whole = Span { start: offs.starts[o], end: offs.starts[c + 1] };
                let inner = Span { start: offs.starts[o + 1], end: offs.starts[c] };
                out.push((whole, inner, p));
            },
            None => {},
        }
        o = o + 1;
    }
    out
}

pub open spec fn paren_pairs() -> Seq<DelimiterPair> {
    seq![
        DelimiterPair { open: '(', close: ')' },
        DelimiterPair { open: '[', close: ']' },
        DelimiterPair { open: '{', close: '}' },
    ]
}

pub open spec fn quote_pairs() -> Seq<DelimiterPair> {
    seq![
        DelimiterPair { open: '\u{AB}', close: '\u{BB}' },
        DelimiterPair { open: '\u{201E}', close: '\u{201C}' },
        DelimiterPair { open: '\u{201C}', close: '\u{201D}' },
        DelimiterPair { open: '"', close: '"' },
    ]
}

pub open spec fn as_parenthetical(t: (Span, Span, DelimiterPair)) -> ParentheticalSpan {
    ParentheticalSpan { span: t.0, inner_span: t.1, delimiter: t.2, confidence: SyntaxConfidence::Certain }
}

pub open spec fn as_direct_speech(t: (Span, Span, DelimiterPair)) -> DirectSpeechSpan {
    DirectSpeechSpan {
        quote_span: t.0,
        inner_span: t.1,
        opening_quote: t.2.open,
        closing_quote: t.2.close,
        confidence: SyntaxConfidence::Strong,
    }
}

pub open spec fn spec_parenthetical_spans(s: Seq<char>) -> Seq<ParentheticalSpan> {
    spec_delimiter_spans(s, paren_pairs()).map_values(|t: (Span, Span, DelimiterPair)| as_parenthetical(t))
}

pub open spec fn spec_direct_speech_spans(s: Seq<char>) -> Seq<DirectSpeechSpan> {
    spec_delimiter_spans(s, quote_pairs()).map_values(|t: (Span, Span, DelimiterPair)| as_direct_speech(t))
}

/// Parenthesised, bracketed and braced spans of the text.
pub fn parenthetical_spans(text: &str) -> (r: Vec<ParentheticalSpan>)
    ensures
        r@ == spec_parenthetical_spans(text@),
{
    let pairs = vec![DelimiterPair::new('(', ')'), DelimiterPair::new('[', ']'), DelimiterPair::new('{', '}')];
    assert(pairs@ =~= paren_pairs());
    let spans = delimiter_spans(text, pairs.as_slice());
    let mut out: Vec<ParentheticalSpan> = Vec::new();
    let mut i: usize = 0;
    while i < spans.len()
        invariant
            i <= spans@.len(),
            out@ == spans@.take(i as int).map_values(|t: (Span, Span, DelimiterPair)| as_parenthetical(t)),
        decreases spans@.len() - i,
    {
        let (span, inner_span, delimiter) = spans[i];
        out.push(ParentheticalSpan { span, inner_span, delimiter, confidence: SyntaxConfidence::Certain });
        i = i + 1;
        assert(out@ =~= spans@.take(i as int).map_values(|t: (Span, Span, DelimiterPair)| as_parenthetical(t)));
    }
    assert(spans@.take(spans@.len() as int) =~= spans@);
    out
}

/// Quoted spans of the text (guillemets, German and English quotes, and
/// straight double quotes).
pub fn direct_speech_spans(text: &str) -> (r: Vec<DirectSpeechSpan>)
    ensures
        r@ == spec_direct_speech_spans(text@),
{
    let pairs = vec![
        DelimiterPair::new('\u{AB}', '\u{BB}'),
        DelimiterPair::new('\u{201E}', '\u{201C}'),
        DelimiterPair::new('\u{201C}', '\u{201D}'),
        DelimiterPair::new('"', '"'),
    ];
    assert(pairs@ =~= quote_pairs());
    let spans = delimiter_spans(text, pairs.as_slice());
    let mut out: Vec<DirectSpeechSpan> = Vec::new();
    let mut i: usize = 0;
    while i < spans.len()
        invariant
            i <= spans@.len(),
            out@ == spans@.take(i as int).map_values(|t: (Span, Span, DelimiterPair)| as_direct_speech(t)),
        decreases spans@.len() - i,
    {
        let (span, inner_span, delimiter) = spans[i];
        out.push(DirectSpeechSpan {
            quote_span: span,
            inner_span,
            opening_quote: delimiter.open,
            closing_quote: delimiter.close,
            confidence: SyntaxConfidence::Strong,
        });
        i = i + 1;
        assert(out@ =~= spans@.take(i as int).map_values(|t: (Span, Span, DelimiterPair)| as_direct_speech(t)));
    }
    assert(spans@.take(spans@.len() as int) =~= spans@);
    out
}

pub open spec fn paren_zone(p: ParentheticalSpan) -> PunctuationSafeZone {
    PunctuationSafeZone {
        span: p.span,
        inner_span: p.inner_span,
        kind: PunctuationSafeZoneKind::Parenthetical,
        confidence: p.confidence,
    }
}

pub open spec fn speech_zone(d: DirectSpeechSpan) -> PunctuationSafeZone {
    PunctuationSafeZone {
        span: d.quote_span,
        inner_span: d.inner_span,
        kind: PunctuationSafeZoneKind::DirectSpeech,
        confidence: d.confidence,
    }
}

/// `a` comes no later than `b` in the order by (start, end).
pub open spec fn zone_le(a: PunctuationSafeZone, b: PunctuationSafeZone) -> bool {
    a.span.start < b.span.start || (a.span.start == b.span.start && a.span.end <= b.span.end)
}

/// Merges two zone lists, each ordered by (start, end), into one; on equal
/// keys the first list comes first.
pub open spec fn merge_zones(a: Seq<PunctuationSafeZone>, b: Seq<PunctuationSafeZone>) -> Seq<PunctuationSafeZone>
    decreases a.len() + b.len(),
{
    if a.len() == 0 {
        b
    } else if b.len() == 0 {
        a
    } else if zone_le(a[0], b[0]) {
        seq![a[0]] + merge_zones(a.drop_first(), b)
    } else {
        seq![b[0]] + merge_zones(a, b.drop_first())
    }
}

/// All safe zones of the text: parentheticals and quoted speech, ordered by
/// span.
pub open spec fn spec_safe_zones(s: Seq<char>) -> Seq<PunctuationSafeZone> {
    merge_zones(
        spec_parenthetical_spans(s).map_values(|p: ParentheticalSpan| paren_zone(p)),
        spec_direct_speech_spans(s).map_values(|d: DirectSpeechSpan| speech_zone(d)),
    )
}

fn zone_le_exec(a: &PunctuationSafeZone, b: &PunctuationSafeZone) -> (r: bool)
    ensures
        r == zone_le(*a, *b),
{
    a.span.start < b.span.start || (a.span.start == b.span.start && a.span.end <= b.span.end)
}

fn merge_zone_lists(a: &Vec<PunctuationSafeZone>, b: &Vec<PunctuationSafeZone>) -> (r: Vec<PunctuationSafeZone>)
    ensures
        r@ == merge_zones(a@, b@),
{
    let mut out: Vec<PunctuationSafeZone> = Vec::new();
    let mut i: usize = 0;
    let mut j: usize = 0;
    while i < a.len() || j < b.len()
        invariant
            i <= a@.len(),
            j <= b@.len(),
            out@ + merge_zones(a@.skip(i as int), b@.skip(j as int)) == merge_zones(a@, b@),
        decreases a@.len() - i + b@.len() - j,
    {
        let ghost rest = merge_zones(a@.skip(i as int), b@.skip(j as int));
        if i < a.len() && (j >= b.len() || zone_le_exec(&a[i], &b[j])) {
            proof {
                assert(a@.skip(i as int).drop_first() =~= a@.skip(i as int + 1));
                if j < b@.len() {
                    assert(rest == seq![a@[i as int]] + merge_zones(a@.skip(i as int + 1), b@.skip(j as int)));
                } else {
                    assert(b@.skip(j as int) =~= Seq::<PunctuationSafeZone>::empty());
                    assert(a@.skip(i as int) =~= seq![a@[i as int]] + a@.skip(i as int + 1));
                }
            }
            out.push(a[i]);
            i = i + 1;
            assert(out@ + merge_zones(a@.skip(i as int), b@.skip(j as int)) =~= merge_zones(a@, b@));
        } else {
            proof {
                assert(b@.skip(j as int).drop_first() =~= b@.skip(j as int + 1));
                if i < a@.len() {
                    assert(rest == seq![b@[j as int]] + merge_zones(a@.skip(i as int), b@.skip(j as int + 1)));
                } else {
                    assert(a@.skip(i as int) =~= Seq::<PunctuationSafeZone>::empty());
                    assert(b@.skip(j as int) =~= seq![b@[j as int]] + b@.skip(j as int + 1));
                    assert(merge_zones(a@.skip(i as int), b@.skip(j as int + 1)) == b@.skip(j as int + 1));
                }
            }
            out.push(b[j]);
            j = j + 1;
            assert(out@ + merge_zones(a@.skip(i as int), b@.skip(j as int)) =~= merge_zones(a@, b@));
        }
    }
    assert(a@.skip(i as int) =~= Seq::<PunctuationSafeZone>::empty());
    assert(b@.skip(j as int) =~= Seq::<PunctuationSafeZone>::empty());
    assert(out@ =~= merge_zones(a@, b@));
    out
}

/// Parentheticals and quoted speech as safe zones, ordered by span.
pub fn punctuation_safe_zone_records(text: &str) -> (r: Vec<PunctuationSafeZone>)
    ensures
        r@ == spec_safe_zones(text@),
{
    let parens = parenthetical_spans(text);
    let speech = direct_speech_spans(text);
    let mut a: Vec<PunctuationSafeZone> = Vec::new();
    let mut i: usize = 0;
    while i < parens.len()
        invariant
            i <= parens@.len(),
            a@ == parens@.take(i as int).map_values(|p: ParentheticalSpan| paren_zone(p)),
        decreases parens@.len() - i,
    {
        let p = parens[i];
        a.push(PunctuationSafeZone {
            span: p.span,
            inner_span: p.inner_span,
            kind: PunctuationSafeZoneKind::Parenthetical,
            confidence: p.confidence,
        });
        i = i + 1;
        assert(a@ =~= parens@.take(i as int).map_values(|p: ParentheticalSpan| paren_zone(p)));
    }
    assert(parens@.take(parens@.len() as int) =~= parens@);
    let mut b: Vec<PunctuationSafeZone> = Vec::new();
    let mut j: usize = 0;
    while j < speech.len()
        invariant
            j <= speech@.len(),
            b@ == speech@.take(j as int).map_values(|d: DirectSpeechSpan| speech_zone(d)),
        decreases speech@.len() - j,
    {
        let d = speech[j];
        b.push(PunctuationSafeZone {
            span: d.quote_span,
            inner_span: d.inner_span,
            kind: PunctuationSafeZoneKind::DirectSpeech,
            confidence: d.confidence,
        });
        j = j + 1;
        assert(b@ =~= speech@.take(j as int).map_values(|d: DirectSpeechSpan| speech_zone(d)));
    }
    assert(speech@.take(speech@.len() as int) =~= speech@);
    merge_zone_lists(&a, &b)
}

pub open spec fn zone_as_syntax_span(z: PunctuationSafeZone) -> SyntaxSpan {
    SyntaxSpan {
        span: z.span,
        start_token: None,
        end_token: None,
        kind: SyntaxSpanKind::PunctuationSafeZone,
        confidence: z.confidence,
    }
}

/// The safe zones as syntax spans without token ranges.
pub fn punctuation_safe_zones(text: &str) -> (r: Vec<SyntaxSpan>)
    ensures
        r@ == spec_safe_zones(text@).map_values(|z: PunctuationSafeZone| zone_as_syntax_span(z)),
{
    let zones = punctuation_safe_zone_records(text);
    let mut out: Vec<SyntaxSpan> = Vec::new();
    let mut i: usize = 0;
    while i < zones.len()
        invariant
            i <= zones@.len(),
            out@ == zones@.take(i as int).map_values(|z: PunctuationSafeZone| zone_as_syntax_span(z)),
        decreases zones@.len() - i,
    {
        let z = zones[i];
        out.push(SyntaxSpan {
            span: z.span,
            start_token: None,
            end_token: None,
            kind: SyntaxSpanKind::PunctuationSafeZone,
            confidence: z.confidence,
        });
        i = i + 1;
        assert(out@ =~= zones@.take(i as int).map_values(|z: PunctuationSafeZone| zone_as_syntax_span(z)));
    }
    assert(zones@.take(zones@.len() as int) =~= zones@);
    out
}

/// Some zone strictly encloses the byte offset.
pub open spec fn inside_some_zone(zones: Seq<PunctuationSafeZone>, b: usize) -> bool {
    exists|k: int| 0 <= k < zones.len() && (#[trigger] zones[k]).span.start < b && b < zones[k].span.end
}

pub fn inside_any_zone(zones: &[PunctuationSafeZone], b: usize) -> (r: bool)
    ensures
        r == inside_some_zone(zones@, b),
{
    let mut k: usize = 0;
    while k < zones.len()
        invariant
            k <= zones@.len(),
            forall|j: int| 0 <= j < k ==> !((#[trigger] zones@[j]).span.start < b && b < zones@[j].span.end),
        decreases zones@.len() - k,
    {
        if zones[k].span.start < b && b < zones[k].span.end {
            return true;
        }
        k = k + 1;
    }
    false
}

/// Whether the byte offset lies strictly inside a parenthetical or quoted
/// span.
pub fn is_inside_punctuation_safe_zone(text: &str, byte_index: usize) -> (r: bool)
    ensures
        r == inside_some_zone(spec_safe_zones(text@), byte_index),
{
    let zones = punctuation_safe_zone_records(text);
    inside_any_zone(zones.as_slice(), byte_index)
}

pub fn is_inside_quotes_or_parentheses(text: &str, byte_index: usize) -> (r: bool)
    ensures
        r == inside_some_zone(spec_safe_zones(text@), byte_index),
{
    is_inside_punctuation_safe_zone(text, byte_index)
}

} // verus!
