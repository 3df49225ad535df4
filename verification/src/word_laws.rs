use vstd::prelude::*;
use crate::readings::{Case, MorphAnalysis, Number};
use crate::text::{is_tokenization, lower_seq, spec_is_ru_punctuation, spec_is_fullwidth_digit, spec_is_sentence_boundary, Token, TokenKind};
use crate::unicode::{
    byte_offset, spec_is_ascii_digit, spec_is_ascii_punctuation, spec_is_whitespace, unicode_alphabetic,
};
use crate::syntax::model::{PunctuationSafeZone, SentenceSpan};
use crate::syntax::safe_zones::spec_safe_zones;
use crate::syntax::sentences::{
    closing_run_end, first_non_ws_from, first_zone_containing, lemma_run_bounds, sentence_scan, spec_sentence_spans,
    split_candidate, terminal_run_end,
};
use crate::syntax::government::MorphCompatibility;
use crate::syntax::quantities::{spec_numeral_class, NumeralComponentClass};
use crate::syntax::numeral_government::spec_quantity_compatibility;
use crate::syntax::markers::{
    default_markers, lower_text, spec_find_clause_marker, spec_marker_kind, spec_non_initial_part_of_any,
    string_views,
};
use crate::syntax::model::ClauseMarkerKind;
use crate::syntax::coordination::{conjunction_at, member_at, spec_is_conjunction};

verus! {

/// The paucal numeral words "два", "две", "три", "четыре".
pub open spec fn is_paucal_word(w: Seq<char>) -> bool {
    w == "два"@ || w == "две"@ || w == "три"@ || w == "четыре"@
}

/// Every paucal numeral word, in any letter case, is of the paucal class.
pub proof fn law_paucal_numerals_are_paucal(surface: Seq<char>)
    requires
        is_paucal_word(lower_seq(surface)),
    ensures
        spec_numeral_class(lower_seq(surface)) == NumeralComponentClass::UnitPaucal,
{
    reveal_strlit("один");
    reveal_strlit("одна");
    reveal_strlit("одно");
    reveal_strlit("одни");
    reveal_strlit("два");
    reveal_strlit("две");
    reveal_strlit("три");
    reveal_strlit("четыре");
    let w = lower_seq(surface);
    assert(w.len() == 3 || w.len() == 6);
    assert(w != "один"@ && w != "одна"@ && w != "одно"@ && w != "одни"@) by {
        if w == "один"@ || w == "одна"@ || w == "одно"@ || w == "одни"@ {
            assert(w.len() == 4);
        }
    }
}

/// After a paucal numeral word, a noun with a genitive singular reading is
/// counted correctly: the quantity check finds no conflict.
pub proof fn law_paucal_numeral_takes_genitive_singular(
    surface: Seq<char>,
    numeral: Seq<MorphAnalysis>,
    noun: Seq<MorphAnalysis>,
    j: int,
)
    requires
        is_paucal_word(lower_seq(surface)),
        numeral.len() > 0,
        0 <= j < noun.len(),
        noun[j].features.case == Some(Case::Genitive),
        noun[j].features.number == Some(Number::Singular),
    ensures
        spec_quantity_compatibility(spec_numeral_class(lower_seq(surface)), numeral, noun)
            == MorphCompatibility::Compatible,
{
    law_paucal_numerals_are_paucal(surface);
    let c = spec_numeral_class(lower_seq(surface));
    assert(crate::syntax::numeral_government::quantity_pair_fits(c, numeral[0], noun[j]));
}

/// The numeral words "пять" to "девять".
pub open spec fn is_many_unit_word(w: Seq<char>) -> bool {
    w == "пять"@ || w == "шесть"@ || w == "семь"@ || w == "восемь"@ || w == "девять"@
}

/// Every numeral from "пять" to "девять", in any letter case, takes the
/// noun in the genitive plural.
pub proof fn law_many_unit_numerals_are_many(surface: Seq<char>)
    requires
        is_many_unit_word(lower_seq(surface)),
    ensures
        spec_numeral_class(lower_seq(surface)) == NumeralComponentClass::UnitMany,
{
    reveal_strlit("один");
    reveal_strlit("одна");
    reveal_strlit("одно");
    reveal_strlit("одни");
    reveal_strlit("два");
    reveal_strlit("две");
    reveal_strlit("три");
    reveal_strlit("четыре");
    reveal_strlit("пять");
    reveal_strlit("шесть");
    reveal_strlit("семь");
    reveal_strlit("восемь");
    reveal_strlit("девять");
    let w = lower_seq(surface);
    assert(w.len() == 4 || w.len() == 5 || w.len() == 6);
    assert(!is_paucal_word(w)) by {
        if w == "четыре"@ {
            assert(w[0] == "четыре"@[0]);
        }
    }
    assert(w != "один"@ && w != "одна"@ && w != "одно"@ && w != "одни"@) by {
        if w == "один"@ || w == "одна"@ || w == "одно"@ || w == "одни"@ {
            assert(w[0] == 'о');
        }
    }
}

/// Every numeral reading is in the nominative or accusative.
pub open spec fn direct_case_readings(v: Seq<MorphAnalysis>) -> bool {
    forall|i: int| 0 <= i < v.len() ==> (#[trigger] v[i]).features.case == Some(Case::Nominative)
        || v[i].features.case == Some(Case::Accusative)
}

/// Every noun reading is genitive, in the given number.
pub open spec fn genitive_readings_in(v: Seq<MorphAnalysis>, n: Number) -> bool {
    forall|i: int| 0 <= i < v.len() ==> (#[trigger] v[i]).features.case == Some(Case::Genitive)
        && v[i].features.number == Some(n)
}

/// A paucal numeral in a direct case does not count a noun that can only
/// be genitive plural ("четыре домов"): the quantity check rejects it.
pub proof fn law_paucal_numeral_rejects_genitive_plural(
    surface: Seq<char>,
    numeral: Seq<MorphAnalysis>,
    noun: Seq<MorphAnalysis>,
)
    requires
        is_paucal_word(lower_seq(surface)),
        numeral.len() > 0,
        noun.len() > 0,
        direct_case_readings(numeral),
        genitive_readings_in(noun, Number::Plural),
    ensures
        spec_quantity_compatibility(spec_numeral_class(lower_seq(surface)), numeral, noun)
            == MorphCompatibility::Incompatible,
{
    law_paucal_numerals_are_paucal(surface);
}

/// A numeral from "пять" to "девять" in a direct case does not count a noun
/// that can only be genitive singular ("пять дома"): the quantity check
/// rejects it.
pub proof fn law_many_unit_numeral_rejects_genitive_singular(
    surface: Seq<char>,
    numeral: Seq<MorphAnalysis>,
    noun: Seq<MorphAnalysis>,
)
    requires
        is_many_unit_word(lower_seq(surface)),
        numeral.len() > 0,
        noun.len() > 0,
        direct_case_readings(numeral),
        genitive_readings_in(noun, Number::Singular),
    ensures
        spec_quantity_compatibility(spec_numeral_class(lower_seq(surface)), numeral, noun)
            == MorphCompatibility::Incompatible,
{
    law_many_unit_numerals_are_many(surface);
}

/// The words that the marker-kind table classifies.
pub proof fn law_classified_markers_are_default_markers(w: Seq<char>)
    requires
        spec_marker_kind(w) != ClauseMarkerKind::Unknown,
    ensures
        exists|k: int| 0 <= k < default_markers().len() && default_markers()[k] == w,
{
    let d = default_markers();
    if w == "что"@ {
        assert(d[0] == w);
    } else if w == "чтобы"@ {
        assert(d[1] == w);
    } else if w == "если"@ {
        assert(d[2] == w);
    } else if w == "когда"@ {
        assert(d[3] == w);
    } else if w == "пока"@ {
        assert(d[4] == w);
    } else if w == "поскольку"@ {
        assert(d[5] == w);
    } else if w == "хотя"@ {
        assert(d[6] == w);
    } else if w == "который"@ {
        assert(d[7] == w);
    } else if w == "которая"@ {
        assert(d[8] == w);
    } else if w == "которое"@ {
        assert(d[9] == w);
    } else {
        assert(d[10] == w);
    }
}

/// With the default markers, a word token that the marker-kind table
/// classifies starts a clause marker, unless it continues a multiword
/// marker begun before it.
pub proof fn law_classified_word_starts_marker(toks: Seq<Token>, idx: int, ms: Seq<String>)
    requires
        string_views(ms) == default_markers(),
        0 <= idx < toks.len(),
        toks[idx].kind == TokenKind::Word,
        spec_marker_kind(lower_text(toks[idx])) != ClauseMarkerKind::Unknown,
        !spec_non_initial_part_of_any(toks, idx, ms),
    ensures
        spec_find_clause_marker(toks, idx, ms) is Some,
{
    let w = lower_text(toks[idx]);
    law_classified_markers_are_default_markers(w);
    let k = choose|k: int| 0 <= k < default_markers().len() && default_markers()[k] == w;
    assert(string_views(ms)[k] == ms[k]@);
    assert(crate::syntax::markers::set_contains(ms, w));
}

/// The coordinating conjunctions "и", "или", "либо", "ни", "да", "а", "но".
pub open spec fn is_conjunction_word(w: Seq<char>) -> bool {
    w == "и"@ || w == "или"@ || w == "либо"@ || w == "ни"@ || w == "да"@ || w == "а"@ || w == "но"@
}

/// Each coordinating conjunction, in any letter case, is a conjunction; a
/// word token spelling one is a connector and never a member.
pub proof fn law_conjunction_words_connect(toks: Seq<Token>, i: int)
    requires
        0 <= i < toks.len(),
        toks[i].kind == TokenKind::Word,
        is_conjunction_word(lower_seq(toks[i].text@)),
    ensures
        spec_is_conjunction(toks[i].text@),
        conjunction_at(toks, i),
        !member_at(toks, i),
{
}

/// A letter: an alphabetic character that is neither white space, a digit
/// nor punctuation.
pub open spec fn is_plain_letter(c: char) -> bool {
    &&& unicode_alphabetic(c)
    &&& !spec_is_whitespace(c)
    &&& !spec_is_ascii_digit(c)
    &&& !spec_is_fullwidth_digit(c)
    &&& !spec_is_ru_punctuation(c)
    &&& !spec_is_ascii_punctuation(c)
}

/// The characters that join the parts of a word: hyphen, non-breaking
/// hyphen, en dash and apostrophe.
pub open spec fn is_joining_mark(c: char) -> bool {
    c == '-' || c == '\u{2011}' || c == '\u{2013}' || c == '\''
}

proof fn lemma_token_covers(s: Seq<char>, toks: Seq<Token>, bounds: Seq<int>, p: int, j: int)
    requires
        is_tokenization(s, toks, bounds),
        0 <= j <= toks.len(),
        bounds[j] <= p < s.len(),
    ensures
        exists|k: int| j <= k < toks.len() && bounds[k] <= p < #[trigger] bounds[k + 1],
    decreases toks.len() - j,
{
    if j < toks.len() {
        assert(crate::text::token_matches(s, toks[j], bounds[j], bounds[j + 1]));
        if p >= bounds[j + 1] {
            lemma_token_covers(s, toks, bounds, p, j + 1);
        }
    }
}

/// A joining mark between two letters never ends a word: the letter before
/// it, the mark and the letter after it lie inside one word token.
pub proof fn law_joined_letters_stay_in_one_word(s: Seq<char>, toks: Seq<Token>, bounds: Seq<int>, m: int)
    requires
        is_tokenization(s, toks, bounds),
        0 < m,
        m + 1 < s.len(),
        is_joining_mark(s[m]),
        is_plain_letter(s[m - 1]),
        is_plain_letter(s[m + 1]),
    ensures
        exists|k: int|
            0 <= k < toks.len() && bounds[k] <= m - 1 && m + 1 < #[trigger] bounds[k + 1] && toks[k].kind
                == TokenKind::Word,
{
    lemma_token_covers(s, toks, bounds, m - 1, 0);
    let k = choose|k: int| 0 <= k < toks.len() && bounds[k] <= m - 1 < #[trigger] bounds[k + 1];
    let a = bounds[k];
    let b = bounds[k + 1];
    assert(crate::text::token_matches(s, toks[k], a, b));
    let kind = toks[k].kind;
    if a < m - 1 {
        assert(crate::text::spec_same_group(kind, s[m - 1]));
    }
    assert(kind == TokenKind::Word);
    assert(b > m);
    assert(b > m + 1);
}

proof fn lemma_terminal_run_chars(s: Seq<char>, i: int, q: int)
    requires
        0 <= i <= q < terminal_run_end(s, i),
    ensures
        spec_is_sentence_boundary(s[q]),
    decreases s.len() - i,
{
    if i < q {
        lemma_terminal_run_chars(s, i + 1, q);
    }
}

proof fn lemma_closing_run_chars(s: Seq<char>, i: int, q: int)
    requires
        0 <= i <= q < closing_run_end(s, i),
    ensures
        crate::syntax::boundaries::spec_is_closing_boundary(s[q]),
    decreases s.len() - i,
{
    if i < q {
        lemma_closing_run_chars(s, i + 1, q);
    }
}

proof fn lemma_no_zone_contains(zones: Seq<PunctuationSafeZone>, b: int)
    requires
        forall|i: int| 0 <= i < zones.len() ==> !((#[trigger] zones[i]).span.start < b && b < zones[i].span.end),
    ensures
        first_zone_containing(zones, b) is None,
    decreases zones.len(),
{
    if zones.len() > 0 {
        assert forall|i: int| 0 <= i < zones.drop_first().len() implies !((#[trigger] zones.drop_first()[i]).span.start
            < b && b < zones.drop_first()[i].span.end) by {
            assert(zones.drop_first()[i] == zones[i + 1]);
        }
        lemma_no_zone_contains(zones.drop_first(), b);
    }
}

/// An exclamation mark, question mark or ellipsis at `p` that starts its
/// run of terminal marks, is followed by white space other than a line
/// break and lies in no safe zone.
pub open spec fn free_terminal_mark(s: Seq<char>, p: int) -> bool {
    &&& 0 <= p
    &&& p + 1 < s.len()
    &&& (s[p] == '!' || s[p] == '?' || s[p] == '\u{2026}')
    &&& (p == 0 || !spec_is_sentence_boundary(s[p - 1]))
    &&& spec_is_whitespace(s[p + 1])
    &&& s[p + 1] != '\n'
    &&& forall|i: int|
        0 <= i < spec_safe_zones(s).len() ==> !((#[trigger] spec_safe_zones(s)[i]).span.start < byte_offset(s, p)
            && byte_offset(s, p) < spec_safe_zones(s)[i].span.end)
}

proof fn lemma_scan_splits_at_terminal_mark(s: Seq<char>, start: int, cursor: int, p: int)
    requires
        free_terminal_mark(s, p),
        0 <= start <= cursor <= p,
    ensures
        exists|k: int|
            0 <= k < sentence_scan(s, spec_safe_zones(s), start, cursor).len() && (#[trigger] sentence_scan(
                s,
                spec_safe_zones(s),
                start,
                cursor,
            )[k]).end == byte_offset(s, p + 1) as usize,
    decreases s.len() - cursor,
{
    let zones = spec_safe_zones(s);
    let r = sentence_scan(s, zones, start, cursor);
    lemma_run_bounds(s, cursor + 1);
    if !spec_is_sentence_boundary(s[cursor]) {
        lemma_scan_splits_at_terminal_mark(s, start, cursor + 1, p);
        let r2 = sentence_scan(s, zones, start, cursor + 1);
        assert(r == r2);
        let k = choose|k: int| 0 <= k < r2.len() && (#[trigger] r2[k]).end == byte_offset(s, p + 1) as usize;
        assert(r[k] == r2[k]);
    } else {
        let te = terminal_run_end(s, cursor + 1);
        if te > p && cursor < p {
            lemma_terminal_run_chars(s, cursor + 1, p - 1);
        }
        if cursor == p {
            assert(te == p + 1);
            lemma_no_zone_contains(zones, byte_offset(s, p) as int);
            reveal(split_candidate);
            assert(closing_run_end(s, p + 1) == p + 1);
            assert(split_candidate(s, zones, start, cursor, te));
            let tail = sentence_scan(s, zones, first_non_ws_from(s, p + 1), first_non_ws_from(s, p + 1));
            assert(r == seq![crate::syntax::sentences::sentence_of(s, start, p + 1)] + tail);
            assert(r[0].end == byte_offset(s, p + 1) as usize);
        } else if !split_candidate(s, zones, start, cursor, te) {
            lemma_scan_splits_at_terminal_mark(s, start, te, p);
            let r2 = sentence_scan(s, zones, start, te);
            assert(r == r2);
            let k = choose|k: int| 0 <= k < r2.len() && (#[trigger] r2[k]).end == byte_offset(s, p + 1) as usize;
            assert(r[k] == r2[k]);
        } else {
            let end = closing_run_end(s, te);
            lemma_run_bounds(s, te);
            lemma_run_bounds(s, end);
            let ns = first_non_ws_from(s, end);
            if ns > p {
                if p < end {
                    lemma_closing_run_chars(s, te, p);
                }
            }
            assert(ns <= p);
            lemma_scan_splits_at_terminal_mark(s, ns, ns, p);
            let head = if start < end {
                seq![crate::syntax::sentences::sentence_of(s, start, end)]
            } else {
                Seq::empty()
            };
            let tail = sentence_scan(s, zones, ns, ns);
            assert(r == head + tail);
            let k = choose|k: int| 0 <= k < tail.len() && (#[trigger] tail[k]).end == byte_offset(s, p + 1) as usize;
            assert(r[head.len() + k] == tail[k]);
        }
    }
}

/// An exclamation mark, question mark or ellipsis outside every safe zone,
/// followed by white space, ends a sentence: some sentence span ends right
/// after it.
pub proof fn law_terminal_mark_ends_sentence(s: Seq<char>, p: int)
    requires
        free_terminal_mark(s, p),
    ensures
        exists|k: int|
            0 <= k < spec_sentence_spans(s).len() && (#[trigger] spec_sentence_spans(s)[k]).end == byte_offset(s, p + 1)
                as usize,
{
    lemma_run_bounds(s, 0);
    let st = first_non_ws_from(s, 0);
    assert(st <= p);
    lemma_scan_splits_at_terminal_mark(s, st, st, p);
    let r = sentence_scan(s, spec_safe_zones(s), st, st);
    assert(spec_sentence_spans(s) == r);
    let k = choose|k: int| 0 <= k < r.len() && (#[trigger] r[k]).end == byte_offset(s, p + 1) as usize;
    assert(spec_sentence_spans(s)[k] == r[k]);
}

} // verus!
