use vstd::prelude::*;
use crate::text::{excerpt_end, excerpt_start, is_tokenization, min_usize, Token};
use crate::unicode::{byte_offset, is_ceil_index, is_floor_index, lemma_byte_offset_order, text_len};
use crate::syntax::model::{ClauseBoundaryView, SentenceSpan};
use crate::syntax::clauses::{blocked_between, spec_sentence_boundaries};
use crate::syntax::markers::spec_find_clause_marker;
use crate::syntax::document::SyntaxDocument;
use crate::syntax::safe_zones::{inside_some_zone, spec_safe_zones};
use crate::syntax::islands::{
    first_island_for, first_from, island_actionable, island_contains, islands_of, raw_islands, renumbered,
    spec_can_link, IslandView, SyntacticIslandKind,
};
use crate::syntax::relations::{sorted_blockers, SyntaxRelationBlocker};
use crate::syntax::diagnostics::{DiagnosticProof, ProofConfidence};
use crate::syntax::document_terms::{term_of, terms_of, DocumentMention, TermView};
use crate::syntax::ambiguity::TokenAmbiguity;
use crate::syntax::clause_candidates::ClauseCandidate;
use crate::syntax::coordination::{
    groups_of,
    chain_last, first_member, first_non_ws, group_starts, is_group, island_end, lemma_chain, lemma_first_member,
    lemma_group_members,
    lemma_first_non_ws, members_unlinkable, spec_chain, spec_link, CoordinationGroup,
};
use crate::syntax::diagnostics::SuppressionReason;
use crate::syntax::punctuation::{marks_in, PunctuationBoundaryStrength, PunctuationMark, PunctuationSlot};
use crate::syntax::slots::{is_slot, slot_blocked};
use crate::syntax::model::SyntaxConfidence;
use crate::readings::MorphAnalysis;
use crate::syntax::constraints::{
    after_rule, agreeing_pair, agreement_step, kept_by, one_pass, passes_from, pass_count, reading_count,
    spec_adjacent_word_index, PrepositionGovernmentEntry, RuleSpec,
};
use crate::syntax::agreement_graph::{dedup_edges, edge_key};
use crate::syntax::agreement::AgreementGraphEdge;
use crate::syntax::diagnostic_ledger::{
    entries_are, proof_actionable, DiagnosticLedgerEntry, DiagnosticLedgerStatus, LedgerItem,
};
use crate::syntax::government::{frame_conflict, GovernmentFrame};
use crate::syntax::government_frames::{frame_is, FrameSpec};
use crate::syntax::document_terms::DocumentAbbreviation;
use crate::syntax::sentences::{
    closing_run_end, first_non_ws_from, lemma_run_bounds, sentence_scan, spec_sentence_spans, split_candidate,
    terminal_run_end,
};
use crate::syntax::model::PunctuationSafeZone;
use crate::unicode::spec_is_whitespace;
use crate::text::spec_is_sentence_boundary;

verus! {

broadcast use vstd::seq_lib::group_seq_properties;

/// Whether a link between two tokens is blocked by a clause boundary does
/// not depend on which token is named first.
pub proof fn law_clause_blockers_symmetric(bs: Seq<ClauseBoundaryView>, left: int, right: int)
    ensures
        blocked_between(bs, left, right) == blocked_between(bs, right, left),
{
}

/// Merging blocker lists gives the same list in either order.
pub proof fn law_merge_blockers_commutes(a: Seq<SyntaxRelationBlocker>, b: Seq<SyntaxRelationBlocker>)
    ensures
        sorted_blockers(a.to_set() + b.to_set()) == sorted_blockers(b.to_set() + a.to_set()),
{
    assert(a.to_set() + b.to_set() =~= b.to_set() + a.to_set());
}

/// With no markers, no token starts a clause marker.
pub proof fn lemma_no_marker_without_set(toks: Seq<Token>, idx: int)
    ensures
        spec_find_clause_marker(toks, idx, Seq::empty()) is None,
{
}

/// With no markers, a sentence has no clause boundaries.
pub proof fn law_no_boundaries_without_markers(s: Seq<char>, toks: Seq<Token>, sentence: SentenceSpan, k: int)
    ensures
        spec_sentence_boundaries(s, toks, Seq::empty(), sentence, k) == Seq::<ClauseBoundaryView>::empty(),
    decreases k,
{
    if k > 0 {
        law_no_boundaries_without_markers(s, toks, sentence, k - 1);
        lemma_no_marker_without_set(toks, k - 1);
    }
}

/// A document built without clause markers records no clause boundary in
/// any sentence.
pub proof fn law_plain_document_has_no_boundaries(doc: SyntaxDocument, s: Seq<char>)
    requires
        doc.built_from(s, Seq::empty()),
    ensures
        forall|k: int|
            0 <= k < doc.sentences_view().len() ==> (#[trigger] doc.sentences_view()[k]).clause_graph.boundaries@.len()
                == 0,
{
    assert forall|k: int| 0 <= k < doc.sentences_view().len() implies (#[trigger] doc.sentences_view()[k]).clause_graph.boundaries@.len()
        == 0 by {
        let ss = doc.sentences_view()[k];
        law_no_boundaries_without_markers(
            s,
            doc.tokens_view(),
            crate::syntax::sentences::spec_sentence_spans(s)[k],
            doc.tokens_view().len() as int,
        );
        assert(crate::syntax::model::boundary_views(ss.clause_graph.boundaries@).len() == 0);
    }
}

/// A document answers safe-zone questions as the text does.
pub proof fn law_document_safe_zones_agree(doc: SyntaxDocument, s: Seq<char>, ms: Seq<String>, b: usize)
    requires
        doc.built_from(s, ms),
    ensures
        inside_some_zone(doc.safe_zones_view(), b) == inside_some_zone(spec_safe_zones(s), b),
{
}

/// Islands cut from a zone always carry its boundary as a blocker.
pub open spec fn zone_islands_blocked(v: Seq<IslandView>) -> bool {
    forall|k: int| 0 <= k < v.len() && (#[trigger] v[k]).kind != SyntacticIslandKind::PlainSentence ==> v[k].blockers.len() > 0
}

pub proof fn lemma_walk_blocked(
    toks: Seq<Token>,
    sp: SentenceSpan,
    zones: Seq<crate::syntax::model::PunctuationSafeZone>,
    j: int,
    acc: Seq<IslandView>,
    cursor: int,
)
    requires
        zone_islands_blocked(acc),
    ensures
        zone_islands_blocked(crate::syntax::islands::sentence_walk(toks, sp, zones, j, acc, cursor)),
    decreases zones.len() - j,
{
    if j < 0 || j >= zones.len() {
    } else if !crate::syntax::islands::zone_meets(zones[j], sp) {
        lemma_walk_blocked(toks, sp, zones, j + 1, acc, cursor);
    } else {
        let z = zones[j];
        let szs = crate::syntax::islands::max_int(z.span.start as int, sp.start as int);
        let sze = crate::syntax::islands::min_int(z.span.end as int, sp.end as int);
        let a1 = crate::syntax::islands::add_plain(toks, acc, cursor, szs);
        let a2 = crate::syntax::islands::add_safe(toks, a1, crate::text::Span { start: szs as usize, end: sze as usize }, z);
        assert(zone_islands_blocked(a1));
        assert(zone_islands_blocked(a2));
        lemma_walk_blocked(toks, sp, zones, j + 1, a2, crate::syntax::islands::max_int(cursor, sze));
    }
}

pub proof fn lemma_raw_blocked(
    toks: Seq<Token>,
    sents: Seq<SentenceSpan>,
    zones: Seq<crate::syntax::model::PunctuationSafeZone>,
    k: int,
)
    ensures
        zone_islands_blocked(raw_islands(toks, sents, zones, k)),
    decreases k,
{
    if k > 0 && k <= sents.len() {
        lemma_raw_blocked(toks, sents, zones, k - 1);
        lemma_walk_blocked(toks, sents[k - 1], zones, 0, raw_islands(toks, sents, zones, k - 1), sents[k - 1].start as int);
    }
}

pub proof fn lemma_first_from(v: Seq<IslandView>, t: int, k: int)
    ensures
        first_from(v, t, k) matches Some(i) ==> 0 <= k <= i < v.len() && island_contains(v[i], t),
    decreases v.len() - k,
{
    if 0 <= k < v.len() && !island_contains(v[k], t) {
        lemma_first_from(v, t, k + 1);
    }
}

/// Two tokens can be linked only inside one plain-sentence island: never
/// into or out of direct speech or a parenthetical.
pub proof fn law_links_stay_in_plain_islands(s: Seq<char>, toks: Seq<Token>, v: Seq<IslandView>, left: int, right: int)
    requires
        islands_of(s, toks, v),
        v.len() <= usize::MAX,
        spec_can_link(v, left, right),
    ensures
        first_island_for(v, left) matches Some(a) && v[a].kind == SyntacticIslandKind::PlainSentence && island_contains(v[a], left)
            && island_contains(v[a], right),
{
    let raw = raw_islands(
        toks,
        crate::syntax::sentences::spec_sentence_spans(s),
        spec_safe_zones(s),
        crate::syntax::sentences::spec_sentence_spans(s).len() as int,
    );
    let sorted = choose|sorted: Seq<IslandView>|
        #[trigger] sorted.to_multiset() == raw.to_multiset() && crate::syntax::islands::islands_sorted(sorted) && v
            == renumbered(sorted);
    lemma_raw_blocked(toks, crate::syntax::sentences::spec_sentence_spans(s), spec_safe_zones(s), crate::syntax::sentences::spec_sentence_spans(s).len() as int);
    lemma_first_from(v, left, 0);
    lemma_first_from(v, right, 0);
    let a = first_island_for(v, left).unwrap();
    let b = first_island_for(v, right).unwrap();
    assert(v[a].id == a as usize && v[b].id == b as usize);
    assert(a == b);
    assert(sorted.contains(sorted[a]));
    crate::syntax::document_terms::lemma_multiset_member(sorted, raw, sorted[a]);
    let h = choose|h: int| 0 <= h < raw.len() && raw[h] == sorted[a];
    assert(raw[h] == sorted[a]);
    assert(island_actionable(v[a]));
    assert(v[a].kind == sorted[a].kind && v[a].blockers == sorted[a].blockers);
}

/// Islands are numbered by their position.
pub proof fn law_island_ids_are_positions(s: Seq<char>, toks: Seq<Token>, v: Seq<IslandView>)
    requires
        islands_of(s, toks, v),
        v.len() <= usize::MAX,
    ensures
        forall|k: int| 0 <= k < v.len() ==> (#[trigger] v[k]).id == k,
{
}

/// A proof that carries any blocker is never actionable.
pub proof fn law_blocked_proof_not_actionable(p: DiagnosticProof, b: crate::syntax::diagnostics::SuppressionReason)
    requires
        p.blockers@.contains(b),
    ensures
        !proof_actionable(p),
{
}

/// A document term counts its mentions, starts at its first mention, and
/// marks exactly that mention as first.
pub proof fn law_term_counts_its_mentions(toks: Seq<Token>, sents: Seq<SentenceSpan>, v: Seq<TermView>)
    requires
        terms_of(toks, sents, v),
        toks.len() <= usize::MAX,
    ensures
        forall|k: int|
            0 <= k < v.len() ==> (#[trigger] v[k]).mentions.len() == v[k].frequency && (v[k].mentions.len() > 0 ==> v[k].mentions[0].is_first_mention
                && v[k].mentions[0].span == v[k].first_span),
{
    let raw = crate::syntax::document_terms::term_groups(toks, sents, toks.len() as int);
    let sorted = choose|sorted: Seq<(Seq<char>, Seq<DocumentMention>)>|
        #[trigger] sorted.to_multiset() == raw.to_multiset() && crate::syntax::document_terms::groups_sorted(sorted)
            && v == sorted.map_values(|g: (Seq<char>, Seq<DocumentMention>)| term_of(g));
    lemma_group_sizes(toks, sents, toks.len() as int);
    assert forall|k: int| 0 <= k < v.len() implies (#[trigger] v[k]).mentions.len() == v[k].frequency && (v[k].mentions.len()
        > 0 ==> v[k].mentions[0].is_first_mention && v[k].mentions[0].span == v[k].first_span) by {
        assert(v[k] == term_of(sorted[k]));
        assert(sorted.contains(sorted[k]));
        crate::syntax::document_terms::lemma_multiset_member(sorted, raw, sorted[k]);
        let h = choose|h: int| 0 <= h < raw.len() && raw[h] == sorted[k];
        assert(raw[h].1.len() <= toks.len());
    }
}

/// Every group of the first `k` tokens holds at most `k` mentions.
pub proof fn lemma_group_sizes(toks: Seq<Token>, sents: Seq<SentenceSpan>, k: int)
    requires
        0 <= k <= toks.len(),
    ensures
        forall|g: int|
            0 <= g < crate::syntax::document_terms::term_groups(toks, sents, k).len() ==> (#[trigger] crate::syntax::document_terms::term_groups(
                toks,
                sents,
                k,
            )[g]).1.len() <= k,
    decreases k,
{
    if k > 0 {
        lemma_group_sizes(toks, sents, k - 1);
        let prev = crate::syntax::document_terms::term_groups(toks, sents, k - 1);
        crate::syntax::document_terms::lemma_group_index(
            prev,
            crate::syntax::document_terms::spec_normalize_term(toks[k - 1].text@),
            0,
        );
    }
}

/// Two sequences sorted by the same strict order and holding the same
/// elements are equal.
pub proof fn lemma_sorted_permutation_unique<A>(a: Seq<A>, b: Seq<A>, lt: spec_fn(A, A) -> bool)
    requires
        a.to_multiset() == b.to_multiset(),
        forall|i: int, j: int| 0 <= i < j < a.len() ==> lt(#[trigger] a[i], #[trigger] a[j]),
        forall|i: int, j: int| 0 <= i < j < b.len() ==> lt(#[trigger] b[i], #[trigger] b[j]),
        forall|x: A, y: A| #[trigger] lt(x, y) ==> !lt(y, x),
    ensures
        a == b,
    decreases a.len(),
{
    vstd::seq_lib::to_multiset_len(a);
    vstd::seq_lib::to_multiset_len(b);
    if a.len() == 0 {
        assert(a =~= b);
    } else {
        let x = a[0];
        let y = b[0];
        vstd::seq_lib::to_multiset_contains(a, y);
        vstd::seq_lib::to_multiset_contains(b, x);
        assert(b.contains(y));
        assert(a.contains(x));
        if x != y {
            let i = choose|i: int| 0 <= i < a.len() && a[i] == y;
            let j = choose|j: int| 0 <= j < b.len() && b[j] == x;
            assert(i != 0);
            assert(j != 0);
            assert(lt(a[0], a[i]));
            assert(lt(b[0], b[j]));
            assert(false);
        }
        vstd::seq_lib::to_multiset_remove(a, 0);
        vstd::seq_lib::to_multiset_remove(b, 0);
        assert(a.remove(0) =~= a.drop_first());
        assert(b.remove(0) =~= b.drop_first());
        lemma_sorted_permutation_unique(a.drop_first(), b.drop_first(), lt);
        assert(a =~= b);
    }
}

/// The islands of a text cut into tokens are fully determined.
pub proof fn law_islands_unique(s: Seq<char>, toks: Seq<Token>, v1: Seq<IslandView>, v2: Seq<IslandView>)
    requires
        islands_of(s, toks, v1),
        islands_of(s, toks, v2),
    ensures
        v1 == v2,
{
    let raw = raw_islands(
        toks,
        crate::syntax::sentences::spec_sentence_spans(s),
        spec_safe_zones(s),
        crate::syntax::sentences::spec_sentence_spans(s).len() as int,
    );
    let s1 = choose|sorted: Seq<IslandView>|
        #[trigger] sorted.to_multiset() == raw.to_multiset() && crate::syntax::islands::islands_sorted(sorted) && v1
            == renumbered(sorted);
    let s2 = choose|sorted: Seq<IslandView>|
        #[trigger] sorted.to_multiset() == raw.to_multiset() && crate::syntax::islands::islands_sorted(sorted) && v2
            == renumbered(sorted);
    let lt = |x: IslandView, y: IslandView| crate::syntax::islands::island_lt(x, y);
    lemma_sorted_permutation_unique(s1, s2, lt);
}

/// The terms of a document cut into tokens are fully determined.
pub proof fn law_terms_unique(toks: Seq<Token>, sents: Seq<SentenceSpan>, v1: Seq<TermView>, v2: Seq<TermView>)
    requires
        terms_of(toks, sents, v1),
        terms_of(toks, sents, v2),
    ensures
        v1 == v2,
{
    let raw = crate::syntax::document_terms::term_groups(toks, sents, toks.len() as int);
    let s1 = choose|sorted: Seq<(Seq<char>, Seq<DocumentMention>)>|
        #[trigger] sorted.to_multiset() == raw.to_multiset() && crate::syntax::document_terms::groups_sorted(sorted)
            && v1 == sorted.map_values(|g: (Seq<char>, Seq<DocumentMention>)| term_of(g));
    let s2 = choose|sorted: Seq<(Seq<char>, Seq<DocumentMention>)>|
        #[trigger] sorted.to_multiset() == raw.to_multiset() && crate::syntax::document_terms::groups_sorted(sorted)
            && v2 == sorted.map_values(|g: (Seq<char>, Seq<DocumentMention>)| term_of(g));
    lemma_group_lt_asym();
    let lt = |x: (Seq<char>, Seq<DocumentMention>), y: (Seq<char>, Seq<DocumentMention>)|
        crate::syntax::document_terms::group_lt(x, y);
    lemma_sorted_permutation_unique(s1, s2, lt);
}

/// The abbreviations of a document cut into tokens are fully determined.
pub proof fn law_abbreviations_unique(
    s: Seq<char>,
    toks: Seq<Token>,
    sents: Seq<SentenceSpan>,
    v1: Seq<crate::syntax::document_terms::AbbreviationView>,
    v2: Seq<crate::syntax::document_terms::AbbreviationView>,
)
    requires
        crate::syntax::document_terms::abbreviations_of(s, toks, sents, v1),
        crate::syntax::document_terms::abbreviations_of(s, toks, sents, v2),
    ensures
        v1 == v2,
{
    let raw = crate::syntax::document_terms::abbreviation_groups(toks, sents, toks.len() as int);
    let s1 = choose|sorted: Seq<(Seq<char>, Seq<DocumentMention>)>|
        #[trigger] sorted.to_multiset() == raw.to_multiset() && crate::syntax::document_terms::groups_sorted(sorted)
            && v1 == sorted.map_values(
            |g: (Seq<char>, Seq<DocumentMention>)| crate::syntax::document_terms::abbreviation_of(s, g),
        );
    let s2 = choose|sorted: Seq<(Seq<char>, Seq<DocumentMention>)>|
        #[trigger] sorted.to_multiset() == raw.to_multiset() && crate::syntax::document_terms::groups_sorted(sorted)
            && v2 == sorted.map_values(
            |g: (Seq<char>, Seq<DocumentMention>)| crate::syntax::document_terms::abbreviation_of(s, g),
        );
    lemma_group_lt_asym();
    let lt = |x: (Seq<char>, Seq<DocumentMention>), y: (Seq<char>, Seq<DocumentMention>)|
        crate::syntax::document_terms::group_lt(x, y);
    lemma_sorted_permutation_unique(s1, s2, lt);
}

pub proof fn lemma_group_lt_asym()
    ensures
        forall|x: (Seq<char>, Seq<DocumentMention>), y: (Seq<char>, Seq<DocumentMention>)|
            #[trigger] crate::syntax::document_terms::group_lt(x, y) ==> !crate::syntax::document_terms::group_lt(y, x),
{
    assert forall|x: (Seq<char>, Seq<DocumentMention>), y: (Seq<char>, Seq<DocumentMention>)|
        #[trigger] crate::syntax::document_terms::group_lt(x, y) implies !crate::syntax::document_terms::group_lt(y, x) by {
        crate::syntax::document_terms::lemma_chars_lt_total(x.0, y.0);
    }
}

/// A punctuation slot that crosses an unsafe boundary, or stands in direct
/// speech or parentheses, is unsafe, carries a blocker, forbids a comma, a
/// dash and a colon, and so never reports a missing mark.
pub proof fn law_blocked_slot_reports_nothing(
    toks: Seq<Token>,
    items: Seq<TokenAmbiguity>,
    v: Seq<IslandView>,
    cs: Seq<ClauseCandidate>,
    gs: Seq<CoordinationGroup>,
    id: int,
    l: int,
    r: int,
    s: PunctuationSlot,
    m: PunctuationMark,
)
    requires
        is_slot(toks, items, v, cs, gs, id, l, r, s),
        slot_blocked(v, l, r),
    ensures
        s.boundary_strength == PunctuationBoundaryStrength::Unsafe,
        s.blockers@.len() > 0,
        s.forbidden_marks@.contains(PunctuationMark::Comma),
        s.forbidden_marks@.contains(PunctuationMark::Dash),
        s.forbidden_marks@.contains(PunctuationMark::Colon),
        !(s.expected_marks@.contains(m) && !s.forbidden_marks@.contains(m) && !s.existing_marks@.contains(m)
            && s.blockers@.len() == 0),
{
    reveal_with_fuel(marks_in, 6);
    let set = s.blockers@.to_set();
    if !spec_can_link(v, l, r) {
        assert(set.contains(SuppressionReason::UnsafeBoundary));
    } else if crate::syntax::slots::pair_island_of_kind(v, l, r, SyntacticIslandKind::DirectSpeech) {
        assert(set.contains(SuppressionReason::DirectSpeechBoundary));
    } else {
        assert(set.contains(SuppressionReason::ParenthesisBoundary));
    }
    if s.blockers@.len() == 0 {
        assert(s.blockers@ =~= Seq::<SuppressionReason>::empty());
        assert(set =~= Set::<SuppressionReason>::empty());
    }
    let f = s.forbidden_marks@;
    assert(f.len() >= 3);
    assert(f[0] == PunctuationMark::Comma);
    assert(f[1] == PunctuationMark::Dash);
    assert(f[2] == PunctuationMark::Colon);
}

proof fn lemma_chain_within(toks: Seq<Token>, cur: int, e: int)
    requires
        0 <= cur < toks.len(),
    ensures
        forall|k: int|
            0 <= k < spec_chain(toks, cur, e).len() ==> cur < (#[trigger] spec_chain(toks, cur, e)[k]).2 <= e,
        cur <= chain_last(cur, spec_chain(toks, cur, e)),
        spec_chain(toks, cur, e).len() > 0 ==> chain_last(cur, spec_chain(toks, cur, e)) <= e,
    decreases toks.len() - cur,
{
    let ch = spec_chain(toks, cur, e);
    lemma_chain(toks, cur, e);
    match spec_link(toks, cur, e) {
        Some(l) => {
            if cur < l.2 < toks.len() {
                lemma_first_non_ws(toks, cur + 1, e);
                let c = first_non_ws(toks, cur + 1, e).unwrap();
                lemma_first_non_ws(toks, c + 1, e);
                lemma_chain_within(toks, l.2, e);
                let rest = spec_chain(toks, l.2, e);
                assert(ch == seq![l] + rest);
                assert forall|k: int| 0 <= k < ch.len() implies cur < (#[trigger] ch[k]).2 <= e by {
                    if k > 0 {
                        assert(ch[k] == rest[k - 1]);
                    }
                }
                if rest.len() > 0 {
                    assert(ch.last() == rest.last());
                }
            }
        },
        None => {},
    }
}

/// Every series found scanning tokens `i..=e` starts inside that range.
pub proof fn lemma_group_starts_within(toks: Seq<Token>, i: int, e: int)
    ensures
        forall|k: int|
            0 <= k < group_starts(toks, i, e).len() ==> i <= #[trigger] group_starts(toks, i, e)[k] <= e,
    decreases toks.len() - i,
{
    if !(i > e || i < 0) {
        lemma_first_member(toks, i, e);
        match first_member(toks, i, e) {
            None => {},
            Some(f) => {
                let ch = spec_chain(toks, f, e);
                let last = chain_last(f, ch);
                if i <= f && f <= last && last < toks.len() {
                    lemma_group_starts_within(toks, last + 1, e);
                    let rest = group_starts(toks, last + 1, e);
                    if ch.len() > 0 {
                        assert forall|k: int| 0 <= k < group_starts(toks, i, e).len() implies i
                            <= #[trigger] group_starts(toks, i, e)[k] <= e by {
                            if k > 0 {
                                assert(group_starts(toks, i, e)[k] == rest[k - 1]);
                            }
                        }
                    }
                }
            },
        }
    }
}

/// A coordination group never reaches outside its island: every member
/// lies in the island's token range, in increasing order.
pub proof fn law_group_stays_in_island(
    toks: Seq<Token>,
    items: Seq<TokenAmbiguity>,
    v: Seq<IslandView>,
    isl: IslandView,
    f: int,
    id: int,
    g: CoordinationGroup,
)
    requires
        is_group(toks, items, v, isl, f, id, g),
        isl.start_token matches Some(a) && a <= f,
        f <= island_end(isl),
    ensures
        forall|k: int|
            0 <= k < g.members@.len() ==> isl.start_token->0 <= (#[trigger] g.members@[k]).token_index <= island_end(
                isl,
            ),
        forall|k: int|
            0 <= k && k + 1 < g.members@.len() ==> (#[trigger] g.members@[k]).token_index < g.members@[k
                + 1].token_index,
{
    let e = island_end(isl);
    let ch = spec_chain(toks, f, e);
    lemma_group_members(toks, items, v, isl, f, id, g);
    lemma_chain_within(toks, f, e);
    let a = isl.start_token->0 as int;
    assert forall|k: int| 0 <= k < g.members@.len() implies a <= (#[trigger] g.members@[k]).token_index <= e by {
        if k > 0 {
            assert(g.members@[(k - 1) + 1].token_index == ch[k - 1].2);
        }
    }
    assert forall|k: int| 0 <= k && k + 1 < g.members@.len() implies (#[trigger] g.members@[k]).token_index
        < g.members@[k + 1].token_index by {
        assert(g.members@[k + 1].token_index == ch[k].2);
        if k > 0 {
            assert(g.members@[(k - 1) + 1].token_index == ch[k - 1].2);
            lemma_chain_suffix(toks, f, e, k);
            lemma_chain_within(toks, ch[k - 1].2, e);
            assert(ch.subrange(k, ch.len() as int)[0] == ch[k]);
        }
    }
}

/// The links after the `k`-th link of a series are the series that goes on
/// from that link's member.
proof fn lemma_chain_suffix(toks: Seq<Token>, cur: int, e: int, k: int)
    requires
        0 <= cur < toks.len(),
        0 < k <= spec_chain(toks, cur, e).len(),
    ensures
        spec_chain(toks, spec_chain(toks, cur, e)[k - 1].2, e) == spec_chain(toks, cur, e).subrange(
            k,
            spec_chain(toks, cur, e).len() as int,
        ),
    decreases toks.len() - cur,
{
    let ch = spec_chain(toks, cur, e);
    let l = spec_link(toks, cur, e).unwrap();
    let rest = spec_chain(toks, l.2, e);
    assert(ch == seq![l] + rest);
    if k == 1 {
        assert(ch.subrange(1, ch.len() as int) =~= rest);
    } else {
        lemma_chain_suffix(toks, l.2, e, k - 1);
        assert(ch[k - 1] == rest[k - 2]);
        assert(ch.subrange(k, ch.len() as int) =~= rest.subrange(k - 1, rest.len() as int));
    }
}

/// A group with two neighbouring members that cannot be linked carries an
/// unsafe boundary and is never actionable.
pub proof fn law_unlinkable_group_not_actionable(
    toks: Seq<Token>,
    items: Seq<TokenAmbiguity>,
    v: Seq<IslandView>,
    isl: IslandView,
    f: int,
    id: int,
    g: CoordinationGroup,
)
    requires
        is_group(toks, items, v, isl, f, id, g),
        members_unlinkable(v, g.members@),
    ensures
        g.blockers@.contains(SuppressionReason::UnsafeBoundary),
        g.confidence == SyntaxConfidence::Ambiguous,
{
    reveal(is_group);
    assert(g.blockers@.to_set().contains(SuppressionReason::UnsafeBoundary));
}

/// The coordination groups of a text are numbered by their positions and
/// come in order of their spans.
pub proof fn law_group_ids_are_positions(
    toks: Seq<Token>,
    items: Seq<TokenAmbiguity>,
    v: Seq<IslandView>,
    r: Seq<CoordinationGroup>,
)
    requires
        groups_of(toks, items, v, r),
        r.len() <= usize::MAX,
    ensures
        forall|k: int| 0 <= k < r.len() ==> (#[trigger] r[k]).id == k,
        forall|i: int, j: int|
            0 <= i < j < r.len() ==> (#[trigger] r[i]).span.start <= (#[trigger] r[j]).span.start,
{
    let (raw, sorted) = choose|raw: Seq<CoordinationGroup>, sorted: Seq<CoordinationGroup>|
        #![trigger raw.to_multiset(), sorted.to_multiset()]
        crate::syntax::coordination::groups_so_far(toks, items, v, v.len() as int, raw) && sorted.to_multiset()
            == raw.to_multiset() && crate::syntax::coordination::groups_sorted(sorted) && r
            == crate::syntax::coordination::renumbered_groups(sorted);
    assert forall|i: int, j: int| 0 <= i < j < r.len() implies (#[trigger] r[i]).span.start
        <= (#[trigger] r[j]).span.start by {
        assert(crate::syntax::coordination::group_lt(sorted[i], sorted[j]));
    }
}

proof fn lemma_same_bounds(s: Seq<char>, t1: Seq<Token>, b1: Seq<int>, t2: Seq<Token>, b2: Seq<int>, k: int)
    requires
        is_tokenization(s, t1, b1),
        is_tokenization(s, t2, b2),
        0 <= k <= t1.len(),
        k <= t2.len(),
    ensures
        b1[k] == b2[k],
    decreases k,
{
    if k > 0 {
        lemma_same_bounds(s, t1, b1, t2, b2, k - 1);
        let a = b1[k - 1];
        assert(crate::text::token_matches(s, t1[k - 1], b1[k - 1], b1[k]));
        assert(crate::text::token_matches(s, t2[k - 1], b2[k - 1], b2[k]));
        let kind = t1[k - 1].kind;
        if b1[k] < b2[k] {
            assert(crate::text::spec_same_group(t2[k - 1].kind, s[b1[k]]));
            assert(false);
        } else if b2[k] < b1[k] {
            assert(crate::text::spec_same_group(kind, s[b2[k]]));
            assert(false);
        }
    }
}

/// A text has one tokenization: any two cut it at the same places into
/// tokens of the same kinds, texts and spans.
pub proof fn law_tokenization_unique(s: Seq<char>, t1: Seq<Token>, b1: Seq<int>, t2: Seq<Token>, b2: Seq<int>)
    requires
        is_tokenization(s, t1, b1),
        is_tokenization(s, t2, b2),
    ensures
        b1 == b2,
        t1.len() == t2.len(),
        forall|k: int|
            0 <= k < t1.len() ==> (#[trigger] t1[k]).kind == t2[k].kind && t1[k].text@ == t2[k].text@ && t1[k].span
                == t2[k].span,
{
    if t1.len() < t2.len() {
        let n = t1.len() as int;
        lemma_same_bounds(s, t1, b1, t2, b2, n);
        assert(crate::text::token_matches(s, t2[n], b2[n], b2[n + 1]));
        assert(false);
    } else if t2.len() < t1.len() {
        let n = t2.len() as int;
        lemma_same_bounds(s, t2, b2, t1, b1, n);
        assert(crate::text::token_matches(s, t1[n], b1[n], b1[n + 1]));
        assert(false);
    }
    assert forall|k: int| 0 <= k < b1.len() implies b1[k] == b2[k] by {
        lemma_same_bounds(s, t1, b1, t2, b2, k);
    }
    assert(b1 =~= b2);
    assert forall|k: int| 0 <= k < t1.len() implies (#[trigger] t1[k]).kind == t2[k].kind && t1[k].text@
        == t2[k].text@ && t1[k].span == t2[k].span by {
        lemma_same_bounds(s, t1, b1, t2, b2, k);
        lemma_same_bounds(s, t1, b1, t2, b2, k + 1);
        assert(crate::text::token_matches(s, t1[k], b1[k], b1[k + 1]));
        assert(crate::text::token_matches(s, t2[k], b2[k], b2[k + 1]));
    }
}

proof fn lemma_excerpt_bounds(s: Seq<char>, i: int)
    requires
        0 <= i <= s.len(),
    ensures
        0 <= excerpt_start(s, i) <= i,
        i <= excerpt_end(s, i) <= s.len(),
{
    lemma_excerpt_start(s, i);
    lemma_excerpt_end(s, i);
}

proof fn lemma_excerpt_start(s: Seq<char>, i: int)
    requires
        0 <= i <= s.len(),
    ensures
        0 <= excerpt_start(s, i) <= i,
    decreases i,
{
    if i > 0 {
        lemma_excerpt_start(s, i - 1);
    }
}

proof fn lemma_excerpt_end(s: Seq<char>, i: int)
    requires
        0 <= i <= s.len(),
    ensures
        i <= excerpt_end(s, i) <= s.len(),
    decreases s.len() - i,
{
    if i < s.len() {
        lemma_excerpt_end(s, i + 1);
    }
}

/// The excerpt of a span whose start is at most its end is always defined:
/// its bounds never cross.
pub proof fn law_excerpt_defined_for_ordered_spans(s: Seq<char>, start: usize, end: usize, fs: int, ce: int)
    requires
        start <= end,
        is_floor_index(s, min_usize(start, text_len(s) as int), fs),
        is_ceil_index(s, min_usize(end, text_len(s) as int), ce),
    ensures
        excerpt_start(s, fs) <= excerpt_end(s, ce),
{
    lemma_byte_offset_order(s);
    if fs > ce {
        assert(byte_offset(s, ce) < byte_offset(s, fs));
    }
    lemma_excerpt_bounds(s, fs);
    lemma_excerpt_bounds(s, ce);
}

proof fn lemma_kept_len(b: Seq<MorphAnalysis>, rule: RuleSpec, k: int)
    requires
        0 <= k <= b.len(),
    ensures
        kept_by(b, rule, k).len() <= k,
    decreases k,
{
    if k > 0 {
        lemma_kept_len(b, rule, k - 1);
    }
}

/// A rule never takes a token's last reading: what it leaves of a
/// non-empty set of readings is non-empty, and never more than there was.
pub proof fn law_rule_keeps_a_reading(b: Seq<MorphAnalysis>, rule: RuleSpec)
    ensures
        b.len() > 0 ==> after_rule(b, rule).len() > 0,
        after_rule(b, rule).len() <= b.len(),
{
    lemma_kept_len(b, rule, b.len() as int);
}

/// Where no reading of a word agrees with any reading of the next word,
/// the agreement rule between them prunes nothing.
pub proof fn law_no_pruning_without_agreeing_pair(toks: Seq<Token>, rs: Seq<Seq<MorphAnalysis>>, l: int)
    requires
        0 <= l < toks.len(),
        spec_adjacent_word_index(toks, l) matches Some(r) && !agreeing_pair(rs[l], rs[r]),
    ensures
        agreement_step(toks, rs, l) == rs,
{
}

/// The passes reach a fixpoint or stop at the third: a run stops after the
/// first pass that removes nothing, and never runs more than three.
pub proof fn law_passes_bounded_fixpoint(
    toks: Seq<Token>,
    rs: Seq<Seq<MorphAnalysis>>,
    preps: Seq<PrepositionGovernmentEntry>,
)
    ensures
        1 <= pass_count(toks, rs, preps, 0) <= 3,
        reading_count(one_pass(toks, rs, preps)) == reading_count(rs) ==> pass_count(toks, rs, preps, 0) == 1
            && passes_from(toks, rs, preps, 0) == one_pass(toks, rs, preps),
{
    let r1 = one_pass(toks, rs, preps);
    if reading_count(r1) != reading_count(rs) {
        assert(pass_count(toks, rs, preps, 0) == pass_count(toks, r1, preps, 1));
        let r2 = one_pass(toks, r1, preps);
        if reading_count(r2) != reading_count(r1) {
            assert(pass_count(toks, r1, preps, 1) == pass_count(toks, r2, preps, 2));
            assert(pass_count(toks, r2, preps, 2) == 3);
        } else {
            assert(pass_count(toks, r1, preps, 1) == 2);
        }
    }
}

/// No two edges of a deduplicated edge list share a key.
pub proof fn law_agreement_edges_unique(s: Seq<AgreementGraphEdge>, n: int)
    requires
        0 <= n <= s.len(),
    ensures
        forall|i: int, j: int|
            0 <= i < j < dedup_edges(s, n).len() ==> edge_key(#[trigger] dedup_edges(s, n)[i]) != edge_key(
                #[trigger] dedup_edges(s, n)[j],
            ),
    decreases n,
{
    if n > 0 {
        law_agreement_edges_unique(s, n - 1);
        crate::syntax::agreement_graph::lemma_dedup_keys(s, n - 1);
        let d = dedup_edges(s, n - 1);
        assert forall|i: int, j: int|
            0 <= i < j < dedup_edges(s, n).len() implies edge_key(#[trigger] dedup_edges(s, n)[i]) != edge_key(
            #[trigger] dedup_edges(s, n)[j],
        ) by {
            if !crate::syntax::agreement_graph::key_among(s, n - 1, edge_key(s[n - 1])) {
                if j == d.len() {
                    assert(dedup_edges(s, n)[j] == s[n - 1]);
                    assert(dedup_edges(s, n)[i] == d[i]);
                    if edge_key(d[i]) == edge_key(s[n - 1]) {
                        assert(crate::syntax::agreement_graph::key_among(d, d.len() as int, edge_key(s[n - 1])));
                    }
                } else {
                    assert(dedup_edges(s, n)[i] == d[i]);
                    assert(dedup_edges(s, n)[j] == d[j]);
                }
            }
        }
    }
}

/// The span holds byte offset `b`.
pub open spec fn span_holds(sp: SentenceSpan, b: int) -> bool {
    sp.start <= b < sp.end
}

proof fn lemma_scan_covers(s: Seq<char>, zones: Seq<PunctuationSafeZone>, start: int, cursor: int, p: int)
    requires
        0 <= start <= cursor <= s.len(),
        start <= p < s.len(),
        !spec_is_whitespace(s[p]),
        text_len(s) <= usize::MAX,
    ensures
        exists|k: int|
            0 <= k < sentence_scan(s, zones, start, cursor).len() && #[trigger] span_holds(
                sentence_scan(s, zones, start, cursor)[k],
                byte_offset(s, p) as int,
            ),
    decreases s.len() - cursor,
{
    let scan = sentence_scan(s, zones, start, cursor);
    if cursor >= s.len() {
        lemma_byte_offset_order(s);
        assert(span_holds(scan[0], byte_offset(s, p) as int));
    } else if !spec_is_sentence_boundary(s[cursor]) {
        lemma_scan_covers(s, zones, start, cursor + 1, p);
    } else {
        lemma_run_bounds(s, cursor + 1);
        let te = terminal_run_end(s, cursor + 1);
        if !split_candidate(s, zones, start, cursor, te) {
            lemma_scan_covers(s, zones, start, te, p);
        } else {
            lemma_run_bounds(s, te);
            let end = closing_run_end(s, te);
            lemma_run_bounds(s, end);
            let ns = first_non_ws_from(s, end);
            let rest = sentence_scan(s, zones, ns, ns);
            let head = seq![crate::syntax::sentences::sentence_of(s, start, end)];
            assert(scan == head + rest);
            if p < end {
                lemma_byte_offset_order(s);
                assert(span_holds(scan[0], byte_offset(s, p) as int));
            } else {
                assert(p >= ns);
                lemma_scan_covers(s, zones, ns, ns, p);
                let k = choose|k: int| 0 <= k < rest.len() && #[trigger] span_holds(rest[k], byte_offset(s, p) as int);
                assert(scan[k + 1] == rest[k]);
                assert(span_holds(scan[k + 1], byte_offset(s, p) as int));
            }
        }
    }
}

/// The sentences cover the text: every character that is not white space
/// lies in some sentence span, and there are no sentences exactly when the
/// text is blank.
pub proof fn law_sentences_cover_text(s: Seq<char>)
    requires
        text_len(s) <= usize::MAX,
    ensures
        forall|p: int|
            0 <= p < s.len() && !spec_is_whitespace(#[trigger] s[p]) ==> exists|k: int|
                0 <= k < spec_sentence_spans(s).len() && #[trigger] span_holds(
                    spec_sentence_spans(s)[k],
                    byte_offset(s, p) as int,
                ),
        (spec_sentence_spans(s).len() == 0) == (forall|p: int| 0 <= p < s.len() ==> spec_is_whitespace(#[trigger] s[p])),
{
    lemma_run_bounds(s, 0);
    let st = first_non_ws_from(s, 0);
    if st < s.len() {
        assert(spec_sentence_spans(s) == sentence_scan(s, spec_safe_zones(s), st, st));
        assert forall|p: int| 0 <= p < s.len() && !spec_is_whitespace(#[trigger] s[p]) implies exists|k: int|
            0 <= k < spec_sentence_spans(s).len() && #[trigger] span_holds(
                spec_sentence_spans(s)[k],
                byte_offset(s, p) as int,
            ) by {
            assert(p >= st);
            lemma_scan_covers(s, spec_safe_zones(s), st, st, p);
        }
        assert(!spec_is_whitespace(s[st]));
        lemma_scan_covers(s, spec_safe_zones(s), st, st, st);
    } else {
        assert forall|p: int| 0 <= p < s.len() implies spec_is_whitespace(#[trigger] s[p]) by {
            assert(p < st);
        }
    }
}

/// The span starts at a character that is not white space.
pub open spec fn starts_at_visible(s: Seq<char>, sp: SentenceSpan) -> bool {
    exists|i: int| 0 <= i < s.len() && !spec_is_whitespace(s[i]) && #[trigger] byte_offset(s, i) == sp.start
}

proof fn lemma_scan_starts(s: Seq<char>, zones: Seq<PunctuationSafeZone>, start: int, cursor: int)
    requires
        0 <= start <= cursor <= s.len(),
        start < s.len() ==> !spec_is_whitespace(s[start]),
        text_len(s) <= usize::MAX,
    ensures
        forall|k: int|
            0 <= k < sentence_scan(s, zones, start, cursor).len() ==> #[trigger] starts_at_visible(
                s,
                sentence_scan(s, zones, start, cursor)[k],
            ),
    decreases s.len() - cursor,
{
    lemma_byte_offset_order(s);
    let scan = sentence_scan(s, zones, start, cursor);
    if cursor >= s.len() {
        if start < s.len() {
            assert(byte_offset(s, start) <= text_len(s));
            assert(scan.len() == 1);
            assert(scan[0].start == byte_offset(s, start));
            assert forall|k: int| 0 <= k < scan.len() implies #[trigger] starts_at_visible(s, scan[k]) by {
                assert(k == 0);
                assert(byte_offset(s, start) == scan[0].start);
            }
        }
    } else if !spec_is_sentence_boundary(s[cursor]) {
        lemma_scan_starts(s, zones, start, cursor + 1);
        assert(scan == sentence_scan(s, zones, start, cursor + 1));
    } else {
        lemma_run_bounds(s, cursor + 1);
        let te = terminal_run_end(s, cursor + 1);
        if !split_candidate(s, zones, start, cursor, te) {
            lemma_scan_starts(s, zones, start, te);
            assert(scan == sentence_scan(s, zones, start, te));
        } else {
            lemma_run_bounds(s, te);
            let end = closing_run_end(s, te);
            lemma_run_bounds(s, end);
            let ns = first_non_ws_from(s, end);
            lemma_scan_starts(s, zones, ns, ns);
            let rest = sentence_scan(s, zones, ns, ns);
            let head = seq![crate::syntax::sentences::sentence_of(s, start, end)];
            assert(scan == head + rest);
            assert forall|k: int| 0 <= k < scan.len() implies #[trigger] starts_at_visible(s, scan[k]) by {
                if k == 0 {
                    assert(byte_offset(s, start) == scan[0].start);
                } else {
                    assert(scan[k] == rest[k - 1]);
                }
            }
        }
    }
}

/// Every sentence span starts at a character that is not white space.
pub proof fn law_sentences_start_at_visible_characters(s: Seq<char>)
    requires
        text_len(s) <= usize::MAX,
    ensures
        forall|k: int| 0 <= k < spec_sentence_spans(s).len() ==> #[trigger] starts_at_visible(s, spec_sentence_spans(s)[k]),
{
    lemma_run_bounds(s, 0);
    let st = first_non_ws_from(s, 0);
    if st < s.len() {
        lemma_scan_starts(s, spec_safe_zones(s), st, st);
    }
}

/// The texts of the first `k` tokens, joined.
pub open spec fn joined_texts(toks: Seq<Token>, k: int) -> Seq<char>
    decreases k,
{
    if k <= 0 {
        Seq::empty()
    } else {
        joined_texts(toks, k - 1) + toks[k - 1].text@
    }
}

proof fn lemma_joined_prefix(s: Seq<char>, toks: Seq<Token>, bounds: Seq<int>, k: int)
    requires
        is_tokenization(s, toks, bounds),
        0 <= k <= toks.len(),
    ensures
        joined_texts(toks, k) == s.subrange(0, bounds[k]),
        0 <= bounds[k] <= s.len(),
    decreases k,
{
    if k > 0 {
        lemma_joined_prefix(s, toks, bounds, k - 1);
        assert(crate::text::token_matches(s, toks[k - 1], bounds[k - 1], bounds[k]));
        assert(s.subrange(0, bounds[k - 1]) + s.subrange(bounds[k - 1], bounds[k]) =~= s.subrange(0, bounds[k]));
    } else {
        assert(s.subrange(0, 0) =~= Seq::<char>::empty());
    }
}

/// A tokenization gives the text back: joined, the tokens' texts are the
/// text; there are none exactly when the text is empty; each span is
/// non-empty, the first starts at 0 and each ends where the next starts;
/// and two neighbouring tokens are never of one kind.
pub proof fn law_tokens_reassemble_text(s: Seq<char>, toks: Seq<Token>, bounds: Seq<int>)
    requires
        is_tokenization(s, toks, bounds),
    ensures
        joined_texts(toks, toks.len() as int) == s,
        (toks.len() == 0) == (s.len() == 0),
        forall|k: int| 0 <= k < toks.len() ==> (#[trigger] toks[k]).span.start < toks[k].span.end,
        toks.len() > 0 ==> toks[0].span.start == 0,
        forall|k: int|
            0 <= k && k + 1 < toks.len() ==> (#[trigger] toks[k]).span.end == toks[k + 1].span.start && toks[k].kind
                != toks[k + 1].kind,
{
    lemma_joined_prefix(s, toks, bounds, toks.len() as int);
    assert(s.subrange(0, s.len() as int) =~= s);
    if toks.len() > 0 {
        lemma_first_token(s, toks, bounds);
    }
    assert forall|k: int| 0 <= k < toks.len() implies (#[trigger] toks[k]).span.start < toks[k].span.end by {
        lemma_token_span_nonempty(s, toks, bounds, k);
    }
    assert forall|k: int| 0 <= k && k + 1 < toks.len() implies (#[trigger] toks[k]).span.end == toks[k + 1].span.start
        && toks[k].kind != toks[k + 1].kind by {
        lemma_token_neighbours(s, toks, bounds, k);
    }
}

proof fn lemma_token_neighbours(s: Seq<char>, toks: Seq<Token>, bounds: Seq<int>, k: int)
    requires
        is_tokenization(s, toks, bounds),
        0 <= k && k + 1 < toks.len(),
    ensures
        toks[k].span.end == toks[k + 1].span.start,
        toks[k].kind != toks[k + 1].kind,
{
    assert(crate::text::token_matches(s, toks[k], bounds[k], bounds[k + 1]));
    assert(crate::text::token_matches(s, toks[k + 1], bounds[k + 1], bounds[k + 2]));
}

proof fn lemma_first_token(s: Seq<char>, toks: Seq<Token>, bounds: Seq<int>)
    requires
        is_tokenization(s, toks, bounds),
        toks.len() > 0,
    ensures
        toks[0].span.start == 0,
        s.len() > 0,
{
    assert(crate::text::token_matches(s, toks[0], bounds[0], bounds[1]));
    assert(s.take(0) =~= Seq::<char>::empty());
}

proof fn lemma_token_span_nonempty(s: Seq<char>, toks: Seq<Token>, bounds: Seq<int>, k: int)
    requires
        is_tokenization(s, toks, bounds),
        0 <= k < toks.len(),
    ensures
        toks[k].span.start < toks[k].span.end,
{
    assert(crate::text::token_matches(s, toks[k], bounds[k], bounds[k + 1]));
    lemma_byte_offset_order(s);
}

/// In a ledger, each entry's id is its position, and an entry is emitted
/// exactly when its proof is actionable.
pub proof fn law_ledger_ids_and_status(
    r: Seq<DiagnosticLedgerEntry>,
    items: Seq<LedgerItem>,
    edges: Seq<AgreementGraphEdge>,
    frames: Seq<GovernmentFrame>,
    slots: Seq<PunctuationSlot>,
    ab: Seq<DocumentAbbreviation>,
)
    requires
        entries_are(r, items, edges, frames, slots, ab),
    ensures
        forall|k: int| 0 <= k < r.len() ==> (#[trigger] r[k]).id == k,
        forall|k: int|
            0 <= k < r.len() ==> ((#[trigger] r[k]).status == DiagnosticLedgerStatus::EmittedCandidate) == proof_actionable(
                r[k].proof,
            ),
{
    assert forall|k: int| 0 <= k < r.len() implies (#[trigger] r[k]).id == k && (r[k].status
        == DiagnosticLedgerStatus::EmittedCandidate) == proof_actionable(r[k].proof) by {
        assert(crate::syntax::diagnostic_ledger::entry_is(r[k], k, items[k], edges, frames, slots, ab));
    }
}

/// A government frame that something blocks is never a conflict.
pub proof fn law_blocked_frame_is_no_conflict(f: GovernmentFrame, s: FrameSpec)
    requires
        frame_is(f, s),
        s.blockers != Set::<crate::syntax::diagnostics::SuppressionReason>::empty(),
    ensures
        !frame_conflict(f),
{
    if f.blockers@.len() == 0 {
        assert(f.blockers@.to_set() =~= Set::<crate::syntax::diagnostics::SuppressionReason>::empty());
    }
}

} // verus!
