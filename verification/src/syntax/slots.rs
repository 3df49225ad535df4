use vstd::prelude::*;
use crate::text::{lower_seq, Span, Token, TokenKind};
use crate::unicode::unicode_uppercase;
use crate::readings::{spec_can_modify_noun, MorphAnalysis, PartOfSpeech};
use crate::syntax::ambiguity::{spec_analyses_for, AmbiguityModel, TokenAmbiguity};
use crate::syntax::islands::{first_island_for, spec_can_link, IslandView, SyntacticIslandKind, SyntacticIslandMap};
use crate::syntax::clause_candidates::ClauseCandidate;
use crate::syntax::coordination::CoordinationGroup;
use crate::syntax::diagnostics::{reasons_sorted_set, sort_dedup_reasons, SuppressionReason};
use crate::syntax::punctuation::{
    between_clause_candidates, boundary_strength_for_slot, evidence_views, forbidden_marks_for_slot,
    is_introductory_candidate, marks_between, marks_in, punctuation_marks_between, punctuation_slot_evidence,
    slot_blockers, slot_explanation, sorted_marks, spec_between_clauses, spec_boundary_strength, spec_forbidden_marks,
    spec_introductory, spec_slot_evidence, spec_slot_explanation, subject_predicate_dash_candidate,
    token_pair_has_island_kind, PunctuationMark, PunctuationSlot,
};

verus! {

broadcast use vstd::seq_lib::group_seq_properties;

/// Every reading can modify a noun.
pub open spec fn all_modify_noun(v: Seq<MorphAnalysis>) -> bool {
    forall|i: int| 0 <= i < v.len() ==> spec_can_modify_noun(#[trigger] v[i].pos)
}

/// A reading on each side carries the same case.
pub open spec fn share_case(a: Seq<MorphAnalysis>, b: Seq<MorphAnalysis>) -> bool {
    exists|i: int, j: int|
        0 <= i < a.len() && 0 <= j < b.len() && (#[trigger] a[i]).features.case is Some && a[i].features.case == (
        #[trigger] b[j]).features.case
}

/// A reading on each side carries the same number.
pub open spec fn share_number(a: Seq<MorphAnalysis>, b: Seq<MorphAnalysis>) -> bool {
    exists|i: int, j: int|
        0 <= i < a.len() && 0 <= j < b.len() && (#[trigger] a[i]).features.number is Some && a[i].features.number
            == (#[trigger] b[j]).features.number
}

/// Two words read only as noun modifiers that share a case and a number.
pub open spec fn modifier_pair(a: Seq<MorphAnalysis>, b: Seq<MorphAnalysis>) -> bool {
    all_modify_noun(a) && all_modify_noun(b) && share_case(a, b) && share_number(a, b)
}

pub fn all_can_modify_noun(v: &[MorphAnalysis]) -> (r: bool)
    ensures
        r == all_modify_noun(v@),
{
    let mut i: usize = 0;
    while i < v.len()
        invariant
            i <= v@.len(),
            forall|k: int| 0 <= k < i ==> spec_can_modify_noun(#[trigger] v@[k].pos),
        decreases v@.len() - i,
    {
        if !v[i].pos.can_modify_noun() {
            return false;
        }
        i = i + 1;
    }
    true
}

fn shares_case(a: &[MorphAnalysis], b: &[MorphAnalysis]) -> (r: bool)
    ensures
        r == share_case(a@, b@),
{
    let mut i: usize = 0;
    while i < a.len()
        invariant
            i <= a@.len(),
            forall|x: int, y: int|
                0 <= x < i && 0 <= y < b@.len() ==> !((#[trigger] a@[x]).features.case is Some && a@[x].features.case
                    == (#[trigger] b@[y]).features.case),
        decreases a@.len() - i,
    {
        let mut j: usize = 0;
        while j < b.len()
            invariant
                i < a@.len(),
                j <= b@.len(),
                forall|x: int, y: int|
                    0 <= x < i && 0 <= y < b@.len() ==> !((#[trigger] a@[x]).features.case is Some
                        && a@[x].features.case == (#[trigger] b@[y]).features.case),
                forall|y: int|
                    0 <= y < j ==> !(a@[i as int].features.case is Some && a@[i as int].features.case == (
                    #[trigger] b@[y]).features.case),
            decreases b@.len() - j,
        {
            match a[i].features.case {
                Some(c) => {
                    if b[j].features.case == Some(c) {
                        assert(a@[i as int].features.case is Some && a@[i as int].features.case
                            == b@[j as int].features.case);
                        return true;
                    }
                },
                None => {},
            }
            j = j + 1;
        }
        i = i + 1;
    }
    false
}

fn shares_number(a: &[MorphAnalysis], b: &[MorphAnalysis]) -> (r: bool)
    ensures
        r == share_number(a@, b@),
{
    let mut i: usize = 0;
    while i < a.len()
        invariant
            i <= a@.len(),
            forall|x: int, y: int|
                0 <= x < i && 0 <= y < b@.len() ==> !((#[trigger] a@[x]).features.number is Some
                    && a@[x].features.number == (#[trigger] b@[y]).features.number),
        decreases a@.len() - i,
    {
        let mut j: usize = 0;
        while j < b.len()
            invariant
                i < a@.len(),
                j <= b@.len(),
                forall|x: int, y: int|
                    0 <= x < i && 0 <= y < b@.len() ==> !((#[trigger] a@[x]).features.number is Some
                        && a@[x].features.number == (#[trigger] b@[y]).features.number),
                forall|y: int|
                    0 <= y < j ==> !(a@[i as int].features.number is Some && a@[i as int].features.number == (
                    #[trigger] b@[y]).features.number),
            decreases b@.len() - j,
        {
            match a[i].features.number {
                Some(n) => {
                    if b[j].features.number == Some(n) {
                        assert(a@[i as int].features.number is Some && a@[i as int].features.number
                            == b@[j as int].features.number);
                        return true;
                    }
                },
                None => {},
            }
            j = j + 1;
        }
        i = i + 1;
    }
    false
}

/// Both words are read only as noun modifiers, and they share a case and a
/// number.
pub fn modifier_coordination_pair(left: &[MorphAnalysis], right: &[MorphAnalysis]) -> (r: bool)
    ensures
        r == modifier_pair(left@, right@),
{
    if !all_can_modify_noun(left) {
        return false;
    }
    if !all_can_modify_noun(right) {
        return false;
    }
    shares_case(left, right) && shares_number(left, right)
}

pub open spec fn has_noun_reading(v: Seq<MorphAnalysis>) -> bool {
    exists|k: int| 0 <= k < v.len() && (#[trigger] v[k]).pos == PartOfSpeech::Noun
}

/// Scanning tokens `i..hi`: punctuation ends the search with no, other
/// non-words are passed over, and the first word answers by whether it has
/// a noun reading.
pub open spec fn nominal_head_from(toks: Seq<Token>, items: Seq<TokenAmbiguity>, i: int, hi: int) -> bool
    decreases hi - i,
{
    if i >= hi {
        false
    } else if toks[i].kind == TokenKind::Punctuation {
        false
    } else if toks[i].kind != TokenKind::Word {
        nominal_head_from(toks, items, i + 1, hi)
    } else {
        has_noun_reading(spec_analyses_for(items, i as usize))
    }
}

/// The search for a head looks at most five tokens ahead.
pub open spec fn head_window_end(len: int, after: int) -> int {
    if after + 6 < len {
        after + 6
    } else {
        len
    }
}

pub open spec fn spec_following_nominal_head(toks: Seq<Token>, items: Seq<TokenAmbiguity>, after: int) -> bool {
    nominal_head_from(toks, items, after + 1, head_window_end(toks.len() as int, after))
}

fn any_noun_reading(v: &[MorphAnalysis]) -> (r: bool)
    ensures
        r == has_noun_reading(v@),
{
    let mut i: usize = 0;
    while i < v.len()
        invariant
            i <= v@.len(),
            forall|k: int| 0 <= k < i ==> (#[trigger] v@[k]).pos != PartOfSpeech::Noun,
        decreases v@.len() - i,
    {
        if v[i].pos == PartOfSpeech::Noun {
            return true;
        }
        i = i + 1;
    }
    false
}

/// The first word within five tokens after `after`, with no punctuation
/// before it, can be read as a noun.
pub fn following_nominal_head(tokens: &[Token], ambiguity: &AmbiguityModel, after: usize) -> (r: bool)
    requires
        after < tokens@.len(),
    ensures
        r == spec_following_nominal_head(tokens@, ambiguity.items(), after as int),
{
    let hi = if tokens.len() - after > 6 {
        after + 6
    } else {
        tokens.len()
    };
    assert(hi == head_window_end(tokens@.len() as int, after as int));
    let mut i = after + 1;
    while i < hi
        invariant
            after < i <= hi <= tokens@.len(),
            hi == head_window_end(tokens@.len() as int, after as int),
            spec_following_nominal_head(tokens@, ambiguity.items(), after as int) == nominal_head_from(
                tokens@,
                ambiguity.items(),
                i as int,
                hi as int,
            ),
        decreases hi - i,
    {
        if tokens[i].kind == TokenKind::Punctuation {
            return false;
        }
        if tokens[i].kind == TokenKind::Word {
            return any_noun_reading(ambiguity.analyses_for_token(i));
        }
        i = i + 1;
    }
    false
}

/// Every mark in the list is a comma.
pub open spec fn only_commas(ms: Seq<PunctuationMark>) -> bool {
    forall|i: int| 0 <= i < ms.len() ==> #[trigger] ms[i] == PunctuationMark::Comma
}

/// Two linkable words with nothing but commas between them, both read only
/// as noun modifiers that share a case and a number, followed closely by a
/// noun: a series of modifiers without a conjunction.
pub open spec fn spec_asyndetic(toks: Seq<Token>, items: Seq<TokenAmbiguity>, v: Seq<IslandView>, l: int, r: int) -> bool {
    &&& spec_can_link(v, l, r)
    &&& only_commas(sorted_marks(marks_between(toks, l, r - l - 1).to_set()))
    &&& spec_analyses_for(items, l as usize).len() > 0
    &&& spec_analyses_for(items, r as usize).len() > 0
    &&& modifier_pair(spec_analyses_for(items, l as usize), spec_analyses_for(items, r as usize))
    &&& spec_following_nominal_head(toks, items, r)
}

fn all_commas(ms: &Vec<PunctuationMark>) -> (r: bool)
    ensures
        r == only_commas(ms@),
{
    let mut i: usize = 0;
    while i < ms.len()
        invariant
            i <= ms@.len(),
            forall|k: int| 0 <= k < i ==> #[trigger] ms@[k] == PunctuationMark::Comma,
        decreases ms@.len() - i,
    {
        if ms[i] != PunctuationMark::Comma {
            return false;
        }
        i = i + 1;
    }
    true
}

/// The two words form a coordination of modifiers with no conjunction.
pub fn asyndetic_coordination_candidate(
    tokens: &[Token],
    ambiguity: &AmbiguityModel,
    left_idx: usize,
    right_idx: usize,
    islands: &SyntacticIslandMap,
) -> (r: bool)
    requires
        left_idx < right_idx < tokens@.len(),
    ensures
        r == spec_asyndetic(
            tokens@,
            ambiguity.items(),
            islands.islands_view(),
            left_idx as int,
            right_idx as int,
        ),
{
    if !islands.can_link_tokens(left_idx, right_idx) {
        return false;
    }
    let marks = punctuation_marks_between(tokens, left_idx, right_idx);
    if !all_commas(&marks) {
        return false;
    }
    let left = ambiguity.analyses_for_token(left_idx);
    let right = ambiguity.analyses_for_token(right_idx);
    if left.len() == 0 || right.len() == 0 {
        return false;
    }
    modifier_coordination_pair(left, right) && following_nominal_head(tokens, ambiguity, right_idx)
}

/// The first island that holds token `t` is of the kind.
pub open spec fn island_of_kind(v: Seq<IslandView>, t: int, kind: SyntacticIslandKind) -> bool {
    match first_island_for(v, t) {
        Some(k) => v[k].kind == kind,
        None => false,
    }
}

pub open spec fn pair_island_of_kind(v: Seq<IslandView>, l: int, r: int, kind: SyntacticIslandKind) -> bool {
    island_of_kind(v, l, kind) || island_of_kind(v, r, kind)
}

/// What blocks a slot: an unsafe boundary between tokens that cannot be
/// linked, and the direct speech or parentheses either token stands in.
pub open spec fn slot_blocker_set(v: Seq<IslandView>, l: int, r: int) -> Set<SuppressionReason> {
    let s0 = if spec_can_link(v, l, r) {
        Set::empty()
    } else {
        set![SuppressionReason::UnsafeBoundary]
    };
    let s1 = if pair_island_of_kind(v, l, r, SyntacticIslandKind::DirectSpeech) {
        s0.insert(SuppressionReason::DirectSpeechBoundary)
    } else {
        s0
    };
    if pair_island_of_kind(v, l, r, SyntacticIslandKind::Parenthetical) {
        s1.insert(SuppressionReason::ParenthesisBoundary)
    } else {
        s1
    }
}

pub open spec fn slot_blocked(v: Seq<IslandView>, l: int, r: int) -> bool {
    !spec_can_link(v, l, r) || pair_island_of_kind(v, l, r, SyntacticIslandKind::DirectSpeech) || pair_island_of_kind(
        v,
        l,
        r,
        SyntacticIslandKind::Parenthetical,
    )
}

/// A comma where one is called for, and a dash between two capitalized
/// words.
pub open spec fn expected_set(comma: bool, dash: bool) -> Set<PunctuationMark> {
    let s0 = if comma {
        set![PunctuationMark::Comma]
    } else {
        Set::empty()
    };
    if dash {
        s0.insert(PunctuationMark::Dash)
    } else {
        s0
    }
}

pub open spec fn spec_dash_candidate(a: Seq<char>, b: Seq<char>) -> bool {
    a.len() > 0 && unicode_uppercase(a[0]) && b.len() > 0 && unicode_uppercase(b[0])
}

/// The two tokens are neighbouring members of the group.
pub open spec fn pair_in_group(g: CoordinationGroup, l: int, r: int) -> bool {
    exists|j: int|
        0 <= j && j + 1 < g.members@.len() && (#[trigger] g.members@[j]).token_index == l && g.members@[j
            + 1].token_index == r
}

pub open spec fn pair_in_groups(gs: Seq<CoordinationGroup>, l: int, r: int) -> bool {
    exists|k: int| 0 <= k < gs.len() && pair_in_group(#[trigger] gs[k], l, r)
}

/// The slot between tokens `l` and `r` calls for a comma as part of a
/// coordination.
pub open spec fn slot_coordination(
    toks: Seq<Token>,
    items: Seq<TokenAmbiguity>,
    v: Seq<IslandView>,
    gs: Seq<CoordinationGroup>,
    l: int,
    r: int,
) -> bool {
    pair_in_groups(gs, l, r) || spec_asyndetic(toks, items, v, l, r)
}

/// `s` is the punctuation slot `id` between word tokens `l` and `r`.
pub open spec fn is_slot(
    toks: Seq<Token>,
    items: Seq<TokenAmbiguity>,
    v: Seq<IslandView>,
    cs: Seq<ClauseCandidate>,
    gs: Seq<CoordinationGroup>,
    id: int,
    l: int,
    r: int,
    s: PunctuationSlot,
) -> bool {
    let span = Span { start: toks[l].span.end, end: toks[r].span.start };
    let between = spec_between_clauses(cs, v, l, r);
    let intro = spec_introductory(lower_seq(toks[l].text@));
    let coord = slot_coordination(toks, items, v, gs, l, r);
    let existing = sorted_marks(marks_between(toks, l, r - l - 1).to_set());
    let expected = sorted_marks(expected_set(between || intro || coord, spec_dash_candidate(toks[l].text@, toks[r].text@)));
    let blocked = slot_blocked(v, l, r);
    let strength = spec_boundary_strength(blocked, between, intro, coord);
    &&& s.id == id
    &&& s.span == span
    &&& s.left_token_index == l
    &&& s.right_token_index == r
    &&& s.left_token == toks[l]
    &&& s.right_token == toks[r]
    &&& s.boundary_strength == strength
    &&& s.inside_quotes == pair_island_of_kind(v, l, r, SyntacticIslandKind::DirectSpeech)
    &&& s.inside_parentheses == pair_island_of_kind(v, l, r, SyntacticIslandKind::Parenthetical)
    &&& s.between_clauses == between
    &&& s.after_introductory_candidate == intro
    &&& s.existing_marks@ == existing
    &&& s.expected_marks@ == expected
    &&& s.forbidden_marks@ == spec_forbidden_marks(blocked, existing, coord)
    &&& s.explanation@ == spec_slot_explanation(strength, between, intro, coord)
    &&& reasons_sorted_set(s.blockers@)
    &&& s.blockers@.to_set() == slot_blocker_set(v, l, r)
    &&& evidence_views(s.evidence@) == spec_slot_evidence(
        span,
        strength,
        between,
        intro,
        coord,
        existing,
        expected,
        s.forbidden_marks@,
        s.blockers@,
    )
}

fn group_has_pair(g: &CoordinationGroup, left_idx: usize, right_idx: usize) -> (r: bool)
    ensures
        r == pair_in_group(*g, left_idx as int, right_idx as int),
{
    let mut j: usize = 0;
    while j < g.members.len()
        invariant
            j <= g.members@.len(),
            forall|y: int|
                0 <= y < j && y + 1 < g.members@.len() ==> !((#[trigger] g.members@[y]).token_index == left_idx
                    && g.members@[y + 1].token_index == right_idx),
        decreases g.members@.len() - j,
    {
        if j + 1 < g.members.len() && g.members[j].token_index == left_idx && g.members[j + 1].token_index
            == right_idx {
            return true;
        }
        j = j + 1;
    }
    false
}

/// Some group has the two tokens as neighbouring members.
pub fn pair_in_coordination(groups: &[CoordinationGroup], left_idx: usize, right_idx: usize) -> (r: bool)
    ensures
        r == pair_in_groups(groups@, left_idx as int, right_idx as int),
{
    let mut k: usize = 0;
    while k < groups.len()
        invariant
            k <= groups@.len(),
            forall|x: int| 0 <= x < k ==> !pair_in_group(#[trigger] groups@[x], left_idx as int, right_idx as int),
        decreases groups@.len() - k,
    {
        if group_has_pair(&groups[k], left_idx, right_idx) {
            return true;
        }
        k = k + 1;
    }
    false
}

proof fn lemma_expected_sorted(comma: bool, dash: bool)
    ensures
        sorted_marks(expected_set(comma, dash)) == (if comma && dash {
            seq![PunctuationMark::Comma, PunctuationMark::Dash]
        } else if comma {
            seq![PunctuationMark::Comma]
        } else if dash {
            seq![PunctuationMark::Dash]
        } else {
            Seq::empty()
        }),
{
    reveal_with_fuel(marks_in, 6);
    let s = expected_set(comma, dash);
    assert(s.contains(PunctuationMark::Comma) == comma);
    assert(s.contains(PunctuationMark::Dash) == dash);
    assert(!s.contains(PunctuationMark::Colon));
    assert(!s.contains(PunctuationMark::Semicolon));
    assert(!s.contains(PunctuationMark::Period));
    if comma && dash {
        assert(sorted_marks(s) =~= seq![PunctuationMark::Comma, PunctuationMark::Dash]);
    } else if comma {
        assert(sorted_marks(s) =~= seq![PunctuationMark::Comma]);
    } else if dash {
        assert(sorted_marks(s) =~= seq![PunctuationMark::Dash]);
    } else {
        assert(sorted_marks(s) =~= Seq::<PunctuationMark>::empty());
    }
}

/// The punctuation slot between two word tokens.
fn punctuation_slot_for_pair(
    id: usize,
    tokens: &[Token],
    ambiguity: &AmbiguityModel,
    islands: &SyntacticIslandMap,
    clauses: &[ClauseCandidate],
    coordination_groups: &[CoordinationGroup],
    left_idx: usize,
    right_idx: usize,
) -> (s: PunctuationSlot)
    requires
        left_idx < right_idx < tokens@.len(),
    ensures
        is_slot(
            tokens@,
            ambiguity.items(),
            islands.islands_view(),
            clauses@,
            coordination_groups@,
            id as int,
            left_idx as int,
            right_idx as int,
            s,
        ),
{
    let ghost v = islands.islands_view();
    let left = tokens[left_idx].duplicate();
    let right = tokens[right_idx].duplicate();
    let span = Span::new(left.span.end, right.span.start);
    let left_island = islands.island_for_token(left_idx);
    let right_island = islands.island_for_token(right_idx);
    let inside_quotes = token_pair_has_island_kind(left_island, right_island, SyntacticIslandKind::DirectSpeech);
    let inside_parentheses = token_pair_has_island_kind(left_island, right_island, SyntacticIslandKind::Parenthetical);
    assert(inside_quotes == pair_island_of_kind(v, left_idx as int, right_idx as int, SyntacticIslandKind::DirectSpeech));
    assert(inside_parentheses == pair_island_of_kind(
        v,
        left_idx as int,
        right_idx as int,
        SyntacticIslandKind::Parenthetical,
    ));
    let mut raw_blockers = slot_blockers(left_idx, right_idx, islands);
    let between_clauses = between_clause_candidates(left_idx, right_idx, clauses, islands);
    let after_introductory_candidate = is_introductory_candidate(left.text.as_str());
    let existing_marks = punctuation_marks_between(tokens, left_idx, right_idx);
    let in_coordination = pair_in_coordination(coordination_groups, left_idx, right_idx);
    let coordination_candidate = in_coordination || asyndetic_coordination_candidate(
        tokens,
        ambiguity,
        left_idx,
        right_idx,
        islands,
    );
    let ghost raw0 = raw_blockers@;
    if inside_quotes {
        raw_blockers.push(SuppressionReason::DirectSpeechBoundary);
    }
    let ghost raw1 = raw_blockers@;
    if inside_parentheses {
        raw_blockers.push(SuppressionReason::ParenthesisBoundary);
    }
    proof {
        let s0 = if spec_can_link(v, left_idx as int, right_idx as int) {
            Set::<SuppressionReason>::empty()
        } else {
            set![SuppressionReason::UnsafeBoundary]
        };
        assert(raw0.to_set() =~= s0) by {
            if !spec_can_link(v, left_idx as int, right_idx as int) {
                assert(raw0 =~= seq![SuppressionReason::UnsafeBoundary]);
                assert(raw0[0] == SuppressionReason::UnsafeBoundary);
            }
        }
        if inside_quotes {
            raw0.lemma_push_to_set_commute(SuppressionReason::DirectSpeechBoundary);
        }
        if inside_parentheses {
            raw1.lemma_push_to_set_commute(SuppressionReason::ParenthesisBoundary);
        }
        assert(raw_blockers@.to_set() == slot_blocker_set(v, left_idx as int, right_idx as int));
    }
    let blockers = sort_dedup_reasons(raw_blockers);
    proof {
        let b = slot_blocked(v, left_idx as int, right_idx as int);
        if b {
            if !spec_can_link(v, left_idx as int, right_idx as int) {
                assert(slot_blocker_set(v, left_idx as int, right_idx as int).contains(SuppressionReason::UnsafeBoundary));
            } else if inside_quotes {
                assert(slot_blocker_set(v, left_idx as int, right_idx as int).contains(
                    SuppressionReason::DirectSpeechBoundary,
                ));
            } else {
                assert(slot_blocker_set(v, left_idx as int, right_idx as int).contains(
                    SuppressionReason::ParenthesisBoundary,
                ));
            }
            assert(blockers@.len() > 0);
        } else {
            assert(slot_blocker_set(v, left_idx as int, right_idx as int) =~= Set::<SuppressionReason>::empty());
            if blockers@.len() > 0 {
                assert(blockers@.to_set().contains(blockers@[0]));
            }
            assert(blockers@.len() == 0);
        }
    }
    let comma = between_clauses || after_introductory_candidate || coordination_candidate;
    let dash = subject_predicate_dash_candidate(left.text.as_str(), right.text.as_str());
    let mut expected_marks: Vec<PunctuationMark> = Vec::new();
    if comma {
        expected_marks.push(PunctuationMark::Comma);
    }
    if dash {
        expected_marks.push(PunctuationMark::Dash);
    }
    proof {
        lemma_expected_sorted(comma, dash);
        assert(expected_marks@ =~= sorted_marks(expected_set(comma, dash)));
    }
    let forbidden_marks = forbidden_marks_for_slot(blockers.as_slice(), &existing_marks, coordination_candidate);
    let boundary_strength = boundary_strength_for_slot(
        blockers.as_slice(),
        between_clauses,
        after_introductory_candidate,
        coordination_candidate,
    );
    let explanation = slot_explanation(
        boundary_strength,
        between_clauses,
        after_introductory_candidate,
        coordination_candidate,
    );
    let evidence = punctuation_slot_evidence(
        span,
        boundary_strength,
        between_clauses,
        after_introductory_candidate,
        coordination_candidate,
        existing_marks.as_slice(),
        expected_marks.as_slice(),
        forbidden_marks.as_slice(),
        blockers.as_slice(),
    );
    PunctuationSlot {
        id,
        span,
        left_token_index: left_idx,
        right_token_index: right_idx,
        left_token: left,
        right_token: right,
        boundary_strength,
        inside_quotes,
        inside_parentheses,
        between_clauses,
        after_introductory_candidate,
        existing_marks,
        expected_marks,
        forbidden_marks,
        explanation,
        evidence,
        blockers,
    }
}

/// Positions of the word tokens among the first `k` tokens, in order.
pub open spec fn word_positions(toks: Seq<Token>, k: int) -> Seq<int>
    decreases k,
{
    if k <= 0 {
        Seq::empty()
    } else if toks[k - 1].kind == TokenKind::Word {
        word_positions(toks, k - 1).push(k - 1)
    } else {
        word_positions(toks, k - 1)
    }
}

pub open spec fn all_word_positions(toks: Seq<Token>) -> Seq<int> {
    word_positions(toks, toks.len() as int)
}

/// Word positions are increasing, in range, and at word tokens.
pub proof fn lemma_word_positions(toks: Seq<Token>, k: int)
    requires
        0 <= k <= toks.len(),
    ensures
        forall|i: int, j: int|
            0 <= i < j < word_positions(toks, k).len() ==> #[trigger] word_positions(toks, k)[i]
                < #[trigger] word_positions(toks, k)[j],
        forall|i: int|
            0 <= i < word_positions(toks, k).len() ==> 0 <= #[trigger] word_positions(toks, k)[i] < k
                && toks[word_positions(toks, k)[i]].kind == TokenKind::Word,
    decreases k,
{
    if k > 0 {
        lemma_word_positions(toks, k - 1);
    }
}

/// One punctuation slot between each pair of neighbouring word tokens, in
/// text order, each with its position as id.
pub fn punctuation_slots_from_facts(
    tokens: &[Token],
    ambiguity: &AmbiguityModel,
    islands: &SyntacticIslandMap,
    clauses: &[ClauseCandidate],
    coordination_groups: &[CoordinationGroup],
) -> (r: Vec<PunctuationSlot>)
    ensures
        r@.len() == if all_word_positions(tokens@).len() == 0 {
            0
        } else {
            all_word_positions(tokens@).len() - 1
        },
        forall|k: int|
            0 <= k < r@.len() ==> is_slot(
                tokens@,
                ambiguity.items(),
                islands.islands_view(),
                clauses@,
                coordination_groups@,
                k,
                all_word_positions(tokens@)[k],
                all_word_positions(tokens@)[k + 1],
                #[trigger] r@[k],
            ),
{
    let mut word_indices: Vec<usize> = Vec::new();
    let mut i: usize = 0;
    while i < tokens.len()
        invariant
            i <= tokens@.len(),
            word_indices@.len() == word_positions(tokens@, i as int).len(),
            forall|j: int|
                0 <= j < word_indices@.len() ==> #[trigger] word_indices@[j] as int == word_positions(
                    tokens@,
                    i as int,
                )[j],
        decreases tokens@.len() - i,
    {
        if tokens[i].kind == TokenKind::Word {
            word_indices.push(i);
        }
        i = i + 1;
    }
    let ghost w = all_word_positions(tokens@);
    proof {
        lemma_word_positions(tokens@, tokens@.len() as int);
    }
    let mut out: Vec<PunctuationSlot> = Vec::new();
    let n = word_indices.len();
    let last = if n == 0 {
        0
    } else {
        n - 1
    };
    let mut p: usize = 0;
    while p < last
        invariant
            n == word_indices@.len(),
            last == if n == 0 {
                0
            } else {
                n - 1
            },
            p <= last,
            w == all_word_positions(tokens@),
            word_indices@.len() == w.len(),
            forall|j: int| 0 <= j < word_indices@.len() ==> #[trigger] word_indices@[j] as int == w[j],
            forall|a: int, b: int| 0 <= a < b < w.len() ==> #[trigger] w[a] < #[trigger] w[b],
            forall|a: int| 0 <= a < w.len() ==> 0 <= #[trigger] w[a] < tokens@.len(),
            p <= word_indices@.len(),
            out@.len() == p,
            forall|k: int|
                0 <= k < out@.len() ==> is_slot(
                    tokens@,
                    ambiguity.items(),
                    islands.islands_view(),
                    clauses@,
                    coordination_groups@,
                    k,
                    w[k],
                    w[k + 1],
                    #[trigger] out@[k],
                ),
        decreases word_indices@.len() - p,
    {
        let left_idx = word_indices[p];
        let right_idx = word_indices[p + 1];
        assert(w[p as int] < w[p as int + 1]);
        let slot = punctuation_slot_for_pair(
            out.len(),
            tokens,
            ambiguity,
            islands,
            clauses,
            coordination_groups,
            left_idx,
            right_idx,
        );
        out.push(slot);
        p = p + 1;
    }
    out
}

} // verus!
