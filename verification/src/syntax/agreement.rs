use vstd::prelude::*;
use crate::text::{Span, Token};
use crate::readings::{
    can_agree_as_adj_noun, copy_analyses, is_complete_for_adj_noun, spec_can_agree_as_adj_noun,
    spec_complete_for_adj_noun, MorphAnalysis,
};
use crate::syntax::model::{spec_confidence_actionable, SyntaxConfidence};
use crate::syntax::diagnostics::{reason_of_blocker, reasons_sorted_set, sort_dedup_reasons, SuppressionReason};
use crate::syntax::ambiguity::{spec_analyses_for, AmbiguityModel, TokenAmbiguity};
use crate::syntax::islands::{spec_can_link, IslandView, SyntacticIslandKind, SyntacticIslandMap};
use crate::syntax::slots::island_of_kind;
use crate::syntax::nominal_groups::{
    can_head_group, can_modify_group, head_readings, modifier_readings, nominal_group_roles_are_plausible,
    NominalGroupCandidate,
};
use crate::syntax::government::{MorphCompatibility, MorphosyntacticRole, MorphosyntacticTerm};
use crate::syntax::clause_candidates::ClauseCandidate;
use crate::readings::features_compatible;

verus! {

/// Which agreement a check is about.
#[derive(Debug, Clone, Copy, PartialEq, Eq, Structural, PartialOrd, Ord, Hash)]
pub enum AgreementRelationKind {
    AdjectiveNoun,
    SubjectPredicate,
    NumeralNoun,
}

/// Whether two sets of readings can agree.
#[derive(Debug, Clone, Copy, PartialEq, Eq, Structural)]
pub struct AgreementCheck {
    pub relation: AgreementRelationKind,
    pub compatibility: MorphCompatibility,
}

impl AgreementCheck {
    /// The readings are known well enough to say they cannot agree.
    pub fn is_confident_rejection(&self) -> (r: bool)
        ensures
            r == (self.compatibility == MorphCompatibility::Incompatible),
    {
        self.compatibility == MorphCompatibility::Incompatible
    }
}

pub open spec fn some_pair_agrees(left: Seq<MorphAnalysis>, right: Seq<MorphAnalysis>) -> bool {
    exists|i: int, j: int|
        0 <= i < left.len() && 0 <= j < right.len() && spec_can_agree_as_adj_noun(#[trigger] left[i], #[trigger] right[j])
}

pub open spec fn all_complete(v: Seq<MorphAnalysis>) -> bool {
    forall|i: int| 0 <= i < v.len() ==> spec_complete_for_adj_noun(#[trigger] v[i])
}

/// Unknown when a side has no readings; compatible when some modifier
/// reading agrees with some noun reading; incompatible when none does and
/// every reading carries case and number; unknown otherwise.
pub open spec fn spec_adjective_noun_compatibility(left: Seq<MorphAnalysis>, right: Seq<MorphAnalysis>) -> MorphCompatibility {
    if left.len() == 0 || right.len() == 0 {
        MorphCompatibility::Unknown
    } else if some_pair_agrees(left, right) {
        MorphCompatibility::Compatible
    } else if all_complete(left) && all_complete(right) {
        MorphCompatibility::Incompatible
    } else {
        MorphCompatibility::Unknown
    }
}

fn readings_complete(v: &Vec<MorphAnalysis>) -> (r: bool)
    ensures
        r == all_complete(v@),
{
    let mut i: usize = 0;
    while i < v.len()
        invariant
            i <= v@.len(),
            forall|k: int| 0 <= k < i ==> spec_complete_for_adj_noun(#[trigger] v@[k]),
        decreases v@.len() - i,
    {
        if !is_complete_for_adj_noun(&v[i]) {
            return false;
        }
        i = i + 1;
    }
    true
}

fn pair_agrees(left: &Vec<MorphAnalysis>, right: &Vec<MorphAnalysis>) -> (r: bool)
    ensures
        r == some_pair_agrees(left@, right@),
{
    let mut i: usize = 0;
    while i < left.len()
        invariant
            i <= left@.len(),
            forall|x: int, y: int|
                0 <= x < i && 0 <= y < right@.len() ==> !spec_can_agree_as_adj_noun(#[trigger] left@[x], #[trigger] right@[y]),
        decreases left@.len() - i,
    {
        let mut j: usize = 0;
        while j < right.len()
            invariant
                i < left@.len(),
                j <= right@.len(),
                forall|x: int, y: int|
                    0 <= x < i && 0 <= y < right@.len() ==> !spec_can_agree_as_adj_noun(#[trigger] left@[x], #[trigger] right@[y]),
                forall|y: int| 0 <= y < j ==> !spec_can_agree_as_adj_noun(left@[i as int], #[trigger] right@[y]),
            decreases right@.len() - j,
        {
            if can_agree_as_adj_noun(&left[i], &right[j]) {
                return true;
            }
            j = j + 1;
        }
        i = i + 1;
    }
    false
}

/// The modifier-noun agreement check of two sets of readings.
pub fn adjective_noun_check(left: &Vec<MorphAnalysis>, right: &Vec<MorphAnalysis>) -> (r: AgreementCheck)
    ensures
        r.relation == AgreementRelationKind::AdjectiveNoun,
        r.compatibility == spec_adjective_noun_compatibility(left@, right@),
{
    let compatibility = if left.len() == 0 || right.len() == 0 {
        MorphCompatibility::Unknown
    } else if pair_agrees(left, right) {
        MorphCompatibility::Compatible
    } else if readings_complete(left) && readings_complete(right) {
        MorphCompatibility::Incompatible
    } else {
        MorphCompatibility::Unknown
    };
    AgreementCheck { relation: AgreementRelationKind::AdjectiveNoun, compatibility }
}

#[derive(Debug, Clone, Copy, PartialEq, Eq, Structural, PartialOrd, Ord, Hash)]
pub enum AgreementGraphEdgeKind {
    ModifierHead,
    SubjectPredicate,
    NumeralHead,
    Apposition,
    Unknown,
}

/// Two terms that must agree, with the check of their readings.
#[derive(Debug, Clone, PartialEq, Eq)]
pub struct AgreementGraphEdge {
    pub kind: AgreementGraphEdgeKind,
    pub left: MorphosyntacticTerm,
    pub right: MorphosyntacticTerm,
    pub span: Span,
    pub constraint: AgreementCheck,
    pub confidence: SyntaxConfidence,
    pub blockers: Vec<SuppressionReason>,
}

impl AgreementGraphEdge {
    /// A trusted edge with nothing blocking it whose readings cannot agree.
    pub fn is_conflict(&self) -> (r: bool)
        ensures
            r == (spec_confidence_actionable(self.confidence) && self.blockers@.len() == 0
                && self.constraint.compatibility == MorphCompatibility::Incompatible),
    {
        self.confidence.is_actionable() && self.blockers.len() == 0 && self.constraint.is_confident_rejection()
    }
}

/// What keeps two tokens from being linked: nothing when they can be;
/// otherwise direct speech, parentheses or an unsafe boundary, in that
/// order of precedence.
pub open spec fn spec_link_blockers(v: Seq<IslandView>, l: int, r: int) -> Seq<SuppressionReason> {
    if spec_can_link(v, l, r) {
        Seq::empty()
    } else if island_of_kind(v, l, SyntacticIslandKind::DirectSpeech) || island_of_kind(
        v,
        r,
        SyntacticIslandKind::DirectSpeech,
    ) {
        seq![SuppressionReason::DirectSpeechBoundary]
    } else if island_of_kind(v, l, SyntacticIslandKind::Parenthetical) || island_of_kind(
        v,
        r,
        SyntacticIslandKind::Parenthetical,
    ) {
        seq![SuppressionReason::ParenthesisBoundary]
    } else {
        seq![SuppressionReason::UnsafeBoundary]
    }
}

pub fn boundary_blockers_for_link(left_token: usize, right_token: usize, islands: &SyntacticIslandMap) -> (r: Vec<
    SuppressionReason,
>)
    ensures
        r@ == spec_link_blockers(islands.islands_view(), left_token as int, right_token as int),
{
    let mut out: Vec<SuppressionReason> = Vec::new();
    if islands.can_link_tokens(left_token, right_token) {
        return out;
    }
    let left = islands.island_for_token(left_token);
    let right = islands.island_for_token(right_token);
    let left_kind = match left {
        Some(i) => Some(i.kind),
        None => None,
    };
    let right_kind = match right {
        Some(i) => Some(i.kind),
        None => None,
    };
    if left_kind == Some(SyntacticIslandKind::DirectSpeech) || right_kind == Some(SyntacticIslandKind::DirectSpeech) {
        out.push(SuppressionReason::DirectSpeechBoundary);
    } else if left_kind == Some(SyntacticIslandKind::Parenthetical) || right_kind == Some(
        SyntacticIslandKind::Parenthetical,
    ) {
        out.push(SuppressionReason::ParenthesisBoundary);
    } else {
        out.push(SuppressionReason::UnsafeBoundary);
    }
    assert(out@ =~= spec_link_blockers(islands.islands_view(), left_token as int, right_token as int));
    out
}

/// Index of the first item from `k` on whose token has the span.
pub open spec fn item_by_span(items: Seq<TokenAmbiguity>, span: Span, k: int) -> Option<int>
    decreases items.len() - k,
{
    if k < 0 || k >= items.len() {
        None
    } else if items[k].token.span == span {
        Some(k)
    } else {
        item_by_span(items, span, k + 1)
    }
}

/// The token index of the first analysed token with the span.
pub open spec fn spec_index_by_span(items: Seq<TokenAmbiguity>, span: Span) -> Option<int> {
    match item_by_span(items, span, 0) {
        Some(k) => Some(items[k].token_index as int),
        None => None,
    }
}

pub proof fn lemma_item_by_span(items: Seq<TokenAmbiguity>, span: Span, k: int)
    ensures
        item_by_span(items, span, k) matches Some(j) ==> 0 <= j < items.len(),
    decreases items.len() - k,
{
    if 0 <= k < items.len() && items[k].token.span != span {
        lemma_item_by_span(items, span, k + 1);
    }
}

fn token_index_by_span_in_ambiguity(ambiguity: &AmbiguityModel, span: Span) -> (r: Option<usize>)
    ensures
        r == (match spec_index_by_span(ambiguity.items(), span) {
            Some(t) => Some(t as usize),
            None => None,
        }),
{
    let items = ambiguity.token_ambiguities();
    let mut k: usize = 0;
    while k < items.len() && items[k].token.span != span
        invariant
            items@ == ambiguity.items(),
            k <= items@.len(),
            item_by_span(items@, span, 0) == item_by_span(items@, span, k as int),
        decreases items@.len() - k,
    {
        k = k + 1;
    }
    if k < items.len() {
        Some(items[k].token_index)
    } else {
        None
    }
}

/// The offsets among the first `k` modifiers of the group that make an
/// edge: the modifier is an analysed token with some reading.
pub open spec fn edge_offsets(g: NominalGroupCandidate, items: Seq<TokenAmbiguity>, k: int) -> Seq<int>
    decreases k,
{
    if k <= 0 {
        Seq::empty()
    } else {
        let prev = edge_offsets(g, items, k - 1);
        match spec_index_by_span(items, g.modifiers@[k - 1].span) {
            Some(mi) => if spec_analyses_for(items, mi as usize).len() > 0 {
                prev.push(k - 1)
            } else {
                prev
            },
            None => prev,
        }
    }
}

/// The readings make the group plausible: the head's can head a nominal
/// group and every modifier's can modify one.
pub open spec fn roles_plausible(g: NominalGroupCandidate, items: Seq<TokenAmbiguity>) -> bool {
    can_head_group(spec_analyses_for(items, g.end_token)) && forall|o: int|
        0 <= o < g.modifiers@.len() ==> #[trigger] can_modify_group(
            spec_analyses_for(items, (g.start_token + 2 * o) as usize),
        )
}

/// The group's blockers and the link blockers between modifier and head.
pub open spec fn edge_blocker_set(g: NominalGroupCandidate, v: Seq<IslandView>, mi: int) -> Set<SuppressionReason> {
    g.blockers@.map_values(|b| reason_of_blocker(b)).to_set() + spec_link_blockers(v, mi, g.end_token as int).to_set()
}

/// `e` is the edge between modifier `o` of the group and its head.
pub open spec fn is_group_edge(
    g: NominalGroupCandidate,
    items: Seq<TokenAmbiguity>,
    v: Seq<IslandView>,
    o: int,
    e: AgreementGraphEdge,
) -> bool {
    let m = g.modifiers@[o];
    let mi = spec_index_by_span(items, m.span)->0;
    let mods = spec_analyses_for(items, mi as usize);
    let heads = spec_analyses_for(items, g.end_token);
    &&& e.kind == AgreementGraphEdgeKind::ModifierHead
    &&& e.left.token_index == mi && e.left.token == m && e.left.role == MorphosyntacticRole::Modifier
    &&& e.left.analyses@ == mods
    &&& e.right.token_index == g.end_token && e.right.token == g.head && e.right.role == MorphosyntacticRole::Head
    &&& e.right.analyses@ == heads
    &&& e.span == Span { start: m.span.start, end: g.head.span.end }
    &&& e.constraint.relation == AgreementRelationKind::AdjectiveNoun
    &&& e.constraint.compatibility == spec_adjective_noun_compatibility(mods, heads)
    &&& reasons_sorted_set(e.blockers@)
    &&& e.blockers@.to_set() == edge_blocker_set(g, v, mi)
    &&& e.confidence == if e.blockers@.len() > 0 && spec_confidence_actionable(g.confidence) {
        SyntaxConfidence::Ambiguous
    } else {
        g.confidence
    }
}

fn term_of(token_index: usize, token: &Token, role: MorphosyntacticRole, analyses: &[MorphAnalysis]) -> (r: MorphosyntacticTerm)
    ensures
        r.token_index == token_index && r.token == *token && r.role == role && r.analyses@ == analyses@,
{
    MorphosyntacticTerm { token_index, token: token.duplicate(), role, analyses: copy_analyses(analyses) }
}

fn edge_for_modifier(
    group: &NominalGroupCandidate,
    ambiguity: &AmbiguityModel,
    islands: &SyntacticIslandMap,
    o: usize,
    modifier_index: usize,
) -> (e: AgreementGraphEdge)
    requires
        o < group.modifiers@.len(),
        spec_index_by_span(ambiguity.items(), group.modifiers@[o as int].span) == Some(modifier_index as int),
    ensures
        is_group_edge(*group, ambiguity.items(), islands.islands_view(), o as int, e),
{
    let modifier = &group.modifiers[o];
    let modifier_analyses = ambiguity.analyses_for_token(modifier_index);
    let head_analyses = ambiguity.analyses_for_token(group.end_token);
    let mut raw: Vec<SuppressionReason> = Vec::new();
    let mut b: usize = 0;
    while b < group.blockers.len()
        invariant
            b <= group.blockers@.len(),
            raw@ == group.blockers@.take(b as int).map_values(|x| reason_of_blocker(x)),
        decreases group.blockers@.len() - b,
    {
        raw.push(SuppressionReason::from(group.blockers[b]));
        assert(raw@ =~= group.blockers@.take(b as int + 1).map_values(|x| reason_of_blocker(x)));
        b = b + 1;
    }
    assert(group.blockers@.take(group.blockers@.len() as int) =~= group.blockers@);
    let mut link = boundary_blockers_for_link(modifier_index, group.end_token, islands);
    let ghost a = raw@;
    let ghost l = link@;
    raw.append(&mut link);
    proof {
        assert forall|x| (a + l).contains(x) <==> a.contains(x) || l.contains(x) by {
            if (a + l).contains(x) {
                let k = choose|k: int| 0 <= k < (a + l).len() && (a + l)[k] == x;
                if k >= a.len() {
                    assert(l[k - a.len()] == x);
                }
            }
            if l.contains(x) {
                let k = choose|k: int| 0 <= k < l.len() && l[k] == x;
                assert((a + l)[a.len() + k] == x);
            }
            if a.contains(x) {
                let k = choose|k: int| 0 <= k < a.len() && a[k] == x;
                assert((a + l)[k] == x);
            }
        }
        assert(raw@.to_set() =~= a.to_set() + l.to_set());
    }
    let blockers = sort_dedup_reasons(raw);
    let mods = copy_analyses(modifier_analyses);
    let heads = copy_analyses(head_analyses);
    let constraint = adjective_noun_check(&mods, &heads);
    let confidence = if blockers.len() > 0 && group.confidence.is_actionable() {
        SyntaxConfidence::Ambiguous
    } else {
        group.confidence
    };
    AgreementGraphEdge {
        kind: AgreementGraphEdgeKind::ModifierHead,
        left: MorphosyntacticTerm {
            token_index: modifier_index,
            token: modifier.duplicate(),
            role: MorphosyntacticRole::Modifier,
            analyses: mods,
        },
        right: MorphosyntacticTerm {
            token_index: group.end_token,
            token: group.head.duplicate(),
            role: MorphosyntacticRole::Head,
            analyses: heads,
        },
        span: Span::new(modifier.span.start, group.head.span.end),
        constraint,
        confidence,
        blockers,
    }
}

/// The agreement edges between each modifier of a plausible nominal group
/// and its head, as the ambiguity model reads them; none when the readings
/// do not make the group plausible or the head has no reading.
pub fn agreement_edges_from_nominal_group(
    group: &NominalGroupCandidate,
    ambiguity: &AmbiguityModel,
    islands: &SyntacticIslandMap,
) -> (r: Vec<AgreementGraphEdge>)
    requires
        group.start_token + 2 * group.modifiers@.len() <= usize::MAX,
    ensures
        !roles_plausible(*group, ambiguity.items()) || spec_analyses_for(ambiguity.items(), group.end_token).len() == 0
            ==> r@.len() == 0,
        roles_plausible(*group, ambiguity.items()) && spec_analyses_for(ambiguity.items(), group.end_token).len() > 0
            ==> r@.len() == edge_offsets(*group, ambiguity.items(), group.modifiers@.len() as int).len() && forall|k: int|
            0 <= k < r@.len() ==> is_group_edge(
                *group,
                ambiguity.items(),
                islands.islands_view(),
                edge_offsets(*group, ambiguity.items(), group.modifiers@.len() as int)[k],
                #[trigger] r@[k],
            ),
{
    let ghost items = ambiguity.items();
    let reader = |idx: usize| -> (v: Vec<MorphAnalysis>)
        ensures
            v@ == spec_analyses_for(ambiguity.items(), idx),
        { copy_analyses(ambiguity.analyses_for_token(idx)) };
    let plausible = nominal_group_roles_are_plausible(group, &reader);
    proof {
        if plausible {
            assert forall|o: int| 0 <= o < group.modifiers@.len() implies #[trigger] can_modify_group(
                spec_analyses_for(items, (group.start_token + 2 * o) as usize),
            ) by {
                assert(modifier_readings(reader, (group.start_token + 2 * o) as usize, true));
            }
        } else {
            if head_readings(reader, group.end_token, false) {
            } else {
                let o = choose|o: int|
                    0 <= o < group.modifiers@.len() && #[trigger] modifier_readings(
                        reader,
                        (group.start_token + 2 * o) as usize,
                        false,
                    );
                assert(!can_modify_group(spec_analyses_for(items, (group.start_token + 2 * o) as usize)));
            }
        }
    }
    let mut out: Vec<AgreementGraphEdge> = Vec::new();
    if !plausible {
        return out;
    }
    if ambiguity.analyses_for_token(group.end_token).len() == 0 {
        return out;
    }
    let mut o: usize = 0;
    while o < group.modifiers.len()
        invariant
            items == ambiguity.items(),
            o <= group.modifiers@.len(),
            out@.len() == edge_offsets(*group, items, o as int).len(),
            forall|k: int|
                0 <= k < out@.len() ==> is_group_edge(
                    *group,
                    items,
                    islands.islands_view(),
                    edge_offsets(*group, items, o as int)[k],
                    #[trigger] out@[k],
                ),
        decreases group.modifiers@.len() - o,
    {
        let ghost prev = edge_offsets(*group, items, o as int);
        match token_index_by_span_in_ambiguity(ambiguity, group.modifiers[o].span) {
            Some(mi) => {
                if ambiguity.analyses_for_token(mi).len() > 0 {
                    let e = edge_for_modifier(group, ambiguity, islands, o, mi);
                    out.push(e);
                    assert(edge_offsets(*group, items, o as int + 1) == prev.push(o as int));
                }
            },
            None => {},
        }
        o = o + 1;
    }
    out
}


/// A subject reading and a predicate reading can agree: their numbers,
/// genders and persons do not clash.
pub open spec fn spec_subject_predicate_agree(l: MorphAnalysis, r: MorphAnalysis) -> bool {
    features_compatible(l.features.number, r.features.number) && features_compatible(
        l.features.gender,
        r.features.gender,
    ) && features_compatible(l.features.person, r.features.person)
}

fn subject_predicate_agree(l: &MorphAnalysis, r: &MorphAnalysis) -> (b: bool)
    ensures
        b == spec_subject_predicate_agree(*l, *r),
{
    let number_ok = match (l.features.number, r.features.number) {
        (Some(a), Some(b)) => a == b,
        _ => true,
    };
    let gender_ok = match (l.features.gender, r.features.gender) {
        (Some(a), Some(b)) => a == b,
        _ => true,
    };
    let person_ok = match (l.features.person, r.features.person) {
        (Some(a), Some(b)) => a == b,
        _ => true,
    };
    number_ok && gender_ok && person_ok
}

pub open spec fn some_agreeing_subject_pair(left: Seq<MorphAnalysis>, right: Seq<MorphAnalysis>) -> bool {
    exists|i: int, j: int|
        0 <= i < left.len() && 0 <= j < right.len() && spec_subject_predicate_agree(
            #[trigger] left[i],
            #[trigger] right[j],
        )
}

pub open spec fn all_numbered(v: Seq<MorphAnalysis>) -> bool {
    forall|i: int| 0 <= i < v.len() ==> (#[trigger] v[i]).features.number is Some
}

/// Unknown when a side has no readings; compatible when some pair of
/// readings agrees in number, gender and person; incompatible when none does and every reading
/// has a number; unknown otherwise.
pub open spec fn spec_subject_predicate_compatibility(left: Seq<MorphAnalysis>, right: Seq<MorphAnalysis>) -> MorphCompatibility {
    if left.len() == 0 || right.len() == 0 {
        MorphCompatibility::Unknown
    } else if some_agreeing_subject_pair(left, right) {
        MorphCompatibility::Compatible
    } else if all_numbered(left) && all_numbered(right) {
        MorphCompatibility::Incompatible
    } else {
        MorphCompatibility::Unknown
    }
}

pub fn subject_predicate_check(left: &Vec<MorphAnalysis>, right: &Vec<MorphAnalysis>) -> (r: AgreementCheck)
    ensures
        r.relation == AgreementRelationKind::SubjectPredicate,
        r.compatibility == spec_subject_predicate_compatibility(left@, right@),
{
    if left.len() == 0 || right.len() == 0 {
        return AgreementCheck { relation: AgreementRelationKind::SubjectPredicate, compatibility: MorphCompatibility::Unknown };
    }
    let mut i: usize = 0;
    while i < left.len()
        invariant
            i <= left@.len(),
            forall|x: int, y: int|
                0 <= x < i && 0 <= y < right@.len() ==> !spec_subject_predicate_agree(
                    #[trigger] left@[x],
                    #[trigger] right@[y],
                ),
        decreases left@.len() - i,
    {
        let mut j: usize = 0;
        while j < right.len()
            invariant
                i < left@.len(),
                j <= right@.len(),
                forall|x: int, y: int|
                    0 <= x < i && 0 <= y < right@.len() ==> !spec_subject_predicate_agree(
                        #[trigger] left@[x],
                        #[trigger] right@[y],
                    ),
                forall|y: int| 0 <= y < j ==> !spec_subject_predicate_agree(left@[i as int], #[trigger] right@[y]),
            decreases right@.len() - j,
        {
            if subject_predicate_agree(&left[i], &right[j]) {
                assert(some_agreeing_subject_pair(left@, right@));
                return AgreementCheck {
                    relation: AgreementRelationKind::SubjectPredicate,
                    compatibility: MorphCompatibility::Compatible,
                };
            }
            j = j + 1;
        }
        i = i + 1;
    }
    assert(!some_agreeing_subject_pair(left@, right@));
    let mut all = true;
    let mut k: usize = 0;
    while k < left.len()
        invariant
            k <= left@.len(),
            all == forall|x: int| 0 <= x < k ==> (#[trigger] left@[x]).features.number is Some,
        decreases left@.len() - k,
    {
        if left[k].features.number.is_none() {
            all = false;
        }
        k = k + 1;
    }
    let mut m: usize = 0;
    while m < right.len()
        invariant
            m <= right@.len(),
            all == (all_numbered(left@) && forall|x: int| 0 <= x < m ==> (#[trigger] right@[x]).features.number is Some),
        decreases right@.len() - m,
    {
        if right[m].features.number.is_none() {
            all = false;
        }
        m = m + 1;
    }
    let compatibility = if all {
        MorphCompatibility::Incompatible
    } else {
        MorphCompatibility::Unknown
    };
    AgreementCheck { relation: AgreementRelationKind::SubjectPredicate, compatibility }
}

/// `e` is the subject-predicate edge of clause `c`.
pub open spec fn is_clause_edge(v: Seq<IslandView>, c: ClauseCandidate, e: AgreementGraphEdge) -> bool {
    let s = c.subject_candidate->0;
    let p = c.predicate->0;
    &&& e.kind == AgreementGraphEdgeKind::SubjectPredicate
    &&& e.left.token_index == s.token_index && e.left.token == s.token && e.left.role == MorphosyntacticRole::Subject
    &&& e.left.analyses@ == s.analyses@
    &&& e.right.token_index == p.token_index && e.right.token == p.token && e.right.role == MorphosyntacticRole::Predicate
    &&& e.right.analyses@ == p.analyses@
    &&& e.span == Span { start: s.token.span.start, end: p.token.span.end }
    &&& e.constraint.relation == AgreementRelationKind::SubjectPredicate
    &&& e.constraint.compatibility == spec_subject_predicate_compatibility(s.analyses@, p.analyses@)
    &&& reasons_sorted_set(e.blockers@)
    &&& e.blockers@.to_set() == c.blockers@.to_set() + spec_link_blockers(v, s.token_index as int, p.token_index as int).to_set()
    &&& e.confidence == if e.blockers@.len() > 0 && spec_confidence_actionable(c.confidence) {
        SyntaxConfidence::Ambiguous
    } else {
        c.confidence
    }
}

pub(crate) fn copy_reasons(v: &Vec<SuppressionReason>) -> (r: Vec<SuppressionReason>)
    ensures
        r@ == v@,
{
    let mut out: Vec<SuppressionReason> = Vec::new();
    let mut i: usize = 0;
    while i < v.len()
        invariant
            i <= v@.len(),
            out@ == v@.take(i as int),
        decreases v@.len() - i,
    {
        out.push(v[i]);
        i = i + 1;
    }
    assert(v@.take(v@.len() as int) =~= v@);
    out
}

/// The subject-predicate edge of a clause with both terms.
pub fn agreement_edge_from_clause(clause: &ClauseCandidate, islands: &SyntacticIslandMap) -> (r: Option<AgreementGraphEdge>)
    ensures
        (clause.subject_candidate is Some && clause.predicate is Some) == (r is Some),
        r matches Some(e) ==> is_clause_edge(islands.islands_view(), *clause, e),
{
    let subject = match &clause.subject_candidate {
        Some(s) => s,
        None => {
            return None;
        },
    };
    let predicate = match &clause.predicate {
        Some(p) => p,
        None => {
            return None;
        },
    };
    let mut raw = copy_reasons(&clause.blockers);
    let mut link = boundary_blockers_for_link(subject.token_index, predicate.token_index, islands);
    let ghost a = raw@;
    let ghost l = link@;
    raw.append(&mut link);
    proof {
        assert forall|x| (a + l).contains(x) <==> a.contains(x) || l.contains(x) by {
            if (a + l).contains(x) {
                let k = choose|k: int| 0 <= k < (a + l).len() && (a + l)[k] == x;
                if k >= a.len() {
                    assert(l[k - a.len()] == x);
                }
            }
            if l.contains(x) {
                let k = choose|k: int| 0 <= k < l.len() && l[k] == x;
                assert((a + l)[a.len() + k] == x);
            }
            if a.contains(x) {
                let k = choose|k: int| 0 <= k < a.len() && a[k] == x;
                assert((a + l)[k] == x);
            }
        }
        assert(raw@.to_set() =~= a.to_set() + l.to_set());
    }
    let blockers = sort_dedup_reasons(raw);
    let left = copy_analyses(subject.analyses.as_slice());
    let right = copy_analyses(predicate.analyses.as_slice());
    let constraint = subject_predicate_check(&left, &right);
    let confidence = if blockers.len() > 0 && clause.confidence.is_actionable() {
        SyntaxConfidence::Ambiguous
    } else {
        clause.confidence
    };
    Some(
        AgreementGraphEdge {
            kind: AgreementGraphEdgeKind::SubjectPredicate,
            left: MorphosyntacticTerm {
                token_index: subject.token_index,
                token: subject.token.duplicate(),
                role: MorphosyntacticRole::Subject,
                analyses: left,
            },
            right: MorphosyntacticTerm {
                token_index: predicate.token_index,
                token: predicate.token.duplicate(),
                role: MorphosyntacticRole::Predicate,
                analyses: right,
            },
            span: Span::new(subject.token.span.start, predicate.token.span.end),
            constraint,
            confidence,
            blockers,
        },
    )
}

} // verus!
