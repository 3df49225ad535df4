use vstd::prelude::*;
use crate::text::{lower_ru, lower_seq, Span, Token, TokenKind};
use crate::readings::{copy_analyses, Case, MorphAnalysis, PartOfSpeech};
use crate::syntax::model::{spec_confidence_actionable, SyntaxConfidence};
use crate::syntax::diagnostics::{reason_of_blocker, reasons_sorted_set, sort_dedup_reasons, SuppressionReason};
use crate::syntax::ambiguity::{spec_analyses_for, AmbiguityModel, TokenAmbiguity};
use crate::syntax::islands::{IslandView, SyntacticIslandMap};
use crate::syntax::clauses::{blocked_between, ClauseBoundaryMap};
use crate::syntax::model::ClauseBoundaryView;
use crate::syntax::relations::SyntaxRelationBlocker;
use crate::syntax::nominal_groups::{
    following_word, following_word_after_plain_gap, nominal_group_from_start, opt_group_view, spec_nominal_group,
    NominalGroupCandidate, NominalGroupView,
};
use crate::syntax::government::{
    GovernmentFrame, GovernmentFrameKind, GovernmentFrameModelRef, GovernmentFrameSource, MorphCompatibility,
    MorphosyntacticRole, MorphosyntacticTerm, VerbGovernmentComplementKind,
};
use crate::syntax::agreement::{boundary_blockers_for_link, spec_link_blockers};
use crate::syntax::constraints::{allowed_cases, allowed_seq, str_eq, PrepositionGovernmentEntry};
use crate::syntax::quantities::NumeralComponentClass;
use crate::syntax::numeral_government::{
    constraint_compatibility, morphosyntactic_views, takes_genitive_plural, MorphosyntacticConstraint,
    MorphosyntacticRelation, MorphosyntacticRelationKind, MorphosyntacticRelationView,
};
use crate::unicode::{chars_eq, str_chars};

verus! {

broadcast use vstd::seq_lib::group_seq_properties;

/// A valency entry: the cases a verb's complement takes, directly or after
/// a preposition.
#[derive(Debug, Clone, PartialEq, Eq)]
pub struct VerbGovernmentEntry {
    pub lemma: String,
    pub complement_kind: VerbGovernmentComplementKind,
    pub preposition: Option<String>,
    pub allowed_cases: Vec<Case>,
    pub source_id: Option<String>,
}

/// The cases of `s`, in the order of the case enum.
pub open spec fn ordered_cases(s: Set<Case>) -> Seq<Case> {
    (if s.contains(Case::Nominative) { seq![Case::Nominative] } else { Seq::empty() }) + (if s.contains(
        Case::Genitive,
    ) {
        seq![Case::Genitive]
    } else {
        Seq::empty()
    }) + (if s.contains(Case::Dative) { seq![Case::Dative] } else { Seq::empty() }) + (if s.contains(
        Case::Accusative,
    ) {
        seq![Case::Accusative]
    } else {
        Seq::empty()
    }) + (if s.contains(Case::Instrumental) { seq![Case::Instrumental] } else { Seq::empty() }) + (if s.contains(
        Case::Prepositional,
    ) {
        seq![Case::Prepositional]
    } else {
        Seq::empty()
    })
}

fn push_if(out: &mut Vec<Case>, v: &Vec<Case>, c: Case)
    ensures
        final(out)@ == if v@.contains(c) { old(out)@.push(c) } else { old(out)@ },
{
    let mut i: usize = 0;
    while i < v.len()
        invariant
            i <= v@.len(),
            out@ == old(out)@,
            forall|k: int| 0 <= k < i ==> v@[k] != c,
        decreases v@.len() - i,
    {
        if v[i] == c {
            assert(v@.contains(c));
            out.push(c);
            return;
        }
        i = i + 1;
    }
}

/// The cases of `v` without repeats, in the order of the case enum.
pub fn ordered_cases_of(v: &Vec<Case>) -> (r: Vec<Case>)
    ensures
        r@ == ordered_cases(v@.to_set()),
{
    let mut out: Vec<Case> = Vec::new();
    push_if(&mut out, v, Case::Nominative);
    push_if(&mut out, v, Case::Genitive);
    push_if(&mut out, v, Case::Dative);
    push_if(&mut out, v, Case::Accusative);
    push_if(&mut out, v, Case::Instrumental);
    push_if(&mut out, v, Case::Prepositional);
    assert(out@ =~= ordered_cases(v@.to_set()));
    out
}

/// The readings that a governor can put in a case.
pub open spec fn can_be_case_governed(a: MorphAnalysis) -> bool {
    a.pos == PartOfSpeech::Noun || a.pos == PartOfSpeech::Pronoun || a.pos == PartOfSpeech::Adjective || a.pos
        == PartOfSpeech::Numeral || a.pos == PartOfSpeech::Participle
}

/// The cases of the readings (of those a governor can put in a case, when
/// `governed_only`).
pub open spec fn reading_cases(v: Seq<MorphAnalysis>, governed_only: bool) -> Set<Case> {
    Set::new(
        |c: Case|
            exists|j: int|
                0 <= j < v.len() && (!governed_only || can_be_case_governed(#[trigger] v[j])) && v[j].features.case
                    == Some(c),
    )
}

fn cases_of_readings(v: &[MorphAnalysis], governed_only: bool) -> (r: Vec<Case>)
    ensures
        r@.to_set() == reading_cases(v@, governed_only),
{
    let mut out: Vec<Case> = Vec::new();
    let mut i: usize = 0;
    while i < v.len()
        invariant
            i <= v@.len(),
            forall|c: Case|
                out@.contains(c) <==> exists|j: int|
                    0 <= j < i && (!governed_only || can_be_case_governed(#[trigger] v@[j])) && v@[j].features.case
                        == Some(c),
        decreases v@.len() - i,
    {
        let p = v[i].pos;
        let governed = p == PartOfSpeech::Noun || p == PartOfSpeech::Pronoun || p == PartOfSpeech::Adjective || p
            == PartOfSpeech::Numeral || p == PartOfSpeech::Participle;
        let ghost before = out@;
        if !governed_only || governed {
            match v[i].features.case {
                Some(c) => {
                    out.push(c);
                },
                None => {},
            }
        }
        proof {
            assert forall|c: Case|
                out@.contains(c) <==> exists|j: int|
                    0 <= j < i + 1 && (!governed_only || can_be_case_governed(#[trigger] v@[j]))
                        && v@[j].features.case == Some(c) by {
                if out@.contains(c) && !before.contains(c) {
                    assert(v@[i as int].features.case == Some(c));
                }
                if before.contains(c) {
                    let k = choose|k: int| 0 <= k < before.len() && before[k] == c;
                    assert(out@[k] == c);
                }
                if exists|j: int|
                    0 <= j < i + 1 && (!governed_only || can_be_case_governed(#[trigger] v@[j]))
                        && v@[j].features.case == Some(c) {
                    let j = choose|j: int|
                        0 <= j < i + 1 && (!governed_only || can_be_case_governed(#[trigger] v@[j]))
                            && v@[j].features.case == Some(c);
                    if j == i {
                        assert(out@[out@.len() - 1] == c);
                    }
                }
            }
        }
        i = i + 1;
    }
    assert(out@.to_set() =~= reading_cases(v@, governed_only));
    out
}

/// What keeps a governor and a governed word apart: a clause boundary
/// between them, and a direct-speech, parenthesis or unsafe boundary when
/// they are not in one island.
pub open spec fn government_link_set(
    bs: Seq<ClauseBoundaryView>,
    v: Seq<IslandView>,
    l: int,
    r: int,
) -> Set<SuppressionReason> {
    (if l != r && blocked_between(bs, l, r) {
        set![SuppressionReason::ClauseBoundary]
    } else {
        Set::empty()
    }) + spec_link_blockers(v, l, r).to_set()
}

proof fn lemma_append_set(a: Seq<SuppressionReason>, b: Seq<SuppressionReason>)
    ensures
        (a + b).to_set() == a.to_set() + b.to_set(),
{
    assert forall|x| (a + b).contains(x) <==> a.contains(x) || b.contains(x) by {
        if (a + b).contains(x) {
            let k = choose|k: int| 0 <= k < (a + b).len() && (a + b)[k] == x;
            if k >= a.len() {
                assert(b[k - a.len()] == x);
            }
        }
        if b.contains(x) {
            let k = choose|k: int| 0 <= k < b.len() && b[k] == x;
            assert((a + b)[a.len() + k] == x);
        }
        if a.contains(x) {
            let k = choose|k: int| 0 <= k < a.len() && a[k] == x;
            assert((a + b)[k] == x);
        }
    }
    assert((a + b).to_set() =~= a.to_set() + b.to_set());
}

fn government_link_blockers(
    gi: usize,
    di: usize,
    islands: &SyntacticIslandMap,
    clause_boundaries: &ClauseBoundaryMap,
) -> (r: Vec<SuppressionReason>)
    ensures
        r@.to_set() == government_link_set(clause_boundaries.boundaries_view(), islands.islands_view(), gi as int, di as int),
{
    let mut out = clause_boundaries.blockers_between_tokens(gi, di);
    let mut link = boundary_blockers_for_link(gi, di, islands);
    let ghost a = out@;
    let ghost b = link@;
    out.append(&mut link);
    proof {
        lemma_append_set(a, b);
        if gi != di && blocked_between(clause_boundaries.boundaries_view(), gi as int, di as int) {
            assert(a.to_set() =~= set![SuppressionReason::ClauseBoundary]);
        } else {
            assert(a.to_set() =~= Set::empty());
        }
    }
    out
}

fn reasons_of(v: &Vec<SyntaxRelationBlocker>) -> (r: Vec<SuppressionReason>)
    ensures
        r@ == v@.map_values(|x| reason_of_blocker(x)),
{
    let mut out: Vec<SuppressionReason> = Vec::new();
    let mut b: usize = 0;
    while b < v.len()
        invariant
            b <= v@.len(),
            out@ == v@.take(b as int).map_values(|x| reason_of_blocker(x)),
        decreases v@.len() - b,
    {
        out.push(SuppressionReason::from(v[b]));
        assert(out@ =~= v@.take(b as int + 1).map_values(|x| reason_of_blocker(x)));
        b = b + 1;
    }
    assert(v@.take(v@.len() as int) =~= v@);
    out
}

/// Everything a frame holds, with its blockers as a set.
pub struct FrameSpec {
    pub kind: GovernmentFrameKind,
    pub source: GovernmentFrameSource,
    pub governor_index: usize,
    pub governor: Token,
    pub governor_role: MorphosyntacticRole,
    pub governor_analyses: Seq<MorphAnalysis>,
    pub dependent_index: usize,
    pub dependent: Token,
    pub dependent_role: MorphosyntacticRole,
    pub dependent_analyses: Seq<MorphAnalysis>,
    pub span: Span,
    pub expected: Seq<Case>,
    pub observed: Seq<Case>,
    pub compatibility: MorphCompatibility,
    pub confidence: SyntaxConfidence,
    pub blockers: Set<SuppressionReason>,
    pub model_ref: Option<GovernmentFrameModelRef>,
}

/// The frame holds what `s` says, its blockers sorted and without repeats.
pub open spec fn frame_is(f: GovernmentFrame, s: FrameSpec) -> bool {
    &&& f.kind == s.kind && f.source == s.source
    &&& f.governor.token_index == s.governor_index && f.governor.token == s.governor
    &&& f.governor.role == s.governor_role && f.governor.analyses@ == s.governor_analyses
    &&& f.dependent.token_index == s.dependent_index && f.dependent.token == s.dependent
    &&& f.dependent.role == s.dependent_role && f.dependent.analyses@ == s.dependent_analyses
    &&& f.span == s.span && f.expected_cases@ == s.expected && f.observed_cases@ == s.observed
    &&& f.compatibility == s.compatibility && f.confidence == s.confidence
    &&& reasons_sorted_set(f.blockers@) && f.blockers@.to_set() == s.blockers
    &&& f.model_ref == s.model_ref
}

/// Each frame holds what the corresponding spec says.
pub open spec fn frames_are(r: Seq<GovernmentFrame>, s: Seq<FrameSpec>) -> bool {
    r.len() == s.len() && forall|k: int| 0 <= k < r.len() ==> #[trigger] frame_is(r[k], s[k])
}

/// The cases a numeral class expects its noun in.
pub open spec fn class_cases(c: NumeralComponentClass) -> Set<Case> {
    if c == NumeralComponentClass::UnitOne {
        set![Case::Nominative]
    } else if c == NumeralComponentClass::UnitPaucal || takes_genitive_plural(c) {
        set![Case::Genitive]
    } else {
        Set::empty()
    }
}

/// The frame of a preposition or numeral relation: the cases expected and
/// found when they clash, the relation's blockers and the link blockers
/// between its terms; none for an agreement relation.
pub open spec fn relation_frame(
    entries: Seq<PrepositionGovernmentEntry>,
    bs: Seq<ClauseBoundaryView>,
    v: Seq<IslandView>,
    rel: MorphosyntacticRelationView,
) -> Option<FrameSpec> {
    let kind = if rel.kind == MorphosyntacticRelationKind::PrepositionCaseGovernment {
        Some(GovernmentFrameKind::Preposition)
    } else if rel.kind == MorphosyntacticRelationKind::NumeralCaseNumberGovernment {
        Some(GovernmentFrameKind::Numeral)
    } else {
        None
    };
    match kind {
        None => None,
        Some(k) => {
            let m = constraint_compatibility(rel.constraint);
            let conflict = m == MorphCompatibility::Incompatible;
            let expected = if !conflict {
                Seq::empty()
            } else {
                match rel.constraint {
                    MorphosyntacticConstraint::Government(_) => ordered_cases(
                        allowed_seq(entries, lower_seq(rel.governor.text@), entries.len() as int).to_set(),
                    ),
                    MorphosyntacticConstraint::Quantity(q) => ordered_cases(class_cases(q.numeral_class)),
                    MorphosyntacticConstraint::Agreement(_) => Seq::empty(),
                }
            };
            let observed = if conflict {
                ordered_cases(reading_cases(rel.dependent_analyses, false))
            } else {
                Seq::empty()
            };
            let b = rel.blockers.map_values(|x| reason_of_blocker(x)).to_set() + government_link_set(
                bs,
                v,
                rel.governor_index as int,
                rel.dependent_index as int,
            );
            Some(
                FrameSpec {
                    kind: k,
                    source: GovernmentFrameSource::MorphosyntaxRelation,
                    governor_index: rel.governor_index,
                    governor: rel.governor,
                    governor_role: rel.governor_role,
                    governor_analyses: rel.governor_analyses,
                    dependent_index: rel.dependent_index,
                    dependent: rel.dependent,
                    dependent_role: rel.dependent_role,
                    dependent_analyses: rel.dependent_analyses,
                    span: rel.span,
                    expected,
                    observed,
                    compatibility: m,
                    confidence: if b != Set::<SuppressionReason>::empty() && spec_confidence_actionable(
                        rel.confidence,
                    ) {
                        SyntaxConfidence::Ambiguous
                    } else {
                        rel.confidence
                    },
                    blockers: b,
                    model_ref: None,
                },
            )
        },
    }
}

/// The frames of the first `k` relations.
pub open spec fn relation_frames(
    entries: Seq<PrepositionGovernmentEntry>,
    bs: Seq<ClauseBoundaryView>,
    v: Seq<IslandView>,
    rels: Seq<MorphosyntacticRelationView>,
    k: int,
) -> Seq<FrameSpec>
    decreases k,
{
    if k <= 0 || k > rels.len() {
        Seq::empty()
    } else {
        relation_frames(entries, bs, v, rels, k - 1) + match relation_frame(entries, bs, v, rels[k - 1]) {
            Some(f) => seq![f],
            None => Seq::empty(),
        }
    }
}

fn frame_from_relation(
    rel: &MorphosyntacticRelation,
    prepositions: &[PrepositionGovernmentEntry],
    islands: &SyntacticIslandMap,
    clause_boundaries: &ClauseBoundaryMap,
) -> (r: Option<GovernmentFrame>)
    ensures
        match relation_frame(prepositions@, clause_boundaries.boundaries_view(), islands.islands_view(), rel@) {
            Some(s) => r matches Some(f) && frame_is(f, s),
            None => r is None,
        },
{
    let kind = match rel.kind {
        MorphosyntacticRelationKind::PrepositionCaseGovernment => GovernmentFrameKind::Preposition,
        MorphosyntacticRelationKind::NumeralCaseNumberGovernment => GovernmentFrameKind::Numeral,
        _ => {
            return None;
        },
    };
    let m = rel.constraint.compatibility();
    let conflict = m == MorphCompatibility::Incompatible;
    let mut expected: Vec<Case> = Vec::new();
    let mut observed: Vec<Case> = Vec::new();
    if conflict {
        match rel.constraint {
            MorphosyntacticConstraint::Government(_) => {
                let key = lower_ru(rel.governor.text.as_str());
                let allowed = allowed_cases(prepositions, key.as_str());
                expected = ordered_cases_of(&allowed);
            },
            MorphosyntacticConstraint::Quantity(q) => {
                let mut cs: Vec<Case> = Vec::new();
                if q.numeral_class == NumeralComponentClass::UnitOne {
                    cs.push(Case::Nominative);
                } else if q.numeral_class == NumeralComponentClass::UnitPaucal || q.numeral_class
                    == NumeralComponentClass::UnitMany || q.numeral_class == NumeralComponentClass::Teen
                    || q.numeral_class == NumeralComponentClass::Decade || q.numeral_class
                    == NumeralComponentClass::Hundred || q.numeral_class == NumeralComponentClass::Thousand
                    || q.numeral_class == NumeralComponentClass::Collective {
                    cs.push(Case::Genitive);
                }
                assert(cs@.to_set() =~= class_cases(q.numeral_class));
                expected = ordered_cases_of(&cs);
            },
            MorphosyntacticConstraint::Agreement(_) => {},
        }
        let found = cases_of_readings(rel.dependent_analyses.as_slice(), false);
        observed = ordered_cases_of(&found);
    }
    proof {
        if !conflict {
            assert(expected@ =~= Seq::<Case>::empty());
        }
    }
    let mut raw = reasons_of(&rel.blockers);
    let mut link = government_link_blockers(rel.governor_index, rel.dependent_index, islands, clause_boundaries);
    let ghost a = raw@;
    let ghost b = link@;
    raw.append(&mut link);
    proof {
        lemma_append_set(a, b);
    }
    let blockers = sort_dedup_reasons(raw);
    proof {
        if blockers@.len() == 0 {
            assert(blockers@.to_set() =~= Set::<SuppressionReason>::empty());
        } else {
            assert(blockers@.to_set().contains(blockers@[0]));
        }
    }
    let confidence = if blockers.len() > 0 && rel.confidence.is_actionable() {
        SyntaxConfidence::Ambiguous
    } else {
        rel.confidence
    };
    Some(
        GovernmentFrame {
            kind,
            source: GovernmentFrameSource::MorphosyntaxRelation,
            governor: MorphosyntacticTerm {
                token_index: rel.governor_index,
                token: rel.governor.duplicate(),
                role: rel.governor_role,
                analyses: copy_analyses(rel.governor_analyses.as_slice()),
            },
            dependent: MorphosyntacticTerm {
                token_index: rel.dependent_index,
                token: rel.dependent.duplicate(),
                role: rel.dependent_role,
                analyses: copy_analyses(rel.dependent_analyses.as_slice()),
            },
            span: rel.span,
            expected_cases: expected,
            observed_cases: observed,
            compatibility: m,
            confidence,
            blockers,
            model_ref: None,
        },
    )
}

proof fn lemma_frames_append(a: Seq<GovernmentFrame>, sa: Seq<FrameSpec>, b: Seq<GovernmentFrame>, sb: Seq<FrameSpec>)
    requires
        frames_are(a, sa),
        frames_are(b, sb),
    ensures
        frames_are(a + b, sa + sb),
{
    assert forall|k: int| 0 <= k < (a + b).len() implies #[trigger] frame_is((a + b)[k], (sa + sb)[k]) by {
        if k < a.len() {
            assert(frame_is(a[k], sa[k]));
        } else {
            assert(frame_is(b[k - a.len()], sb[k - a.len()]));
        }
    }
}

/// The entry's lemma is that of a verb reading of the governor that has an
/// entry, or, when no verb reading has one, the lowercased surface.
pub open spec fn lemma_in_registry(reg: Seq<VerbGovernmentEntry>, w: Seq<char>) -> bool {
    exists|k: int| 0 <= k < reg.len() && (#[trigger] reg[k]).lemma@ == w
}

pub open spec fn has_registered_reading(ga: Seq<MorphAnalysis>, reg: Seq<VerbGovernmentEntry>) -> bool {
    exists|j: int|
        0 <= j < ga.len() && (#[trigger] ga[j]).pos == PartOfSpeech::Verb && lemma_in_registry(reg, lower_seq(ga[j].lemma@))
}

pub open spec fn entry_lemma_fits(
    surface: Seq<char>,
    ga: Seq<MorphAnalysis>,
    reg: Seq<VerbGovernmentEntry>,
    e: VerbGovernmentEntry,
) -> bool {
    if has_registered_reading(ga, reg) {
        exists|j: int| 0 <= j < ga.len() && (#[trigger] ga[j]).pos == PartOfSpeech::Verb && lower_seq(ga[j].lemma@) == e.lemma@
    } else {
        e.lemma@ == lower_seq(surface)
    }
}

/// Where the complement of entry `e` starts after governor `gi`: the next
/// word for a direct complement; the word after the next for a
/// prepositional one, when the next word is the entry's preposition.
pub open spec fn complement_start(toks: Seq<Token>, gi: int, e: VerbGovernmentEntry) -> Option<int> {
    match following_word(toks, gi) {
        None => None,
        Some(n) => if e.complement_kind == VerbGovernmentComplementKind::Direct {
            Some(n)
        } else {
            match following_word(toks, n) {
                None => None,
                Some(gs) => if e.preposition matches Some(p) && p@ == lower_seq(toks[n].text@) {
                    Some(gs)
                } else {
                    None
                },
            }
        },
    }
}

pub open spec fn model_of(e: VerbGovernmentEntry) -> GovernmentFrameModelRef {
    GovernmentFrameModelRef {
        lemma: e.lemma,
        complement_kind: e.complement_kind,
        preposition: e.preposition,
        source_id: e.source_id,
        note: None,
    }
}

/// The check of the governed word's readings against the expected cases:
/// its compatibility, the cases found, and what keeps it from being
/// trusted.
pub open spec fn case_result(expected: Set<Case>, da: Seq<MorphAnalysis>) -> (MorphCompatibility, Seq<Case>, Set<SuppressionReason>) {
    if !(exists|j: int| 0 <= j < da.len() && can_be_case_governed(#[trigger] da[j])) {
        (MorphCompatibility::Unknown, Seq::empty(), set![SuppressionReason::UnknownMorphology])
    } else if exists|j: int|
        0 <= j < da.len() && can_be_case_governed(#[trigger] da[j]) && (da[j].features.case matches Some(c)
            && expected.contains(c)) {
        (MorphCompatibility::Compatible, Seq::empty(), Set::empty())
    } else if exists|j: int| 0 <= j < da.len() && can_be_case_governed(#[trigger] da[j]) && da[j].features.case is None {
        (
            MorphCompatibility::Unknown,
            ordered_cases(reading_cases(da, true)),
            set![SuppressionReason::InsufficientMorphology],
        )
    } else {
        (MorphCompatibility::Incompatible, ordered_cases(reading_cases(da, true)), Set::empty())
    }
}

/// The verb frame of entry `e` between governor `gi` and the head of group
/// `g`.
pub open spec fn case_frame(
    toks: Seq<Token>,
    items: Seq<TokenAmbiguity>,
    bs: Seq<ClauseBoundaryView>,
    v: Seq<IslandView>,
    e: VerbGovernmentEntry,
    gi: int,
    g: NominalGroupView,
) -> FrameSpec {
    let da = spec_analyses_for(items, g.end_token);
    let res = case_result(e.allowed_cases@.to_set(), da);
    let b = res.2 + g.blockers.map_values(|x| reason_of_blocker(x)).to_set() + government_link_set(
        bs,
        v,
        gi,
        g.end_token as int,
    );
    FrameSpec {
        kind: GovernmentFrameKind::Verb,
        source: if e.complement_kind == VerbGovernmentComplementKind::Direct {
            GovernmentFrameSource::VerbValencySeed
        } else {
            GovernmentFrameSource::VerbPrepositionalValencySeed
        },
        governor_index: gi as usize,
        governor: toks[gi],
        governor_role: MorphosyntacticRole::CaseGovernor,
        governor_analyses: spec_analyses_for(items, gi as usize),
        dependent_index: g.end_token,
        dependent: g.head,
        dependent_role: MorphosyntacticRole::GovernedNominal,
        dependent_analyses: da,
        span: Span { start: toks[gi].span.start, end: g.span.end },
        expected: ordered_cases(e.allowed_cases@.to_set()),
        observed: res.1,
        compatibility: res.0,
        confidence: if b == Set::<SuppressionReason>::empty() {
            SyntaxConfidence::Strong
        } else {
            SyntaxConfidence::Ambiguous
        },
        blockers: b,
        model_ref: Some(model_of(e)),
    }
}

/// The frames of entry `e` for the groups of fewer than `c` modifiers
/// starting at `gs`.
pub open spec fn group_frames(
    toks: Seq<Token>,
    items: Seq<TokenAmbiguity>,
    bs: Seq<ClauseBoundaryView>,
    v: Seq<IslandView>,
    e: VerbGovernmentEntry,
    gi: int,
    gs: int,
    c: int,
) -> Seq<FrameSpec>
    decreases c,
{
    if c <= 0 {
        Seq::empty()
    } else {
        group_frames(toks, items, bs, v, e, gi, gs, c - 1) + match spec_nominal_group(toks, gs, c - 1) {
            Some(g) => seq![case_frame(toks, items, bs, v, e, gi, g)],
            None => Seq::empty(),
        }
    }
}

/// The frames of the first `k` entries of kind `kind` that fit governor
/// `gi`.
pub open spec fn entry_frames(
    toks: Seq<Token>,
    items: Seq<TokenAmbiguity>,
    bs: Seq<ClauseBoundaryView>,
    v: Seq<IslandView>,
    reg: Seq<VerbGovernmentEntry>,
    gi: int,
    kind: VerbGovernmentComplementKind,
    k: int,
) -> Seq<FrameSpec>
    decreases k,
{
    if k <= 0 || k > reg.len() {
        Seq::empty()
    } else {
        let e = reg[k - 1];
        entry_frames(toks, items, bs, v, reg, gi, kind, k - 1) + if e.complement_kind == kind && entry_lemma_fits(
            toks[gi].text@,
            spec_analyses_for(items, gi as usize),
            reg,
            e,
        ) {
            match complement_start(toks, gi, e) {
                Some(gs) => group_frames(toks, items, bs, v, e, gi, gs, 3),
                None => Seq::empty(),
            }
        } else {
            Seq::empty()
        }
    }
}

/// The verb frames of governor `gi`: those of the direct entries, then of
/// the prepositional ones.
pub open spec fn verb_frames_at(
    toks: Seq<Token>,
    items: Seq<TokenAmbiguity>,
    bs: Seq<ClauseBoundaryView>,
    v: Seq<IslandView>,
    reg: Seq<VerbGovernmentEntry>,
    gi: int,
) -> Seq<FrameSpec> {
    if toks[gi].kind == TokenKind::Word {
        entry_frames(toks, items, bs, v, reg, gi, VerbGovernmentComplementKind::Direct, reg.len() as int)
            + entry_frames(toks, items, bs, v, reg, gi, VerbGovernmentComplementKind::Prepositional, reg.len() as int)
    } else {
        Seq::empty()
    }
}

/// The verb frames of the first `k` tokens.
pub open spec fn verb_frames_upto(
    toks: Seq<Token>,
    items: Seq<TokenAmbiguity>,
    bs: Seq<ClauseBoundaryView>,
    v: Seq<IslandView>,
    reg: Seq<VerbGovernmentEntry>,
    k: int,
) -> Seq<FrameSpec>
    decreases k,
{
    if k <= 0 {
        Seq::empty()
    } else {
        verb_frames_upto(toks, items, bs, v, reg, k - 1) + verb_frames_at(toks, items, bs, v, reg, k - 1)
    }
}

fn registered(reg: &[VerbGovernmentEntry], w: &str) -> (r: bool)
    ensures
        r == lemma_in_registry(reg@, w@),
{
    let mut k: usize = 0;
    while k < reg.len()
        invariant
            k <= reg@.len(),
            forall|q: int| 0 <= q < k ==> (#[trigger] reg@[q]).lemma@ != w@,
        decreases reg@.len() - k,
    {
        if str_eq(reg[k].lemma.as_str(), w) {
            return true;
        }
        k = k + 1;
    }
    false
}

fn registered_reading(ga: &[MorphAnalysis], reg: &[VerbGovernmentEntry]) -> (r: bool)
    ensures
        r == has_registered_reading(ga@, reg@),
{
    let mut j: usize = 0;
    while j < ga.len()
        invariant
            j <= ga@.len(),
            forall|q: int|
                0 <= q < j ==> !((#[trigger] ga@[q]).pos == PartOfSpeech::Verb && lemma_in_registry(
                    reg@,
                    lower_seq(ga@[q].lemma@),
                )),
        decreases ga@.len() - j,
    {
        if ga[j].pos == PartOfSpeech::Verb {
            let l = lower_ru(ga[j].lemma.as_str());
            if registered(reg, l.as_str()) {
                return true;
            }
        }
        j = j + 1;
    }
    false
}

fn lemma_fits(surface: &str, ga: &[MorphAnalysis], reg: &[VerbGovernmentEntry], any: bool, e: &VerbGovernmentEntry) -> (r: bool)
    requires
        any == has_registered_reading(ga@, reg@),
    ensures
        r == entry_lemma_fits(surface@, ga@, reg@, *e),
{
    if any {
        let mut j: usize = 0;
        while j < ga.len()
            invariant
                any == has_registered_reading(ga@, reg@),
                any,
                j <= ga@.len(),
                forall|q: int|
                    0 <= q < j ==> !((#[trigger] ga@[q]).pos == PartOfSpeech::Verb && lower_seq(ga@[q].lemma@)
                        == e.lemma@),
            decreases ga@.len() - j,
        {
            if ga[j].pos == PartOfSpeech::Verb {
                let l = lower_ru(ga[j].lemma.as_str());
                if str_eq(l.as_str(), e.lemma.as_str()) {
                    assert(ga@[j as int].pos == PartOfSpeech::Verb && lower_seq(ga@[j as int].lemma@) == e.lemma@);
                    return true;
                }
            }
            j = j + 1;
        }
        false
    } else {
        let l = lower_ru(surface);
        str_eq(e.lemma.as_str(), l.as_str())
    }
}

fn complement_start_of(tokens: &[Token], gi: usize, e: &VerbGovernmentEntry) -> (r: Option<usize>)
    ensures
        r matches Some(j) ==> complement_start(tokens@, gi as int, *e) == Some(j as int),
        r is None ==> complement_start(tokens@, gi as int, *e) is None,
{
    match following_word_after_plain_gap(tokens, gi) {
        None => None,
        Some(n) => {
            if e.complement_kind == VerbGovernmentComplementKind::Direct {
                Some(n)
            } else {
                match following_word_after_plain_gap(tokens, n) {
                    None => None,
                    Some(gs) => match &e.preposition {
                        Some(p) => {
                            let l = lower_ru(tokens[n].text.as_str());
                            if str_eq(p.as_str(), l.as_str()) {
                                Some(gs)
                            } else {
                                None
                            }
                        },
                        None => None,
                    },
                }
            }
        },
    }
}

fn copy_entry_model(e: &VerbGovernmentEntry) -> (r: GovernmentFrameModelRef)
    ensures
        r == model_of(*e),
{
    GovernmentFrameModelRef {
        lemma: e.lemma.clone(),
        complement_kind: e.complement_kind,
        preposition: match &e.preposition {
            Some(p) => Some(p.clone()),
            None => None,
        },
        source_id: match &e.source_id {
            Some(p) => Some(p.clone()),
            None => None,
        },
        note: None,
    }
}

fn case_result_of(expected: &Vec<Case>, da: &[MorphAnalysis]) -> (r: (MorphCompatibility, Vec<Case>, Vec<SuppressionReason>))
    ensures
        r.0 == case_result(expected@.to_set(), da@).0,
        r.1@ == case_result(expected@.to_set(), da@).1,
        r.2@.to_set() == case_result(expected@.to_set(), da@).2,
{
    let mut any_nominal = false;
    let mut any_none = false;
    let mut j: usize = 0;
    while j < da.len()
        invariant
            j <= da@.len(),
            any_nominal == exists|q: int| 0 <= q < j && can_be_case_governed(#[trigger] da@[q]),
            any_none == exists|q: int| 0 <= q < j && can_be_case_governed(#[trigger] da@[q]) && da@[q].features.case is None,
            forall|q: int|
                0 <= q < j ==> !(can_be_case_governed(#[trigger] da@[q]) && (da@[q].features.case matches Some(c)
                    && expected@.to_set().contains(c))),
        decreases da@.len() - j,
    {
        let p = da[j].pos;
        let governed = p == PartOfSpeech::Noun || p == PartOfSpeech::Pronoun || p == PartOfSpeech::Adjective || p
            == PartOfSpeech::Numeral || p == PartOfSpeech::Participle;
        if governed {
            any_nominal = true;
            match da[j].features.case {
                Some(c) => {
                    let mut hit = false;
                    let mut k: usize = 0;
                    while k < expected.len()
                        invariant
                            k <= expected@.len(),
                            hit == exists|x: int| 0 <= x < k && expected@[x] == c,
                        decreases expected@.len() - k,
                    {
                        if expected[k] == c {
                            hit = true;
                        }
                        k = k + 1;
                    }
                    if hit {
                        assert(expected@.to_set().contains(c));
                        assert(can_be_case_governed(da@[j as int]));
                        return (MorphCompatibility::Compatible, Vec::new(), Vec::new());
                    }
                },
                None => {
                    any_none = true;
                },
            }
        }
        j = j + 1;
    }
    if !any_nominal {
        let mut b: Vec<SuppressionReason> = Vec::new();
        b.push(SuppressionReason::UnknownMorphology);
        assert(b@.to_set() =~= set![SuppressionReason::UnknownMorphology]);
        return (MorphCompatibility::Unknown, Vec::new(), b);
    }
    let found = cases_of_readings(da, true);
    let observed = ordered_cases_of(&found);
    if any_none {
        let mut b: Vec<SuppressionReason> = Vec::new();
        b.push(SuppressionReason::InsufficientMorphology);
        assert(b@.to_set() =~= set![SuppressionReason::InsufficientMorphology]);
        (MorphCompatibility::Unknown, observed, b)
    } else {
        let b: Vec<SuppressionReason> = Vec::new();
        assert(b@.to_set() =~= Set::<SuppressionReason>::empty());
        (MorphCompatibility::Incompatible, observed, b)
    }
}

fn case_government_frame(
    tokens: &[Token],
    ambiguity: &AmbiguityModel,
    islands: &SyntacticIslandMap,
    clause_boundaries: &ClauseBoundaryMap,
    gi: usize,
    group: &NominalGroupCandidate,
    e: &VerbGovernmentEntry,
) -> (r: GovernmentFrame)
    requires
        gi < tokens@.len(),
    ensures
        frame_is(
            r,
            case_frame(
                tokens@,
                ambiguity.items(),
                clause_boundaries.boundaries_view(),
                islands.islands_view(),
                *e,
                gi as int,
                group@,
            ),
        ),
{
    let da = copy_analyses(ambiguity.analyses_for_token(group.end_token));
    let res = case_result_of(&e.allowed_cases, da.as_slice());
    let (compatibility, observed, mut raw) = res;
    let mut gb = reasons_of(&group.blockers);
    let mut link = government_link_blockers(gi, group.end_token, islands, clause_boundaries);
    let ghost a = raw@;
    let ghost b = gb@;
    let ghost c = link@;
    raw.append(&mut gb);
    proof {
        lemma_append_set(a, b);
    }
    let ghost ab = raw@;
    raw.append(&mut link);
    proof {
        lemma_append_set(ab, c);
    }
    let blockers = sort_dedup_reasons(raw);
    proof {
        if blockers@.len() == 0 {
            assert(blockers@.to_set() =~= Set::<SuppressionReason>::empty());
        } else {
            assert(blockers@.to_set().contains(blockers@[0]));
        }
    }
    let confidence = if blockers.len() == 0 {
        SyntaxConfidence::Strong
    } else {
        SyntaxConfidence::Ambiguous
    };
    let source = if e.complement_kind == VerbGovernmentComplementKind::Direct {
        GovernmentFrameSource::VerbValencySeed
    } else {
        GovernmentFrameSource::VerbPrepositionalValencySeed
    };
    GovernmentFrame {
        kind: GovernmentFrameKind::Verb,
        source,
        governor: MorphosyntacticTerm {
            token_index: gi,
            token: tokens[gi].duplicate(),
            role: MorphosyntacticRole::CaseGovernor,
            analyses: copy_analyses(ambiguity.analyses_for_token(gi)),
        },
        dependent: MorphosyntacticTerm {
            token_index: group.end_token,
            token: group.head.duplicate(),
            role: MorphosyntacticRole::GovernedNominal,
            analyses: da,
        },
        span: Span::new(tokens[gi].span.start, group.span.end),
        expected_cases: ordered_cases_of(&e.allowed_cases),
        observed_cases: observed,
        compatibility,
        confidence,
        blockers,
        model_ref: Some(copy_entry_model(e)),
    }
}

fn group_frames_of(
    tokens: &[Token],
    ambiguity: &AmbiguityModel,
    islands: &SyntacticIslandMap,
    clause_boundaries: &ClauseBoundaryMap,
    gi: usize,
    gs: usize,
    e: &VerbGovernmentEntry,
) -> (r: Vec<GovernmentFrame>)
    requires
        gi < tokens@.len(),
    ensures
        frames_are(
            r@,
            group_frames(
                tokens@,
                ambiguity.items(),
                clause_boundaries.boundaries_view(),
                islands.islands_view(),
                *e,
                gi as int,
                gs as int,
                3,
            ),
        ),
{
    let ghost items = ambiguity.items();
    let ghost bs = clause_boundaries.boundaries_view();
    let ghost v = islands.islands_view();
    let mut out: Vec<GovernmentFrame> = Vec::new();
    let mut c: usize = 0;
    while c < 3
        invariant
            gi < tokens@.len(),
            items == ambiguity.items(),
            bs == clause_boundaries.boundaries_view(),
            v == islands.islands_view(),
            c <= 3,
            frames_are(out@, group_frames(tokens@, items, bs, v, *e, gi as int, gs as int, c as int)),
        decreases 3 - c,
    {
        let ghost prev = out@;
        match nominal_group_from_start(tokens, gs, c) {
            Some(g) => {
                let f = case_government_frame(tokens, ambiguity, islands, clause_boundaries, gi, &g, e);
                out.push(f);
                proof {
                    assert(out@ == prev + seq![f]);
                    assert(frames_are(seq![f], seq![case_frame(tokens@, items, bs, v, *e, gi as int, g@)]));
                    lemma_frames_append(
                        prev,
                        group_frames(tokens@, items, bs, v, *e, gi as int, gs as int, c as int),
                        seq![f],
                        seq![case_frame(tokens@, items, bs, v, *e, gi as int, g@)],
                    );
                }
            },
            None => {
                assert(group_frames(tokens@, items, bs, v, *e, gi as int, gs as int, c as int + 1) =~= group_frames(
                    tokens@,
                    items,
                    bs,
                    v,
                    *e,
                    gi as int,
                    gs as int,
                    c as int,
                ));
            },
        }
        c = c + 1;
    }
    out
}

fn entry_frames_of(
    tokens: &[Token],
    ambiguity: &AmbiguityModel,
    islands: &SyntacticIslandMap,
    clause_boundaries: &ClauseBoundaryMap,
    verbs: &[VerbGovernmentEntry],
    gi: usize,
    kind: VerbGovernmentComplementKind,
) -> (r: Vec<GovernmentFrame>)
    requires
        gi < tokens@.len(),
    ensures
        frames_are(
            r@,
            entry_frames(
                tokens@,
                ambiguity.items(),
                clause_boundaries.boundaries_view(),
                islands.islands_view(),
                verbs@,
                gi as int,
                kind,
                verbs@.len() as int,
            ),
        ),
{
    let ghost items = ambiguity.items();
    let ghost bs = clause_boundaries.boundaries_view();
    let ghost v = islands.islands_view();
    let ga = ambiguity.analyses_for_token(gi);
    let any = registered_reading(ga, verbs);
    let mut out: Vec<GovernmentFrame> = Vec::new();
    let mut k: usize = 0;
    while k < verbs.len()
        invariant
            gi < tokens@.len(),
            items == ambiguity.items(),
            bs == clause_boundaries.boundaries_view(),
            v == islands.islands_view(),
            ga@ == spec_analyses_for(items, gi),
            any == has_registered_reading(ga@, verbs@),
            k <= verbs@.len(),
            frames_are(out@, entry_frames(tokens@, items, bs, v, verbs@, gi as int, kind, k as int)),
        decreases verbs@.len() - k,
    {
        let e = &verbs[k];
        let ghost prev = out@;
        let ghost sp = entry_frames(tokens@, items, bs, v, verbs@, gi as int, kind, k as int);
        if e.complement_kind == kind && lemma_fits(tokens[gi].text.as_str(), ga, verbs, any, e) {
            match complement_start_of(tokens, gi, e) {
                Some(gs) => {
                    let mut fs = group_frames_of(tokens, ambiguity, islands, clause_boundaries, gi, gs, e);
                    let ghost added = fs@;
                    out.append(&mut fs);
                    proof {
                        lemma_frames_append(
                            prev,
                            sp,
                            added,
                            group_frames(tokens@, items, bs, v, *e, gi as int, gs as int, 3),
                        );
                    }
                },
                None => {
                    assert(entry_frames(tokens@, items, bs, v, verbs@, gi as int, kind, k as int + 1) =~= sp);
                },
            }
        } else {
            assert(entry_frames(tokens@, items, bs, v, verbs@, gi as int, kind, k as int + 1) =~= sp);
        }
        k = k + 1;
    }
    out
}

/// The verb frames of the tokens: for each word whose lemma (or, when no
/// verb reading has an entry, whose lowercased form) has valency entries,
/// one frame per entry and group of up to two modifiers after it (after the
/// entry's preposition for a prepositional complement).
pub fn verb_government_frames_from_tokens(
    tokens: &[Token],
    ambiguity: &AmbiguityModel,
    islands: &SyntacticIslandMap,
    clause_boundaries: &ClauseBoundaryMap,
    verbs: &[VerbGovernmentEntry],
) -> (r: Vec<GovernmentFrame>)
    ensures
        frames_are(
            r@,
            verb_frames_upto(
                tokens@,
                ambiguity.items(),
                clause_boundaries.boundaries_view(),
                islands.islands_view(),
                verbs@,
                tokens@.len() as int,
            ),
        ),
{
    let ghost items = ambiguity.items();
    let ghost bs = clause_boundaries.boundaries_view();
    let ghost v = islands.islands_view();
    let mut out: Vec<GovernmentFrame> = Vec::new();
    let mut gi: usize = 0;
    while gi < tokens.len()
        invariant
            items == ambiguity.items(),
            bs == clause_boundaries.boundaries_view(),
            v == islands.islands_view(),
            gi <= tokens@.len(),
            frames_are(out@, verb_frames_upto(tokens@, items, bs, v, verbs@, gi as int)),
        decreases tokens@.len() - gi,
    {
        let ghost prev = out@;
        if tokens[gi].kind == TokenKind::Word {
            let mut d = entry_frames_of(
                tokens,
                ambiguity,
                islands,
                clause_boundaries,
                verbs,
                gi,
                VerbGovernmentComplementKind::Direct,
            );
            let mut p = entry_frames_of(
                tokens,
                ambiguity,
                islands,
                clause_boundaries,
                verbs,
                gi,
                VerbGovernmentComplementKind::Prepositional,
            );
            let ghost dv = d@;
            let ghost pv = p@;
            out.append(&mut d);
            out.append(&mut p);
            proof {
                let sd = entry_frames(tokens@, items, bs, v, verbs@, gi as int, VerbGovernmentComplementKind::Direct, verbs@.len() as int);
                let spp = entry_frames(tokens@, items, bs, v, verbs@, gi as int, VerbGovernmentComplementKind::Prepositional, verbs@.len() as int);
                lemma_frames_append(dv, sd, pv, spp);
                lemma_frames_append(prev, verb_frames_upto(tokens@, items, bs, v, verbs@, gi as int), dv + pv, sd + spp);
                assert(prev + dv + pv =~= prev + (dv + pv));
                assert(verb_frames_upto(tokens@, items, bs, v, verbs@, gi as int + 1) =~= verb_frames_upto(tokens@, items, bs, v, verbs@, gi as int) + (sd + spp));
            }
        } else {
            assert(verb_frames_upto(tokens@, items, bs, v, verbs@, gi as int + 1) =~= verb_frames_upto(
                tokens@,
                items,
                bs,
                v,
                verbs@,
                gi as int,
            ));
        }
        gi = gi + 1;
    }
    out
}

/// What tells two frames apart: kind, source, the spans of their terms,
/// their span and the expected cases.
pub open spec fn frame_key(s: FrameSpec) -> (
    GovernmentFrameKind,
    GovernmentFrameSource,
    (usize, usize, usize, usize),
    (usize, usize),
    Seq<Case>,
) {
    (
        s.kind,
        s.source,
        (s.governor.span.start, s.governor.span.end, s.dependent.span.start, s.dependent.span.end),
        (s.span.start, s.span.end),
        s.expected,
    )
}

/// Some frame among the first `n` of `s` has key `key`.
pub open spec fn frame_key_among(
    s: Seq<FrameSpec>,
    n: int,
    key: (GovernmentFrameKind, GovernmentFrameSource, (usize, usize, usize, usize), (usize, usize), Seq<Case>),
) -> bool {
    exists|j: int| 0 <= j < n && frame_key(#[trigger] s[j]) == key
}

/// The first `n` frames of `s`, each kept only where no earlier one has its
/// key.
pub open spec fn dedup_frames(s: Seq<FrameSpec>, n: int) -> Seq<FrameSpec>
    decreases n,
{
    if n <= 0 {
        Seq::empty()
    } else if frame_key_among(s, n - 1, frame_key(s[n - 1])) {
        dedup_frames(s, n - 1)
    } else {
        dedup_frames(s, n - 1).push(s[n - 1])
    }
}

pub proof fn lemma_dedup_frame_keys(s: Seq<FrameSpec>, n: int)
    requires
        0 <= n <= s.len(),
    ensures
        forall|key|
            #![trigger frame_key_among(dedup_frames(s, n), dedup_frames(s, n).len() as int, key)]
            #![trigger frame_key_among(s, n, key)]
            frame_key_among(dedup_frames(s, n), dedup_frames(s, n).len() as int, key) <==> frame_key_among(s, n, key),
    decreases n,
{
    if n > 0 {
        lemma_dedup_frame_keys(s, n - 1);
        let d = dedup_frames(s, n - 1);
        let dn = dedup_frames(s, n);
        assert forall|key| frame_key_among(dn, dn.len() as int, key) <==> frame_key_among(s, n, key) by {
            if frame_key_among(s, n, key) {
                let j = choose|j: int| 0 <= j < n && frame_key(#[trigger] s[j]) == key;
                if j < n - 1 {
                    assert(frame_key_among(s, n - 1, key));
                    let m = choose|m: int| 0 <= m < d.len() && frame_key(#[trigger] d[m]) == key;
                    assert(dn[m] == d[m]);
                } else if frame_key_among(s, n - 1, frame_key(s[n - 1])) {
                    let m = choose|m: int| 0 <= m < d.len() && frame_key(#[trigger] d[m]) == key;
                } else {
                    assert(dn[d.len() as int] == s[n - 1]);
                }
            }
            if frame_key_among(dn, dn.len() as int, key) {
                let m = choose|m: int| 0 <= m < dn.len() && frame_key(#[trigger] dn[m]) == key;
                if m < d.len() {
                    assert(dn[m] == d[m]);
                    assert(frame_key_among(d, d.len() as int, key));
                    let j = choose|j: int| 0 <= j < n - 1 && frame_key(#[trigger] s[j]) == key;
                    assert(frame_key(s[j]) == key);
                } else {
                    assert(frame_key(s[n - 1]) == key);
                }
            }
        }
    }
}

fn same_cases(a: &Vec<Case>, b: &Vec<Case>) -> (r: bool)
    ensures
        r == (a@ == b@),
{
    if a.len() != b.len() {
        return false;
    }
    let mut i: usize = 0;
    while i < a.len()
        invariant
            a@.len() == b@.len(),
            i <= a@.len(),
            forall|k: int| 0 <= k < i ==> a@[k] == b@[k],
        decreases a@.len() - i,
    {
        if a[i] != b[i] {
            return false;
        }
        i = i + 1;
    }
    assert(a@ =~= b@);
    true
}

fn same_frame_key(a: &GovernmentFrame, b: &GovernmentFrame, Ghost(sa): Ghost<FrameSpec>, Ghost(sb): Ghost<FrameSpec>) -> (r: bool)
    requires
        frame_is(*a, sa),
        frame_is(*b, sb),
    ensures
        r == (frame_key(sa) == frame_key(sb)),
{
    a.kind == b.kind && a.source == b.source && a.governor.token.span.start == b.governor.token.span.start
        && a.governor.token.span.end == b.governor.token.span.end && a.dependent.token.span.start
        == b.dependent.token.span.start && a.dependent.token.span.end == b.dependent.token.span.end && a.span.start
        == b.span.start && a.span.end == b.span.end && same_cases(&a.expected_cases, &b.expected_cases)
}

fn dedup_government_frames(frames: Vec<GovernmentFrame>, Ghost(s): Ghost<Seq<FrameSpec>>) -> (r: Vec<GovernmentFrame>)
    requires
        frames_are(frames@, s),
    ensures
        frames_are(r@, dedup_frames(s, s.len() as int)),
{
    let mut out: Vec<GovernmentFrame> = Vec::new();
    let mut rest = frames;
    let ghost s0 = rest@;
    let n = rest.len();
    let mut i: usize = 0;
    while i < n
        invariant
            n == s0.len(),
            frames_are(s0, s),
            i <= n,
            rest@ == s0.skip(i as int),
            frames_are(out@, dedup_frames(s, i as int)),
        decreases n - i,
    {
        let e = rest.remove(0);
        assert(e == s0[i as int]);
        assert(rest@ =~= s0.skip(i as int + 1));
        assert(frame_is(s0[i as int], s[i as int]));
        proof {
            lemma_dedup_frame_keys(s, i as int);
        }
        let ghost d = dedup_frames(s, i as int);
        let mut found = false;
        let mut m: usize = 0;
        while m < out.len()
            invariant
                m <= out@.len(),
                frames_are(out@, d),
                frame_is(e, s[i as int]),
                found == exists|q: int| 0 <= q < m && frame_key(#[trigger] d[q]) == frame_key(s[i as int]),
            decreases out@.len() - m,
        {
            assert(frame_is(out@[m as int], d[m as int]));
            if same_frame_key(&out[m], &e, Ghost(d[m as int]), Ghost(s[i as int])) {
                found = true;
            }
            m = m + 1;
        }
        assert(found == frame_key_among(d, d.len() as int, frame_key(s[i as int])));
        if !found {
            let ghost prev = out@;
            out.push(e);
            proof {
                assert(frames_are(seq![e], seq![s[i as int]]));
                lemma_frames_append(prev, d, seq![e], seq![s[i as int]]);
                assert(prev + seq![e] == out@);
                assert(d + seq![s[i as int]] =~= d.push(s[i as int]));
            }
        }
        i = i + 1;
    }
    out
}

/// The frames of the relations, then the verb frames, before duplicates go.
pub open spec fn spec_all_frames(
    toks: Seq<Token>,
    items: Seq<TokenAmbiguity>,
    rels: Seq<MorphosyntacticRelationView>,
    bs: Seq<ClauseBoundaryView>,
    v: Seq<IslandView>,
    entries: Seq<PrepositionGovernmentEntry>,
    reg: Seq<VerbGovernmentEntry>,
) -> Seq<FrameSpec> {
    relation_frames(entries, bs, v, rels, rels.len() as int) + verb_frames_upto(toks, items, bs, v, reg, toks.len() as int)
}

/// The government frames of the facts: one for each preposition and
/// numeral relation, then the verb frames of the valency entries; a frame
/// whose key an earlier one has is dropped.
pub fn government_frames_from_facts(
    tokens: &[Token],
    ambiguity: &AmbiguityModel,
    relations: &[MorphosyntacticRelation],
    islands: &SyntacticIslandMap,
    clause_boundaries: &ClauseBoundaryMap,
    prepositions: &[PrepositionGovernmentEntry],
    verbs: &[VerbGovernmentEntry],
) -> (r: Vec<GovernmentFrame>)
    ensures
        frames_are(
            r@,
            dedup_frames(
                spec_all_frames(
                    tokens@,
                    ambiguity.items(),
                    morphosyntactic_views(relations@),
                    clause_boundaries.boundaries_view(),
                    islands.islands_view(),
                    prepositions@,
                    verbs@,
                ),
                spec_all_frames(
                    tokens@,
                    ambiguity.items(),
                    morphosyntactic_views(relations@),
                    clause_boundaries.boundaries_view(),
                    islands.islands_view(),
                    prepositions@,
                    verbs@,
                ).len() as int,
            ),
        ),
{
    let ghost bs = clause_boundaries.boundaries_view();
    let ghost v = islands.islands_view();
    let ghost rv = morphosyntactic_views(relations@);
    let mut out: Vec<GovernmentFrame> = Vec::new();
    let mut k: usize = 0;
    while k < relations.len()
        invariant
            bs == clause_boundaries.boundaries_view(),
            v == islands.islands_view(),
            rv == morphosyntactic_views(relations@),
            k <= relations@.len(),
            frames_are(out@, relation_frames(prepositions@, bs, v, rv, k as int)),
        decreases relations@.len() - k,
    {
        let ghost prev = out@;
        assert(rv[k as int] == relations@[k as int]@);
        match frame_from_relation(&relations[k], prepositions, islands, clause_boundaries) {
            Some(f) => {
                let ghost sf = relation_frame(prepositions@, bs, v, rv[k as int])->0;
                out.push(f);
                proof {
                    assert(frames_are(seq![f], seq![sf]));
                    lemma_frames_append(prev, relation_frames(prepositions@, bs, v, rv, k as int), seq![f], seq![sf]);
                    assert(prev + seq![f] == out@);
                }
            },
            None => {
                assert(relation_frames(prepositions@, bs, v, rv, k as int + 1) =~= relation_frames(
                    prepositions@,
                    bs,
                    v,
                    rv,
                    k as int,
                ));
            },
        }
        k = k + 1;
    }
    let mut verb = verb_government_frames_from_tokens(tokens, ambiguity, islands, clause_boundaries, verbs);
    let ghost a = out@;
    let ghost b = verb@;
    out.append(&mut verb);
    let ghost all = spec_all_frames(tokens@, ambiguity.items(), rv, bs, v, prepositions@, verbs@);
    proof {
        lemma_frames_append(
            a,
            relation_frames(prepositions@, bs, v, rv, rv.len() as int),
            b,
            verb_frames_upto(tokens@, ambiguity.items(), bs, v, verbs@, tokens@.len() as int),
        );
    }
    dedup_government_frames(out, Ghost(all))
}

} // verus!
