use vstd::prelude::*;
use crate::text::{lower_ru, lower_seq, Span, Token};
use crate::readings::{copy_analyses, Case, MorphAnalysis};
use crate::syntax::model::SyntaxConfidence;
use crate::syntax::relations::{
    adjacent_modifier_head_candidates, adjacent_subject_predicate_candidates, relation_views, spec_adjacent_all,
    RelationView, SyntaxRelationBlocker, SyntaxRelationCandidate, SyntaxRelationKind,
};
use crate::syntax::nominal_groups::{
    analyses_can_head_nominal_group, analyses_can_modify_nominal_group, can_head_group, can_modify_group,
    governed_views, preposition_governed_nominal_group_candidates, spec_governed, GovernedNominalGroupCandidate,
    GovernedView, NominalGroupGovernorKind, NominalGroupView,
};
use crate::syntax::government::{MorphCompatibility, MorphosyntacticRole};
use crate::syntax::agreement::{
    adjective_noun_check, spec_adjective_noun_compatibility, spec_subject_predicate_compatibility,
    subject_predicate_check, AgreementCheck, AgreementRelationKind,
};
use crate::syntax::constraints::{allowed_cases, allowed_seq, PrepositionGovernmentEntry};
use crate::syntax::numeral_government::{
    constraint_compatibility, copy_relation_blockers, downgraded, lemma_token_by_span, morphosyntactic_views,
    numeral_government_relations, spec_numeral_government_relations, token_by_span, token_index_by_span,
    GovernmentCheck, MorphosyntacticConstraint, MorphosyntacticRelation, MorphosyntacticRelationKind,
    MorphosyntacticRelationView,
};

verus! {

broadcast use vstd::seq_lib::group_seq_properties;

/// The relation with the given terms and constraint; a trusted relation is
/// weakened when its check cannot tell.
pub open spec fn relation_view_of(
    kind: MorphosyntacticRelationKind,
    grole: MorphosyntacticRole,
    gi: int,
    gtok: Token,
    ga: Seq<MorphAnalysis>,
    drole: MorphosyntacticRole,
    di: int,
    dtok: Token,
    da: Seq<MorphAnalysis>,
    span: Span,
    confidence: SyntaxConfidence,
    blockers: Seq<SyntaxRelationBlocker>,
    c: MorphosyntacticConstraint,
) -> MorphosyntacticRelationView {
    MorphosyntacticRelationView {
        kind,
        governor_index: gi as usize,
        governor: gtok,
        governor_role: grole,
        governor_analyses: ga,
        dependent_index: di as usize,
        dependent: dtok,
        dependent_role: drole,
        dependent_analyses: da,
        span,
        confidence: downgraded(confidence, constraint_compatibility(c)),
        blockers,
        constraint: c,
    }
}

/// The agreement relation of an adjacent pair at tokens `l` and `r`: a
/// modifier and its head, or a subject and its predicate.
pub open spec fn agreement_relation(
    rs: Seq<Vec<MorphAnalysis>>,
    subject: bool,
    l: int,
    c: RelationView,
    r: int,
) -> MorphosyntacticRelationView {
    if subject {
        relation_view_of(
            MorphosyntacticRelationKind::SubjectPredicateAgreement,
            MorphosyntacticRole::Subject,
            l,
            c.left,
            rs[l]@,
            MorphosyntacticRole::Predicate,
            r,
            c.right,
            rs[r]@,
            c.span,
            c.confidence,
            c.blockers,
            MorphosyntacticConstraint::Agreement(
                AgreementCheck {
                    relation: AgreementRelationKind::SubjectPredicate,
                    compatibility: spec_subject_predicate_compatibility(rs[l]@, rs[r]@),
                },
            ),
        )
    } else {
        relation_view_of(
            MorphosyntacticRelationKind::AttributiveAgreement,
            MorphosyntacticRole::Modifier,
            l,
            c.left,
            rs[l]@,
            MorphosyntacticRole::Head,
            r,
            c.right,
            rs[r]@,
            c.span,
            c.confidence,
            c.blockers,
            MorphosyntacticConstraint::Agreement(
                AgreementCheck {
                    relation: AgreementRelationKind::AdjectiveNoun,
                    compatibility: spec_adjective_noun_compatibility(rs[l]@, rs[r]@),
                },
            ),
        )
    }
}

/// The agreement relations of the first `k` adjacent pair candidates whose
/// two tokens are found by their spans.
pub open spec fn pair_relations(
    toks: Seq<Token>,
    rs: Seq<Vec<MorphAnalysis>>,
    cands: Seq<RelationView>,
    subject: bool,
    k: int,
) -> Seq<MorphosyntacticRelationView>
    decreases k,
{
    if k <= 0 || k > cands.len() {
        Seq::empty()
    } else {
        let prev = pair_relations(toks, rs, cands, subject, k - 1);
        let c = cands[k - 1];
        match (token_by_span(toks, c.left.span, 0), token_by_span(toks, c.right.span, 0)) {
            (Some(l), Some(r)) => prev.push(agreement_relation(rs, subject, l, c, r)),
            _ => prev,
        }
    }
}

/// The modifier-head relations of the text.
pub open spec fn spec_attributive_relations(toks: Seq<Token>, rs: Seq<Vec<MorphAnalysis>>) -> Seq<
    MorphosyntacticRelationView,
> {
    let cands = spec_adjacent_all(toks, SyntaxRelationKind::ModifierHead, None);
    pair_relations(toks, rs, cands, false, cands.len() as int)
}

/// The subject-predicate relations of the text.
pub open spec fn spec_subject_predicate_relations(toks: Seq<Token>, rs: Seq<Vec<MorphAnalysis>>) -> Seq<
    MorphosyntacticRelationView,
> {
    let cands = spec_adjacent_all(toks, SyntaxRelationKind::SubjectPredicate, None);
    pair_relations(toks, rs, cands, true, cands.len() as int)
}

fn build_relation(
    analyses: &[Vec<MorphAnalysis>],
    kind: MorphosyntacticRelationKind,
    grole: MorphosyntacticRole,
    gi: usize,
    gtok: &Token,
    drole: MorphosyntacticRole,
    di: usize,
    dtok: &Token,
    span: Span,
    confidence: SyntaxConfidence,
    blockers: &Vec<SyntaxRelationBlocker>,
    constraint: MorphosyntacticConstraint,
) -> (r: MorphosyntacticRelation)
    requires
        gi < analyses@.len(),
        di < analyses@.len(),
    ensures
        r@ == relation_view_of(
            kind,
            grole,
            gi as int,
            *gtok,
            analyses@[gi as int]@,
            drole,
            di as int,
            *dtok,
            analyses@[di as int]@,
            span,
            confidence,
            blockers@,
            constraint,
        ),
{
    let conf = if constraint.compatibility() == MorphCompatibility::Unknown && confidence.is_actionable() {
        SyntaxConfidence::Weak
    } else {
        confidence
    };
    MorphosyntacticRelation {
        kind,
        governor_index: gi,
        governor: gtok.duplicate(),
        governor_role: grole,
        governor_analyses: copy_analyses(analyses[gi].as_slice()),
        dependent_index: di,
        dependent: dtok.duplicate(),
        dependent_role: drole,
        dependent_analyses: copy_analyses(analyses[di].as_slice()),
        span,
        confidence: conf,
        blockers: copy_relation_blockers(blockers),
        constraint,
    }
}

fn relations_of_pairs(
    tokens: &[Token],
    analyses: &[Vec<MorphAnalysis>],
    cands: &Vec<SyntaxRelationCandidate>,
    subject: bool,
) -> (r: Vec<MorphosyntacticRelation>)
    requires
        analyses@.len() == tokens@.len(),
    ensures
        morphosyntactic_views(r@) == pair_relations(
            tokens@,
            analyses@,
            relation_views(cands@),
            subject,
            cands@.len() as int,
        ),
{
    let ghost cv = relation_views(cands@);
    let mut out: Vec<MorphosyntacticRelation> = Vec::new();
    let mut k: usize = 0;
    while k < cands.len()
        invariant
            analyses@.len() == tokens@.len(),
            cv == relation_views(cands@),
            k <= cands@.len(),
            morphosyntactic_views(out@) == pair_relations(tokens@, analyses@, cv, subject, k as int),
        decreases cands@.len() - k,
    {
        let c = &cands[k];
        assert(cv[k as int] == c@);
        let ghost prev = morphosyntactic_views(out@);
        match (token_index_by_span(tokens, c.left.span), token_index_by_span(tokens, c.right.span)) {
            (Some(l), Some(r)) => {
                proof {
                    lemma_token_by_span(tokens@, c.left.span, 0);
                    lemma_token_by_span(tokens@, c.right.span, 0);
                }
                let constraint = if subject {
                    let left = copy_analyses(analyses[l].as_slice());
                    let right = copy_analyses(analyses[r].as_slice());
                    MorphosyntacticConstraint::Agreement(subject_predicate_check(&left, &right))
                } else {
                    let left = copy_analyses(analyses[l].as_slice());
                    let right = copy_analyses(analyses[r].as_slice());
                    MorphosyntacticConstraint::Agreement(adjective_noun_check(&left, &right))
                };
                let rel = if subject {
                    build_relation(
                        analyses,
                        MorphosyntacticRelationKind::SubjectPredicateAgreement,
                        MorphosyntacticRole::Subject,
                        l,
                        &c.left,
                        MorphosyntacticRole::Predicate,
                        r,
                        &c.right,
                        c.span,
                        c.confidence,
                        &c.blockers,
                        constraint,
                    )
                } else {
                    build_relation(
                        analyses,
                        MorphosyntacticRelationKind::AttributiveAgreement,
                        MorphosyntacticRole::Modifier,
                        l,
                        &c.left,
                        MorphosyntacticRole::Head,
                        r,
                        &c.right,
                        c.span,
                        c.confidence,
                        &c.blockers,
                        constraint,
                    )
                };
                out.push(rel);
                assert(morphosyntactic_views(out@) =~= prev.push(rel@));
            },
            _ => {},
        }
        k = k + 1;
    }
    out
}

/// The modifier-head relations of adjacent words, with the agreement check
/// of their readings (`analyses` holds the readings of each token).
pub fn attributive_relations(tokens: &[Token], analyses: &[Vec<MorphAnalysis>]) -> (r: Vec<MorphosyntacticRelation>)
    requires
        analyses@.len() == tokens@.len(),
    ensures
        morphosyntactic_views(r@) == spec_attributive_relations(tokens@, analyses@),
{
    let cands = adjacent_modifier_head_candidates(tokens);
    relations_of_pairs(tokens, analyses, &cands, false)
}

/// The subject-predicate relations of adjacent words, with the agreement
/// check of their readings.
pub fn subject_predicate_relations(tokens: &[Token], analyses: &[Vec<MorphAnalysis>]) -> (r: Vec<
    MorphosyntacticRelation,
>)
    requires
        analyses@.len() == tokens@.len(),
    ensures
        morphosyntactic_views(r@) == spec_subject_predicate_relations(tokens@, analyses@),
{
    let cands = adjacent_subject_predicate_candidates(tokens);
    relations_of_pairs(tokens, analyses, &cands, true)
}

/// Some reading of the noun is in a case the preposition allows.
pub open spec fn some_allowed_case(allowed: Seq<Case>, noun: Seq<MorphAnalysis>) -> bool {
    exists|j: int| 0 <= j < noun.len() && ((#[trigger] noun[j]).features.case matches Some(c) && allowed.contains(c))
}

/// Unknown when the preposition allows no case or the noun has no reading;
/// compatible when some reading is in an allowed case; incompatible when
/// none is and every reading has a case; unknown otherwise.
pub open spec fn spec_preposition_compatibility(allowed: Seq<Case>, noun: Seq<MorphAnalysis>) -> MorphCompatibility {
    if allowed.len() == 0 || noun.len() == 0 {
        MorphCompatibility::Unknown
    } else if some_allowed_case(allowed, noun) {
        MorphCompatibility::Compatible
    } else if forall|j: int| 0 <= j < noun.len() ==> (#[trigger] noun[j]).features.case is Some {
        MorphCompatibility::Incompatible
    } else {
        MorphCompatibility::Unknown
    }
}

fn case_in(v: &Vec<Case>, c: Case) -> (r: bool)
    ensures
        r == v@.contains(c),
{
    let mut i: usize = 0;
    while i < v.len()
        invariant
            i <= v@.len(),
            forall|k: int| 0 <= k < i ==> v@[k] != c,
        decreases v@.len() - i,
    {
        if v[i] == c {
            return true;
        }
        i = i + 1;
    }
    false
}

/// The government check of a noun's readings against the cases a
/// preposition allows.
pub fn preposition_government_check(allowed: &Vec<Case>, noun: &[MorphAnalysis]) -> (r: GovernmentCheck)
    ensures
        r.compatibility == spec_preposition_compatibility(allowed@, noun@),
{
    if allowed.len() == 0 || noun.len() == 0 {
        return GovernmentCheck { compatibility: MorphCompatibility::Unknown };
    }
    let mut all = true;
    let mut j: usize = 0;
    while j < noun.len()
        invariant
            allowed@.len() > 0,
            noun@.len() > 0,
            j <= noun@.len(),
            forall|y: int|
                0 <= y < j ==> !((#[trigger] noun@[y]).features.case matches Some(c) && allowed@.contains(c)),
            all == forall|y: int| 0 <= y < j ==> (#[trigger] noun@[y]).features.case is Some,
        decreases noun@.len() - j,
    {
        match noun[j].features.case {
            Some(c) => {
                if case_in(allowed, c) {
                    assert(some_allowed_case(allowed@, noun@));
                    return GovernmentCheck { compatibility: MorphCompatibility::Compatible };
                }
            },
            None => {
                all = false;
            },
        }
        j = j + 1;
    }
    if all {
        GovernmentCheck { compatibility: MorphCompatibility::Incompatible }
    } else {
        GovernmentCheck { compatibility: MorphCompatibility::Unknown }
    }
}

/// The readings make the group plausible: its head's readings can head a
/// nominal group and each modifier's can modify one.
pub open spec fn roles_plausible_in(g: NominalGroupView, rs: Seq<Vec<MorphAnalysis>>) -> bool {
    &&& g.end_token < rs.len()
    &&& can_head_group(rs[g.end_token as int]@)
    &&& forall|o: int| 0 <= o < g.modifiers.len() ==> #[trigger] modifier_plausible(rs, g.start_token as int, o)
}

/// Modifier `o` of a group starting at token `start` is inside the text and
/// its readings can modify a nominal group.
pub open spec fn modifier_plausible(rs: Seq<Vec<MorphAnalysis>>, start: int, o: int) -> bool {
    start + 2 * o < rs.len() && can_modify_group(rs[start + 2 * o]@)
}

fn group_roles_plausible(group: &crate::syntax::nominal_groups::NominalGroupCandidate, analyses: &[Vec<MorphAnalysis>]) -> (r: bool)
    ensures
        r == roles_plausible_in(group@, analyses@),
{
    let n = analyses.len();
    if group.end_token >= n || !analyses_can_head_nominal_group(analyses[group.end_token].as_slice()) {
        return false;
    }
    let start = group.start_token;
    let mut o: usize = 0;
    while o < group.modifiers.len()
        invariant
            n == analyses@.len(),
            start == group.start_token,
            group.end_token < n,
            can_head_group(analyses@[group.end_token as int]@),
            o <= group.modifiers@.len(),
            forall|p: int| 0 <= p < o ==> #[trigger] modifier_plausible(analyses@, start as int, p),
        decreases group.modifiers@.len() - o,
    {
        if start >= n {
            assert(!modifier_plausible(analyses@, group@.start_token as int, o as int) && o < group@.modifiers.len());
            return false;
        }
        let rem = n - start;
        if o > (rem - 1) / 2 {
            assert(start + 2 * o >= n) by (nonlinear_arith)
                requires
                    rem == n - start,
                    rem >= 1,
                    o > (rem - 1) / 2,
            ;
            assert(!modifier_plausible(analyses@, group@.start_token as int, o as int) && o < group@.modifiers.len());
            return false;
        }
        assert(start + 2 * o < n) by (nonlinear_arith)
            requires
                rem == n - start,
                rem >= 1,
                o <= (rem - 1) / 2,
        ;
        let idx = start + 2 * o;
        let ok = analyses_can_modify_nominal_group(analyses[idx].as_slice());
        assert(ok == modifier_plausible(analyses@, start as int, o as int));
        if !ok {
            assert(!modifier_plausible(analyses@, group@.start_token as int, o as int) && o < group@.modifiers.len());
            return false;
        }
        o = o + 1;
    }
    true
}

/// The preposition government relation of a governed group candidate.
pub open spec fn preposition_relation(
    rs: Seq<Vec<MorphAnalysis>>,
    entries: Seq<PrepositionGovernmentEntry>,
    g: GovernedView,
) -> MorphosyntacticRelationView {
    let allowed = allowed_seq(entries, lower_seq(g.governor.text@), entries.len() as int);
    relation_view_of(
        MorphosyntacticRelationKind::PrepositionCaseGovernment,
        MorphosyntacticRole::CaseGovernor,
        g.governor_token as int,
        g.governor,
        rs[g.governor_token as int]@,
        MorphosyntacticRole::GovernedNominal,
        g.group.end_token as int,
        g.group.head,
        rs[g.group.end_token as int]@,
        g.span,
        g.confidence,
        g.blockers,
        MorphosyntacticConstraint::Government(
            GovernmentCheck { compatibility: spec_preposition_compatibility(allowed, rs[g.group.end_token as int]@) },
        ),
    )
}

/// The preposition relations of the first `k` governed candidates whose
/// readings make the group plausible.
pub open spec fn prep_relations(
    rs: Seq<Vec<MorphAnalysis>>,
    entries: Seq<PrepositionGovernmentEntry>,
    gs: Seq<GovernedView>,
    k: int,
) -> Seq<MorphosyntacticRelationView>
    decreases k,
{
    if k <= 0 || k > gs.len() {
        Seq::empty()
    } else {
        let prev = prep_relations(rs, entries, gs, k - 1);
        let g = gs[k - 1];
        if roles_plausible_in(g.group, rs) && g.governor_token < rs.len() {
            prev.push(preposition_relation(rs, entries, g))
        } else {
            prev
        }
    }
}

/// The names of the prepositions of the entries.
pub open spec fn entry_names(entries: Seq<PrepositionGovernmentEntry>) -> Seq<String> {
    entries.map_values(|e: PrepositionGovernmentEntry| e.preposition)
}

/// The preposition government relations of the text.
pub open spec fn spec_preposition_government_relations(
    toks: Seq<Token>,
    rs: Seq<Vec<MorphAnalysis>>,
    entries: Seq<PrepositionGovernmentEntry>,
) -> Seq<MorphosyntacticRelationView> {
    let gs = spec_governed(toks, NominalGroupGovernorKind::Preposition, Some(entry_names(entries)), 3, toks.len() as int);
    prep_relations(rs, entries, gs, gs.len() as int)
}

/// Between each preposition of the entries and the head of the group of up
/// to three modifiers after it, when the readings make the group plausible:
/// the check of the head's readings against the cases the preposition
/// allows.
pub fn preposition_government_relations(
    tokens: &[Token],
    analyses: &[Vec<MorphAnalysis>],
    prepositions: &[PrepositionGovernmentEntry],
) -> (r: Vec<MorphosyntacticRelation>)
    requires
        analyses@.len() == tokens@.len(),
    ensures
        morphosyntactic_views(r@) == spec_preposition_government_relations(tokens@, analyses@, prepositions@),
{
    let mut names: Vec<String> = Vec::new();
    let mut i: usize = 0;
    while i < prepositions.len()
        invariant
            i <= prepositions@.len(),
            names@ == entry_names(prepositions@).take(i as int),
        decreases prepositions@.len() - i,
    {
        names.push(prepositions[i].preposition.clone());
        assert(names@ =~= entry_names(prepositions@).take(i as int + 1));
        i = i + 1;
    }
    assert(entry_names(prepositions@).take(prepositions@.len() as int) =~= entry_names(prepositions@));
    let gs = preposition_governed_nominal_group_candidates(tokens, names.as_slice(), 3);
    let ghost gv = governed_views(gs@);
    let mut out: Vec<MorphosyntacticRelation> = Vec::new();
    let mut k: usize = 0;
    while k < gs.len()
        invariant
            analyses@.len() == tokens@.len(),
            gv == governed_views(gs@),
            k <= gs@.len(),
            morphosyntactic_views(out@) == prep_relations(analyses@, prepositions@, gv, k as int),
        decreases gs@.len() - k,
    {
        let g = &gs[k];
        assert(gv[k as int] == g@);
        let ghost prev = morphosyntactic_views(out@);
        if group_roles_plausible(&g.group, analyses) && g.governor_token < analyses.len() {
            let key = lower_ru(g.governor.text.as_str());
            let allowed = allowed_cases(prepositions, key.as_str());
            let check = preposition_government_check(&allowed, analyses[g.group.end_token].as_slice());
            let rel = build_relation(
                analyses,
                MorphosyntacticRelationKind::PrepositionCaseGovernment,
                MorphosyntacticRole::CaseGovernor,
                g.governor_token,
                &g.governor,
                MorphosyntacticRole::GovernedNominal,
                g.group.end_token,
                &g.group.head,
                g.span,
                g.confidence,
                &g.blockers,
                MorphosyntacticConstraint::Government(check),
            );
            out.push(rel);
            assert(morphosyntactic_views(out@) =~= prev.push(rel@));
        }
        k = k + 1;
    }
    out
}

/// What tells two relations apart: their kind, the spans of their terms and
/// their own span.
pub open spec fn relation_key(r: MorphosyntacticRelationView) -> (
    MorphosyntacticRelationKind,
    usize,
    usize,
    usize,
    usize,
    usize,
    usize,
) {
    (r.kind, r.governor.span.start, r.governor.span.end, r.dependent.span.start, r.dependent.span.end, r.span.start, r.span.end)
}

/// Some relation among the first `n` of `s` has key `key`.
pub open spec fn relation_key_among(
    s: Seq<MorphosyntacticRelationView>,
    n: int,
    key: (MorphosyntacticRelationKind, usize, usize, usize, usize, usize, usize),
) -> bool {
    exists|j: int| 0 <= j < n && relation_key(#[trigger] s[j]) == key
}

/// The first `n` relations of `s`, each kept only where no earlier one has
/// its key.
pub open spec fn dedup_relation_views(s: Seq<MorphosyntacticRelationView>, n: int) -> Seq<MorphosyntacticRelationView>
    decreases n,
{
    if n <= 0 {
        Seq::empty()
    } else if relation_key_among(s, n - 1, relation_key(s[n - 1])) {
        dedup_relation_views(s, n - 1)
    } else {
        dedup_relation_views(s, n - 1).push(s[n - 1])
    }
}

pub proof fn lemma_dedup_relation_keys(s: Seq<MorphosyntacticRelationView>, n: int)
    requires
        0 <= n <= s.len(),
    ensures
        forall|key|
            #![trigger relation_key_among(dedup_relation_views(s, n), dedup_relation_views(s, n).len() as int, key)]
            #![trigger relation_key_among(s, n, key)]
            relation_key_among(dedup_relation_views(s, n), dedup_relation_views(s, n).len() as int, key)
                <==> relation_key_among(s, n, key),
    decreases n,
{
    if n > 0 {
        lemma_dedup_relation_keys(s, n - 1);
        let d = dedup_relation_views(s, n - 1);
        let dn = dedup_relation_views(s, n);
        assert forall|key| relation_key_among(dn, dn.len() as int, key) <==> relation_key_among(s, n, key) by {
            if relation_key_among(s, n, key) {
                let j = choose|j: int| 0 <= j < n && relation_key(#[trigger] s[j]) == key;
                if j < n - 1 {
                    assert(relation_key_among(s, n - 1, key));
                    let m = choose|m: int| 0 <= m < d.len() && relation_key(#[trigger] d[m]) == key;
                    assert(dn[m] == d[m]);
                } else if relation_key_among(s, n - 1, relation_key(s[n - 1])) {
                    let m = choose|m: int| 0 <= m < d.len() && relation_key(#[trigger] d[m]) == key;
                } else {
                    assert(dn[d.len() as int] == s[n - 1]);
                }
            }
            if relation_key_among(dn, dn.len() as int, key) {
                let m = choose|m: int| 0 <= m < dn.len() && relation_key(#[trigger] dn[m]) == key;
                if m < d.len() {
                    assert(dn[m] == d[m]);
                    assert(relation_key_among(d, d.len() as int, key));
                    let j = choose|j: int| 0 <= j < n - 1 && relation_key(#[trigger] s[j]) == key;
                    assert(relation_key(s[j]) == key);
                } else {
                    assert(relation_key(s[n - 1]) == key);
                }
            }
        }
    }
}

fn same_relation_key(a: &MorphosyntacticRelation, b: &MorphosyntacticRelation) -> (r: bool)
    ensures
        r == (relation_key(a@) == relation_key(b@)),
{
    a.kind == b.kind && a.governor.span.start == b.governor.span.start && a.governor.span.end == b.governor.span.end
        && a.dependent.span.start == b.dependent.span.start && a.dependent.span.end == b.dependent.span.end
        && a.span.start == b.span.start && a.span.end == b.span.end
}

/// Keeps each relation whose key no earlier relation has, in order.
fn dedup_relations(relations: Vec<MorphosyntacticRelation>) -> (r: Vec<MorphosyntacticRelation>)
    ensures
        morphosyntactic_views(r@) == dedup_relation_views(
            morphosyntactic_views(relations@),
            relations@.len() as int,
        ),
{
    let mut out: Vec<MorphosyntacticRelation> = Vec::new();
    let mut rest = relations;
    let ghost s0 = rest@;
    let ghost s = morphosyntactic_views(rest@);
    let n = rest.len();
    let mut i: usize = 0;
    while i < n
        invariant
            n == s0.len(),
            s == morphosyntactic_views(s0),
            i <= n,
            rest@ == s0.skip(i as int),
            morphosyntactic_views(out@) == dedup_relation_views(s, i as int),
        decreases n - i,
    {
        let e = rest.remove(0);
        assert(e == s0[i as int]);
        assert(rest@ =~= s0.skip(i as int + 1));
        proof {
            lemma_dedup_relation_keys(s, i as int);
        }
        let ghost ov = morphosyntactic_views(out@);
        let mut found = false;
        let mut m: usize = 0;
        while m < out.len()
            invariant
                m <= out@.len(),
                ov == morphosyntactic_views(out@),
                found == exists|q: int| 0 <= q < m && relation_key(#[trigger] ov[q]) == relation_key(e@),
            decreases out@.len() - m,
        {
            assert(ov[m as int] == out@[m as int]@);
            if same_relation_key(&out[m], &e) {
                found = true;
            }
            m = m + 1;
        }
        assert(found == relation_key_among(ov, ov.len() as int, relation_key(e@)));
        assert(s[i as int] == e@);
        if !found {
            out.push(e);
            assert(morphosyntactic_views(out@) =~= ov.push(e@));
        }
        i = i + 1;
    }
    out
}

/// All relations of the text, in the order attributive, subject-predicate,
/// preposition government and numeral government, before duplicates go.
pub open spec fn spec_all_relations(
    toks: Seq<Token>,
    rs: Seq<Vec<MorphAnalysis>>,
    entries: Seq<PrepositionGovernmentEntry>,
) -> Seq<MorphosyntacticRelationView> {
    spec_attributive_relations(toks, rs) + spec_subject_predicate_relations(toks, rs)
        + spec_preposition_government_relations(toks, rs, entries) + spec_numeral_government_relations(toks, rs)
}

/// The morphosyntactic relations of the text.
pub open spec fn spec_morphosyntax_relations(
    toks: Seq<Token>,
    rs: Seq<Vec<MorphAnalysis>>,
    entries: Seq<PrepositionGovernmentEntry>,
) -> Seq<MorphosyntacticRelationView> {
    dedup_relation_views(spec_all_relations(toks, rs, entries), spec_all_relations(toks, rs, entries).len() as int)
}

/// The attributive, subject-predicate, preposition government and numeral
/// government relations of the text, each once.
pub fn morphosyntax_relations(
    tokens: &[Token],
    analyses: &[Vec<MorphAnalysis>],
    prepositions: &[PrepositionGovernmentEntry],
) -> (r: Vec<MorphosyntacticRelation>)
    requires
        analyses@.len() == tokens@.len(),
    ensures
        morphosyntactic_views(r@) == spec_morphosyntax_relations(tokens@, analyses@, prepositions@),
{
    let mut all = attributive_relations(tokens, analyses);
    let mut b = subject_predicate_relations(tokens, analyses);
    let mut c = preposition_government_relations(tokens, analyses, prepositions);
    let mut d = numeral_government_relations(tokens, analyses);
    let ghost va = morphosyntactic_views(all@);
    let ghost vb = morphosyntactic_views(b@);
    let ghost vc = morphosyntactic_views(c@);
    let ghost vd = morphosyntactic_views(d@);
    all.append(&mut b);
    all.append(&mut c);
    all.append(&mut d);
    assert(morphosyntactic_views(all@) =~= va + vb + vc + vd);
    dedup_relations(all)
}

} // verus!
