use vstd::prelude::*;
use crate::text::Span;
use crate::readings::copy_analyses;
use crate::syntax::model::{spec_confidence_actionable, SyntaxConfidence};
use crate::syntax::diagnostics::{
    proof_confidence_of, reason_of_blocker, reasons_sorted_set, sort_dedup_reasons, DiagnosticConflict, DiagnosticFact,
    DiagnosticProof, DiagnosticProofKind, SuppressionReason,
};
use crate::syntax::punctuation::fact_is;
use crate::syntax::ambiguity::{spec_analyses_for, AmbiguityModel, TokenAmbiguity};
use crate::syntax::islands::{IslandView, SyntacticIslandMap};
use crate::syntax::nominal_groups::NominalGroupCandidate;
use crate::syntax::clause_candidates::ClauseCandidate;
use crate::syntax::government::{MorphCompatibility, MorphosyntacticTerm};
use crate::syntax::numeral_government::{constraint_compatibility, MorphosyntacticRelation, MorphosyntacticRelationKind};
use crate::syntax::agreement::{
    agreement_edge_from_clause, agreement_edges_from_nominal_group, edge_offsets, is_clause_edge, is_group_edge,
    roles_plausible, spec_link_blockers, boundary_blockers_for_link, AgreementCheck, AgreementGraphEdge,
    AgreementGraphEdgeKind, AgreementRelationKind,
};

verus! {

/// The edge kind a relation kind gives; none for preposition government.
pub open spec fn edge_kind_of(k: MorphosyntacticRelationKind) -> Option<AgreementGraphEdgeKind> {
    match k {
        MorphosyntacticRelationKind::AttributiveAgreement => Some(AgreementGraphEdgeKind::ModifierHead),
        MorphosyntacticRelationKind::SubjectPredicateAgreement => Some(AgreementGraphEdgeKind::SubjectPredicate),
        MorphosyntacticRelationKind::NumeralCaseNumberGovernment => Some(AgreementGraphEdgeKind::NumeralHead),
        MorphosyntacticRelationKind::PrepositionCaseGovernment => None,
    }
}

/// The agreement a relation kind checks.
pub open spec fn agreement_kind_of(k: MorphosyntacticRelationKind) -> AgreementRelationKind {
    match k {
        MorphosyntacticRelationKind::SubjectPredicateAgreement => AgreementRelationKind::SubjectPredicate,
        MorphosyntacticRelationKind::NumeralCaseNumberGovernment => AgreementRelationKind::NumeralNoun,
        _ => AgreementRelationKind::AdjectiveNoun,
    }
}

/// `e` is the edge of relation `rel`, with the link blockers between its
/// terms added to the relation's own.
pub open spec fn is_relation_edge(v: Seq<IslandView>, rel: MorphosyntacticRelation, e: AgreementGraphEdge) -> bool {
    &&& edge_kind_of(rel.kind) == Some(e.kind)
    &&& e.left.token_index == rel.governor_index && e.left.token == rel.governor
    &&& e.left.role == rel.governor_role && e.left.analyses@ == rel.governor_analyses@
    &&& e.right.token_index == rel.dependent_index && e.right.token == rel.dependent
    &&& e.right.role == rel.dependent_role && e.right.analyses@ == rel.dependent_analyses@
    &&& e.span == rel.span
    &&& e.constraint.relation == agreement_kind_of(rel.kind)
    &&& e.constraint.compatibility == constraint_compatibility(rel.constraint)
    &&& reasons_sorted_set(e.blockers@)
    &&& e.blockers@.to_set() == rel.blockers@.map_values(|b| reason_of_blocker(b)).to_set() + spec_link_blockers(
        v,
        rel.governor_index as int,
        rel.dependent_index as int,
    ).to_set()
    &&& e.confidence == if e.blockers@.len() > 0 && spec_confidence_actionable(rel.confidence) {
        SyntaxConfidence::Ambiguous
    } else {
        rel.confidence
    }
}

/// How many of the first `k` relations give an edge.
pub open spec fn relation_edge_count(rels: Seq<MorphosyntacticRelation>, k: int) -> int
    decreases k,
{
    if k <= 0 {
        0
    } else {
        relation_edge_count(rels, k - 1) + if edge_kind_of(rels[k - 1].kind) is Some { 1int } else { 0int }
    }
}

/// How many of the first `k` clauses have both a subject and a predicate.
pub open spec fn clause_edge_count(clauses: Seq<ClauseCandidate>, k: int) -> int
    decreases k,
{
    if k <= 0 {
        0
    } else {
        clause_edge_count(clauses, k - 1) + if clauses[k - 1].subject_candidate is Some
            && clauses[k - 1].predicate is Some { 1int } else { 0int }
    }
}

/// How many edges a nominal group gives.
pub open spec fn group_edge_len(g: NominalGroupCandidate, items: Seq<TokenAmbiguity>) -> int {
    if roles_plausible(g, items) && spec_analyses_for(items, g.end_token).len() > 0 {
        edge_offsets(g, items, g.modifiers@.len() as int).len() as int
    } else {
        0
    }
}

/// How many edges the first `k` nominal groups give.
pub open spec fn group_edge_total(groups: Seq<NominalGroupCandidate>, items: Seq<TokenAmbiguity>, k: int) -> int
    decreases k,
{
    if k <= 0 {
        0
    } else {
        group_edge_total(groups, items, k - 1) + group_edge_len(groups[k - 1], items)
    }
}

/// The edge of relation `i` stands where the relations' edges put it.
pub open spec fn relation_edge_at(
    rels: Seq<MorphosyntacticRelation>,
    v: Seq<IslandView>,
    pre: Seq<AgreementGraphEdge>,
    i: int,
) -> bool {
    edge_kind_of(rels[i].kind) is Some ==> is_relation_edge(v, rels[i], pre[relation_edge_count(rels, i)])
}

/// The edge of clause `j` stands after `base` edges, where the clauses'
/// edges put it.
pub open spec fn clause_edge_at(
    clauses: Seq<ClauseCandidate>,
    v: Seq<IslandView>,
    pre: Seq<AgreementGraphEdge>,
    base: int,
    j: int,
) -> bool {
    clauses[j].subject_candidate is Some && clauses[j].predicate is Some ==> is_clause_edge(
        v,
        clauses[j],
        pre[base + clause_edge_count(clauses, j)],
    )
}

/// Edge `k` of group `g` stands after `base` edges, where the groups'
/// edges put it.
pub open spec fn group_edge_at(
    groups: Seq<NominalGroupCandidate>,
    items: Seq<TokenAmbiguity>,
    v: Seq<IslandView>,
    pre: Seq<AgreementGraphEdge>,
    base: int,
    g: int,
    k: int,
) -> bool {
    is_group_edge(
        groups[g],
        items,
        v,
        edge_offsets(groups[g], items, groups[g].modifiers@.len() as int)[k],
        pre[base + group_edge_total(groups, items, g) + k],
    )
}

/// `pre` lists the edges of the relations, then of the clauses, then of the
/// nominal groups, each in input order.
pub open spec fn graph_candidates(
    rels: Seq<MorphosyntacticRelation>,
    clauses: Seq<ClauseCandidate>,
    groups: Seq<NominalGroupCandidate>,
    items: Seq<TokenAmbiguity>,
    v: Seq<IslandView>,
    pre: Seq<AgreementGraphEdge>,
) -> bool {
    let a = relation_edge_count(rels, rels.len() as int);
    let b = clause_edge_count(clauses, clauses.len() as int);
    &&& pre.len() == a + b + group_edge_total(groups, items, groups.len() as int)
    &&& forall|i: int| 0 <= i < rels.len() ==> #[trigger] relation_edge_at(rels, v, pre, i)
    &&& forall|j: int| 0 <= j < clauses.len() ==> #[trigger] clause_edge_at(clauses, v, pre, a, j)
    &&& forall|g: int, k: int|
        0 <= g < groups.len() && 0 <= k < group_edge_len(groups[g], items) ==> #[trigger] group_edge_at(
            groups,
            items,
            v,
            pre,
            a + b,
            g,
            k,
        )
}

/// What tells two edges apart: their kind, the spans of their terms and
/// their own span.
pub open spec fn edge_key(e: AgreementGraphEdge) -> (AgreementGraphEdgeKind, usize, usize, usize, usize, usize, usize) {
    (e.kind, e.left.token.span.start, e.left.token.span.end, e.right.token.span.start, e.right.token.span.end, e.span.start, e.span.end)
}

/// Some edge among the first `n` of `s` has key `key`.
pub open spec fn key_among(s: Seq<AgreementGraphEdge>, n: int, key: (AgreementGraphEdgeKind, usize, usize, usize, usize, usize, usize)) -> bool {
    exists|j: int| 0 <= j < n && edge_key(#[trigger] s[j]) == key
}

/// The first `n` edges of `s`, each kept only where no earlier one has its
/// key.
pub open spec fn dedup_edges(s: Seq<AgreementGraphEdge>, n: int) -> Seq<AgreementGraphEdge>
    decreases n,
{
    if n <= 0 {
        Seq::empty()
    } else if key_among(s, n - 1, edge_key(s[n - 1])) {
        dedup_edges(s, n - 1)
    } else {
        dedup_edges(s, n - 1).push(s[n - 1])
    }
}

pub proof fn lemma_dedup_keys(s: Seq<AgreementGraphEdge>, n: int)
    requires
        0 <= n <= s.len(),
    ensures
        forall|key|
            #![trigger key_among(dedup_edges(s, n), dedup_edges(s, n).len() as int, key)]
            #![trigger key_among(s, n, key)]
            key_among(dedup_edges(s, n), dedup_edges(s, n).len() as int, key) <==> key_among(s, n, key),
    decreases n,
{
    if n > 0 {
        lemma_dedup_keys(s, n - 1);
        let d = dedup_edges(s, n - 1);
        assert forall|key| key_among(dedup_edges(s, n), dedup_edges(s, n).len() as int, key) <==> key_among(
            s,
            n,
            key,
        ) by {
            if key_among(s, n, key) {
                let j = choose|j: int| 0 <= j < n && edge_key(#[trigger] s[j]) == key;
                if j < n - 1 {
                    assert(key_among(s, n - 1, key));
                    let m = choose|m: int| 0 <= m < d.len() && edge_key(#[trigger] d[m]) == key;
                    if !key_among(s, n - 1, edge_key(s[n - 1])) {
                        assert(dedup_edges(s, n)[m] == d[m]);
                    }
                } else if key_among(s, n - 1, edge_key(s[n - 1])) {
                    let m = choose|m: int| 0 <= m < d.len() && edge_key(#[trigger] d[m]) == key;
                } else {
                    assert(dedup_edges(s, n)[d.len() as int] == s[n - 1]);
                }
            }
            if key_among(dedup_edges(s, n), dedup_edges(s, n).len() as int, key) {
                let m = choose|m: int|
                    0 <= m < dedup_edges(s, n).len() && edge_key(#[trigger] dedup_edges(s, n)[m]) == key;
                if m < d.len() {
                    assert(dedup_edges(s, n)[m] == d[m]);
                    assert(key_among(d, d.len() as int, key));
                    let j = choose|j: int| 0 <= j < n - 1 && edge_key(#[trigger] s[j]) == key;
                    assert(edge_key(s[j]) == key);
                } else {
                    assert(edge_key(s[n - 1]) == key);
                }
            }
        }
    }
}

fn same_key(a: &AgreementGraphEdge, b: &AgreementGraphEdge) -> (r: bool)
    ensures
        r == (edge_key(*a) == edge_key(*b)),
{
    a.kind == b.kind && a.left.token.span.start == b.left.token.span.start && a.left.token.span.end
        == b.left.token.span.end && a.right.token.span.start == b.right.token.span.start
        && a.right.token.span.end == b.right.token.span.end && a.span.start == b.span.start && a.span.end
        == b.span.end
}

/// Keeps each edge whose key no earlier edge has, in order.
fn dedup_agreement_edges(edges: Vec<AgreementGraphEdge>) -> (r: Vec<AgreementGraphEdge>)
    ensures
        r@ == dedup_edges(edges@, edges@.len() as int),
{
    let mut out: Vec<AgreementGraphEdge> = Vec::new();
    let mut rest = edges;
    let ghost s = rest@;
    let mut i: usize = 0;
    let n = rest.len();
    while i < n
        invariant
            n == s.len(),
            i <= n,
            rest@ == s.skip(i as int),
            out@ == dedup_edges(s, i as int),
        decreases n - i,
    {
        let e = rest.remove(0);
        assert(e == s[i as int]);
        assert(rest@ =~= s.skip(i as int + 1));
        proof {
            lemma_dedup_keys(s, i as int);
        }
        let mut found = false;
        let mut m: usize = 0;
        while m < out.len()
            invariant
                m <= out@.len(),
                found == exists|q: int| 0 <= q < m && edge_key(#[trigger] out@[q]) == edge_key(e),
            decreases out@.len() - m,
        {
            if same_key(&out[m], &e) {
                found = true;
            }
            m = m + 1;
        }
        assert(found == key_among(out@, out@.len() as int, edge_key(e)));
        if !found {
            out.push(e);
        }
        i = i + 1;
    }
    out
}

/// The agreement constraints of a document as a graph over its tokens.
#[derive(Debug, Clone, PartialEq, Eq)]
pub struct AgreementGraph {
    edges: Vec<AgreementGraphEdge>,
}

/// `e` is a conflict: a trusted edge with nothing blocking it whose
/// readings cannot agree.
pub open spec fn edge_is_conflict(e: AgreementGraphEdge) -> bool {
    spec_confidence_actionable(e.confidence) && e.blockers@.len() == 0 && e.constraint.compatibility
        == MorphCompatibility::Incompatible
}

/// `e` has token `t` at one of its ends.
pub open spec fn edge_touches(e: AgreementGraphEdge, t: usize) -> bool {
    e.left.token_index == t || e.right.token_index == t
}

/// The conflicting edges of `s`, in order.
pub open spec fn conflict_edges(s: Seq<AgreementGraphEdge>) -> Seq<AgreementGraphEdge>
    decreases s.len(),
{
    if s.len() == 0 {
        s
    } else if edge_is_conflict(s.last()) {
        conflict_edges(s.drop_last()).push(s.last())
    } else {
        conflict_edges(s.drop_last())
    }
}

/// The edges of `s` with token `t` at one end, in order.
pub open spec fn touching_edges(s: Seq<AgreementGraphEdge>, t: usize) -> Seq<AgreementGraphEdge>
    decreases s.len(),
{
    if s.len() == 0 {
        s
    } else if edge_touches(s.last(), t) {
        touching_edges(s.drop_last(), t).push(s.last())
    } else {
        touching_edges(s.drop_last(), t)
    }
}

/// The conflicting edges of `s` of kind `kind`, in order.
pub open spec fn conflict_edges_of_kind(s: Seq<AgreementGraphEdge>, kind: AgreementGraphEdgeKind) -> Seq<AgreementGraphEdge>
    decreases s.len(),
{
    if s.len() == 0 {
        s
    } else if edge_is_conflict(s.last()) && s.last().kind == kind {
        conflict_edges_of_kind(s.drop_last(), kind).push(s.last())
    } else {
        conflict_edges_of_kind(s.drop_last(), kind)
    }
}

impl AgreementGraph {
    /// The graph's edges.
    pub closed spec fn edge_list(&self) -> Seq<AgreementGraphEdge> {
        self.edges@
    }

    /// The edges of the morphosyntactic relations, then those of the
    /// clauses' subjects and predicates, then those of the nominal groups'
    /// modifiers and heads, each carrying the link blockers between its
    /// terms; an edge whose key an earlier one has is dropped.
    pub fn from_facts(
        relations: &[MorphosyntacticRelation],
        clauses: &[ClauseCandidate],
        nominal_groups: &[NominalGroupCandidate],
        ambiguity: &AmbiguityModel,
        islands: &SyntacticIslandMap,
    ) -> (r: Self)
        requires
            forall|g: int|
                0 <= g < nominal_groups@.len() ==> #[trigger] nominal_groups@[g].start_token + 2
                    * nominal_groups@[g].modifiers@.len() <= usize::MAX,
        ensures
            exists|pre: Seq<AgreementGraphEdge>|
                graph_candidates(relations@, clauses@, nominal_groups@, ambiguity.items(), islands.islands_view(), pre)
                    && r.edge_list() == dedup_edges(pre, pre.len() as int),
    {
        let ghost rels = relations@;
        let ghost cls = clauses@;
        let ghost groups = nominal_groups@;
        let ghost items = ambiguity.items();
        let ghost v = islands.islands_view();
        let mut pre: Vec<AgreementGraphEdge> = Vec::new();
        let mut i: usize = 0;
        while i < relations.len()
            invariant
                rels == relations@,
                v == islands.islands_view(),
                i <= rels.len(),
                pre@.len() == relation_edge_count(rels, i as int),
                forall|q: int| 0 <= q < i ==> #[trigger] relation_edge_at(rels, v, pre@, q),
            decreases rels.len() - i,
        {
            let ghost before = pre@;
            match relation_edge(&relations[i], islands) {
                Some(e) => {
                    pre.push(e);
                },
                None => {},
            }
            proof {
                assert(pre@.subrange(0, before.len() as int) =~= before);
                lemma_relation_count_mono(rels, i as int);
                lemma_relation_edges_kept(rels, v, before, pre@, i as int);
                assert(relation_edge_at(rels, v, pre@, i as int));
            }
            i = i + 1;
        }
        let ghost a = pre@.len() as int;
        let mut j: usize = 0;
        while j < clauses.len()
            invariant
                rels == relations@,
                cls == clauses@,
                v == islands.islands_view(),
                a == relation_edge_count(rels, rels.len() as int),
                0 <= a,
                j <= cls.len(),
                pre@.len() == a + clause_edge_count(cls, j as int),
                forall|q: int| 0 <= q < rels.len() ==> #[trigger] relation_edge_at(rels, v, pre@, q),
                forall|q: int| 0 <= q < j ==> #[trigger] clause_edge_at(cls, v, pre@, a, q),
            decreases cls.len() - j,
        {
            let ghost before = pre@;
            match agreement_edge_from_clause(&clauses[j], islands) {
                Some(e) => {
                    pre.push(e);
                },
                None => {},
            }
            proof {
                assert(pre@.subrange(0, before.len() as int) =~= before);
                lemma_clause_count_le(cls, j as int, j as int);
                lemma_relation_edges_kept(rels, v, before, pre@, rels.len() as int);
                lemma_clause_edges_kept(cls, v, before, pre@, a, j as int);
                assert(clause_edge_at(cls, v, pre@, a, j as int));
            }
            j = j + 1;
        }
        let ghost b = pre@.len() as int - a;
        proof {
            lemma_clause_count_le(cls, cls.len() as int, cls.len() as int);
        }
        let mut g: usize = 0;
        while g < nominal_groups.len()
            invariant
                rels == relations@,
                cls == clauses@,
                groups == nominal_groups@,
                items == ambiguity.items(),
                v == islands.islands_view(),
                a == relation_edge_count(rels, rels.len() as int),
                b == clause_edge_count(cls, cls.len() as int),
                0 <= a,
                0 <= b,
                g <= groups.len(),
                forall|q: int|
                    0 <= q < groups.len() ==> #[trigger] groups[q].start_token + 2 * groups[q].modifiers@.len()
                        <= usize::MAX,
                pre@.len() == a + b + group_edge_total(groups, items, g as int),
                forall|q: int| 0 <= q < rels.len() ==> #[trigger] relation_edge_at(rels, v, pre@, q),
                forall|q: int| 0 <= q < cls.len() ==> #[trigger] clause_edge_at(cls, v, pre@, a, q),
                forall|q: int, k: int|
                    0 <= q < g && 0 <= k < group_edge_len(groups[q], items) ==> #[trigger] group_edge_at(
                        groups,
                        items,
                        v,
                        pre@,
                        a + b,
                        q,
                        k,
                    ),
            decreases groups.len() - g,
        {
            let ghost before = pre@;
            assert(groups[g as int].start_token + 2 * groups[g as int].modifiers@.len() <= usize::MAX);
            let mut es = agreement_edges_from_nominal_group(&nominal_groups[g], ambiguity, islands);
            let ghost added = es@;
            pre.append(&mut es);
            proof {
                assert(pre@.subrange(0, before.len() as int) =~= before);
                lemma_group_total_mono(groups, items, g as int);
                lemma_group_total_le(groups, items, g as int, g as int);
                lemma_clause_count_le(cls, cls.len() as int, cls.len() as int);
                assert(added.len() == group_edge_len(groups[g as int], items));
                lemma_relation_edges_kept(rels, v, before, pre@, rels.len() as int);
                lemma_clause_edges_kept(cls, v, before, pre@, a, cls.len() as int);
                lemma_group_edges_kept(groups, items, v, before, pre@, a + b, g as int);
                assert forall|k: int| 0 <= k < group_edge_len(groups[g as int], items) implies #[trigger] group_edge_at(
                    groups,
                    items,
                    v,
                    pre@,
                    a + b,
                    g as int,
                    k,
                ) by {
                    let at = a + b + group_edge_total(groups, items, g as int) + k;
                    assert(pre@[at] == added[k]);
                }
                assert forall|q: int, k: int|
                    0 <= q < g + 1 && 0 <= k < group_edge_len(groups[q], items) implies #[trigger] group_edge_at(
                    groups,
                    items,
                    v,
                    pre@,
                    a + b,
                    q,
                    k,
                ) by {
                    if q == g {
                        assert(group_edge_at(groups, items, v, pre@, a + b, g as int, k));
                    }
                }
            }
            g = g + 1;
        }
        let ghost cand = pre@;
        let edges = dedup_agreement_edges(pre);
        proof {
            assert(graph_candidates(rels, cls, groups, items, v, cand));
        }
        AgreementGraph { edges }
    }

    /// The graph's edges.
    pub fn edges(&self) -> (r: &Vec<AgreementGraphEdge>)
        ensures
            r@ == self.edge_list(),
    {
        &self.edges
    }

    /// The conflicting edges, in order.
    pub fn conflicts(&self) -> (r: Vec<&AgreementGraphEdge>)
        ensures
            r@.len() == conflict_edges(self.edge_list()).len(),
            forall|k: int| 0 <= k < r@.len() ==> *r@[k] == #[trigger] conflict_edges(self.edge_list())[k],
    {
        let mut out: Vec<&AgreementGraphEdge> = Vec::new();
        let mut i: usize = 0;
        while i < self.edges.len()
            invariant
                i <= self.edges@.len(),
                out@.len() == conflict_edges(self.edges@.take(i as int)).len(),
                forall|k: int| 0 <= k < out@.len() ==> *out@[k] == conflict_edges(self.edges@.take(i as int))[k],
            decreases self.edges@.len() - i,
        {
            let e = &self.edges[i];
            assert(self.edges@.take(i as int + 1).drop_last() =~= self.edges@.take(i as int));
            if e.is_conflict() {
                out.push(e);
            }
            i = i + 1;
        }
        assert(self.edges@.take(self.edges@.len() as int) =~= self.edges@);
        out
    }

    /// The edges with token `token_index` at one end, in order.
    pub fn edges_for_token(&self, token_index: usize) -> (r: Vec<&AgreementGraphEdge>)
        ensures
            r@.len() == touching_edges(self.edge_list(), token_index).len(),
            forall|k: int|
                0 <= k < r@.len() ==> *r@[k] == #[trigger] touching_edges(self.edge_list(), token_index)[k],
    {
        let mut out: Vec<&AgreementGraphEdge> = Vec::new();
        let mut i: usize = 0;
        while i < self.edges.len()
            invariant
                i <= self.edges@.len(),
                out@.len() == touching_edges(self.edges@.take(i as int), token_index).len(),
                forall|k: int|
                    0 <= k < out@.len() ==> *out@[k] == touching_edges(self.edges@.take(i as int), token_index)[k],
            decreases self.edges@.len() - i,
        {
            let e = &self.edges[i];
            assert(self.edges@.take(i as int + 1).drop_last() =~= self.edges@.take(i as int));
            if e.left.token_index == token_index || e.right.token_index == token_index {
                out.push(e);
            }
            i = i + 1;
        }
        assert(self.edges@.take(self.edges@.len() as int) =~= self.edges@);
        out
    }

    /// The conflicting edges of kind `kind`, in order.
    pub fn conflicts_by_kind(&self, kind: AgreementGraphEdgeKind) -> (r: Vec<&AgreementGraphEdge>)
        ensures
            r@.len() == conflict_edges_of_kind(self.edge_list(), kind).len(),
            forall|k: int|
                0 <= k < r@.len() ==> *r@[k] == #[trigger] conflict_edges_of_kind(self.edge_list(), kind)[k],
    {
        let mut out: Vec<&AgreementGraphEdge> = Vec::new();
        let mut i: usize = 0;
        while i < self.edges.len()
            invariant
                i <= self.edges@.len(),
                out@.len() == conflict_edges_of_kind(self.edges@.take(i as int), kind).len(),
                forall|k: int|
                    0 <= k < out@.len() ==> *out@[k] == conflict_edges_of_kind(self.edges@.take(i as int), kind)[k],
            decreases self.edges@.len() - i,
        {
            let e = &self.edges[i];
            assert(self.edges@.take(i as int + 1).drop_last() =~= self.edges@.take(i as int));
            if e.is_conflict() && e.kind == kind {
                out.push(e);
            }
            i = i + 1;
        }
        assert(self.edges@.take(self.edges@.len() as int) =~= self.edges@);
        out
    }
}

/// The name of an edge kind.
pub open spec fn edge_kind_name(k: AgreementGraphEdgeKind) -> Seq<char> {
    match k {
        AgreementGraphEdgeKind::ModifierHead => "ModifierHead"@,
        AgreementGraphEdgeKind::SubjectPredicate => "SubjectPredicate"@,
        AgreementGraphEdgeKind::NumeralHead => "NumeralHead"@,
        AgreementGraphEdgeKind::Apposition => "Apposition"@,
        AgreementGraphEdgeKind::Unknown => "Unknown"@,
    }
}

fn edge_kind_str(k: AgreementGraphEdgeKind) -> (r: &'static str)
    ensures
        r@ == edge_kind_name(k),
{
    match k {
        AgreementGraphEdgeKind::ModifierHead => "ModifierHead",
        AgreementGraphEdgeKind::SubjectPredicate => "SubjectPredicate",
        AgreementGraphEdgeKind::NumeralHead => "NumeralHead",
        AgreementGraphEdgeKind::Apposition => "Apposition",
        AgreementGraphEdgeKind::Unknown => "Unknown",
    }
}

/// The name of an agreement kind.
pub open spec fn agreement_kind_name(k: AgreementRelationKind) -> Seq<char> {
    match k {
        AgreementRelationKind::AdjectiveNoun => "AdjectiveNoun"@,
        AgreementRelationKind::SubjectPredicate => "SubjectPredicate"@,
        AgreementRelationKind::NumeralNoun => "NumeralNoun"@,
    }
}

fn agreement_kind_str(k: AgreementRelationKind) -> (r: &'static str)
    ensures
        r@ == agreement_kind_name(k),
{
    match k {
        AgreementRelationKind::AdjectiveNoun => "AdjectiveNoun",
        AgreementRelationKind::SubjectPredicate => "SubjectPredicate",
        AgreementRelationKind::NumeralNoun => "NumeralNoun",
    }
}

/// What `agreement_edge_proof` gives.
pub open spec fn is_agreement_edge_proof(edge: AgreementGraphEdge, r: DiagnosticProof) -> bool {
    &&& r.kind == if edge.kind == AgreementGraphEdgeKind::NumeralHead {
                DiagnosticProofKind::QuantityConflict
            } else {
                DiagnosticProofKind::AgreementConflict
            }
    &&& r.confidence == proof_confidence_of(edge.confidence)
    &&& r.assumptions@.len() == 0
    &&& r.suppressed_alternatives@.len() == 0
    &&& r.facts@.len() == 3
    &&& fact_is(r.facts@[0], "left_token"@, edge.left.token.text@, Some(edge.left.token.span))
    &&& fact_is(r.facts@[1], "right_token"@, edge.right.token.text@, Some(edge.right.token.span))
    &&& fact_is(r.facts@[2], "edge_kind"@, edge_kind_name(edge.kind), Some(edge.span))
    &&& reasons_sorted_set(r.blockers@)
    &&& r.blockers@.to_set() == edge.blockers@.to_set()
    &&& (r.conflict is Some) == (edge.constraint.compatibility == MorphCompatibility::Incompatible)
    &&& r.conflict matches Some(c) ==> c.kind@ == agreement_kind_name(edge.constraint.relation) && c.span == edge.span
                && c.expected@.len() == 0 && c.observed@.len() == 0
}

/// The machine-readable proof of an agreement edge: its two tokens and its
/// kind as facts, its blockers, and a conflict of the edge's agreement kind
/// exactly when its readings cannot agree.
pub fn agreement_edge_proof(edge: &AgreementGraphEdge) -> (r: DiagnosticProof)
    ensures
        is_agreement_edge_proof(*edge, r),
{
    let kind = if edge.kind == AgreementGraphEdgeKind::NumeralHead {
        DiagnosticProofKind::QuantityConflict
    } else {
        DiagnosticProofKind::AgreementConflict
    };
    let mut proof = DiagnosticProof::new(kind, edge.confidence)
        .with_fact(DiagnosticFact::new("left_token", edge.left.token.text.as_str(), Some(edge.left.token.span)))
        .with_fact(DiagnosticFact::new("right_token", edge.right.token.text.as_str(), Some(edge.right.token.span)))
        .with_fact(DiagnosticFact::new("edge_kind", edge_kind_str(edge.kind), Some(edge.span)));
    if edge.constraint.is_confident_rejection() {
        proof = proof.with_conflict(DiagnosticConflict {
            kind: agreement_kind_str(edge.constraint.relation).to_owned(),
            expected: Vec::new(),
            observed: Vec::new(),
            span: edge.span,
        });
    }
    let blockers = crate::syntax::agreement::copy_reasons(&edge.blockers);
    let ghost before = proof.blockers@;
    let r = proof.with_blockers(blockers);
    assert(before.to_set().union(edge.blockers@.to_set()) =~= edge.blockers@.to_set());
    r
}

proof fn lemma_relation_edges_kept(
    rels: Seq<MorphosyntacticRelation>,
    v: Seq<IslandView>,
    before: Seq<AgreementGraphEdge>,
    after: Seq<AgreementGraphEdge>,
    upto: int,
)
    requires
        0 <= upto <= rels.len(),
        before.len() >= relation_edge_count(rels, upto),
        after.len() >= before.len(),
        after.subrange(0, before.len() as int) == before,
        forall|q: int| 0 <= q < upto ==> #[trigger] relation_edge_at(rels, v, before, q),
    ensures
        forall|q: int| 0 <= q < upto ==> #[trigger] relation_edge_at(rels, v, after, q),
{
    assert forall|q: int| 0 <= q < upto implies #[trigger] relation_edge_at(rels, v, after, q) by {
        assert(relation_edge_at(rels, v, before, q));
        if edge_kind_of(rels[q].kind) is Some {
            lemma_relation_count_le(rels, q + 1, upto);
            assert(relation_edge_count(rels, q + 1) == relation_edge_count(rels, q) + 1);
            lemma_relation_count_le(rels, q, upto);
            let x = relation_edge_count(rels, q);
            assert(after.subrange(0, before.len() as int)[x] == after[x]);
        }
    }
}

proof fn lemma_clause_edges_kept(
    cls: Seq<ClauseCandidate>,
    v: Seq<IslandView>,
    before: Seq<AgreementGraphEdge>,
    after: Seq<AgreementGraphEdge>,
    base: int,
    upto: int,
)
    requires
        0 <= upto <= cls.len(),
        0 <= base,
        before.len() >= base + clause_edge_count(cls, upto),
        after.len() >= before.len(),
        after.subrange(0, before.len() as int) == before,
        forall|q: int| 0 <= q < upto ==> #[trigger] clause_edge_at(cls, v, before, base, q),
    ensures
        forall|q: int| 0 <= q < upto ==> #[trigger] clause_edge_at(cls, v, after, base, q),
{
    assert forall|q: int| 0 <= q < upto implies #[trigger] clause_edge_at(cls, v, after, base, q) by {
        assert(clause_edge_at(cls, v, before, base, q));
        if cls[q].subject_candidate is Some && cls[q].predicate is Some {
            lemma_clause_count_le(cls, q + 1, upto);
            assert(clause_edge_count(cls, q + 1) == clause_edge_count(cls, q) + 1);
            lemma_clause_count_le(cls, q, upto);
            let x = base + clause_edge_count(cls, q);
            assert(after.subrange(0, before.len() as int)[x] == after[x]);
        }
    }
}

proof fn lemma_group_edges_kept(
    groups: Seq<NominalGroupCandidate>,
    items: Seq<TokenAmbiguity>,
    v: Seq<IslandView>,
    before: Seq<AgreementGraphEdge>,
    after: Seq<AgreementGraphEdge>,
    base: int,
    upto: int,
)
    requires
        0 <= upto <= groups.len(),
        0 <= base,
        before.len() >= base + group_edge_total(groups, items, upto),
        after.len() >= before.len(),
        after.subrange(0, before.len() as int) == before,
        forall|q: int, k: int|
            0 <= q < upto && 0 <= k < group_edge_len(groups[q], items) ==> #[trigger] group_edge_at(
                groups,
                items,
                v,
                before,
                base,
                q,
                k,
            ),
    ensures
        forall|q: int, k: int|
            0 <= q < upto && 0 <= k < group_edge_len(groups[q], items) ==> #[trigger] group_edge_at(
                groups,
                items,
                v,
                after,
                base,
                q,
                k,
            ),
{
    assert forall|q: int, k: int|
        0 <= q < upto && 0 <= k < group_edge_len(groups[q], items) implies #[trigger] group_edge_at(
        groups,
        items,
        v,
        after,
        base,
        q,
        k,
    ) by {
        assert(group_edge_at(groups, items, v, before, base, q, k));
        lemma_group_total_le(groups, items, q + 1, upto);
        lemma_group_total_mono(groups, items, q);
        lemma_group_total_le(groups, items, q, upto);
        let x = base + group_edge_total(groups, items, q) + k;
        assert(after.subrange(0, before.len() as int)[x] == after[x]);
    }
}

proof fn lemma_relation_count_mono(rels: Seq<MorphosyntacticRelation>, i: int)
    requires
        0 <= i,
    ensures
        relation_edge_count(rels, i) <= relation_edge_count(rels, i + 1),
{
}

proof fn lemma_relation_count_le(rels: Seq<MorphosyntacticRelation>, i: int, j: int)
    requires
        0 <= i <= j,
    ensures
        0 <= relation_edge_count(rels, i) <= relation_edge_count(rels, j),
    decreases j,
{
    if i < j {
        lemma_relation_count_le(rels, i, j - 1);
    } else if i > 0 {
        lemma_relation_count_le(rels, i - 1, i - 1);
    }
}

proof fn lemma_clause_count_le(cls: Seq<ClauseCandidate>, i: int, j: int)
    requires
        0 <= i <= j,
    ensures
        0 <= clause_edge_count(cls, i) <= clause_edge_count(cls, j),
    decreases j,
{
    if i < j {
        lemma_clause_count_le(cls, i, j - 1);
    } else if i > 0 {
        lemma_clause_count_le(cls, i - 1, i - 1);
    }
}

proof fn lemma_group_total_mono(groups: Seq<NominalGroupCandidate>, items: Seq<TokenAmbiguity>, g: int)
    requires
        0 <= g,
    ensures
        group_edge_total(groups, items, g + 1) == group_edge_total(groups, items, g) + group_edge_len(
            groups[g],
            items,
        ),
        group_edge_len(groups[g], items) >= 0,
{
}

proof fn lemma_group_total_le(groups: Seq<NominalGroupCandidate>, items: Seq<TokenAmbiguity>, i: int, j: int)
    requires
        0 <= i <= j,
    ensures
        0 <= group_edge_total(groups, items, i) <= group_edge_total(groups, items, j),
    decreases j,
{
    if i < j {
        lemma_group_total_le(groups, items, i, j - 1);
    } else if i > 0 {
        lemma_group_total_le(groups, items, i - 1, i - 1);
    }
}

/// The edge of a relation that states an agreement, with the link blockers
/// between its terms; none for preposition government.
pub fn relation_edge(relation: &MorphosyntacticRelation, islands: &SyntacticIslandMap) -> (r: Option<AgreementGraphEdge>)
    ensures
        (edge_kind_of(relation.kind) is Some) == (r is Some),
        r matches Some(e) ==> is_relation_edge(islands.islands_view(), *relation, e),
{
    let (kind, relation_kind) = match relation.kind {
        MorphosyntacticRelationKind::AttributiveAgreement => (
            AgreementGraphEdgeKind::ModifierHead,
            AgreementRelationKind::AdjectiveNoun,
        ),
        MorphosyntacticRelationKind::SubjectPredicateAgreement => (
            AgreementGraphEdgeKind::SubjectPredicate,
            AgreementRelationKind::SubjectPredicate,
        ),
        MorphosyntacticRelationKind::NumeralCaseNumberGovernment => (
            AgreementGraphEdgeKind::NumeralHead,
            AgreementRelationKind::NumeralNoun,
        ),
        MorphosyntacticRelationKind::PrepositionCaseGovernment => {
            return None;
        },
    };
    let mut raw: Vec<SuppressionReason> = Vec::new();
    let mut b: usize = 0;
    while b < relation.blockers.len()
        invariant
            b <= relation.blockers@.len(),
            raw@ == relation.blockers@.take(b as int).map_values(|x| reason_of_blocker(x)),
        decreases relation.blockers@.len() - b,
    {
        raw.push(SuppressionReason::from(relation.blockers[b]));
        assert(raw@ =~= relation.blockers@.take(b as int + 1).map_values(|x| reason_of_blocker(x)));
        b = b + 1;
    }
    assert(relation.blockers@.take(relation.blockers@.len() as int) =~= relation.blockers@);
    let mut link = boundary_blockers_for_link(relation.governor_index, relation.dependent_index, islands);
    let ghost x = raw@;
    let ghost l = link@;
    raw.append(&mut link);
    proof {
        assert forall|y| (x + l).contains(y) <==> x.contains(y) || l.contains(y) by {
            if (x + l).contains(y) {
                let k = choose|k: int| 0 <= k < (x + l).len() && (x + l)[k] == y;
                if k >= x.len() {
                    assert(l[k - x.len()] == y);
                }
            }
            if l.contains(y) {
                let k = choose|k: int| 0 <= k < l.len() && l[k] == y;
                assert((x + l)[x.len() + k] == y);
            }
            if x.contains(y) {
                let k = choose|k: int| 0 <= k < x.len() && x[k] == y;
                assert((x + l)[k] == y);
            }
        }
        assert(raw@.to_set() =~= x.to_set() + l.to_set());
    }
    let blockers = sort_dedup_reasons(raw);
    let confidence = if blockers.len() > 0 && relation.confidence.is_actionable() {
        SyntaxConfidence::Ambiguous
    } else {
        relation.confidence
    };
    Some(
        AgreementGraphEdge {
            kind,
            left: MorphosyntacticTerm {
                token_index: relation.governor_index,
                token: relation.governor.duplicate(),
                role: relation.governor_role,
                analyses: copy_analyses(relation.governor_analyses.as_slice()),
            },
            right: MorphosyntacticTerm {
                token_index: relation.dependent_index,
                token: relation.dependent.duplicate(),
                role: relation.dependent_role,
                analyses: copy_analyses(relation.dependent_analyses.as_slice()),
            },
            span: Span::new(relation.span.start, relation.span.end),
            constraint: AgreementCheck { relation: relation_kind, compatibility: relation.constraint.compatibility() },
            confidence,
            blockers,
        },
    )
}

} // verus!
