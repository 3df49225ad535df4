use vstd::prelude::*;
use crate::text::{Span, Token, TokenKind};
use crate::readings::{copy_analyses, AdjectiveForm, Case, MorphAnalysis, PartOfSpeech, VerbForm};
use crate::syntax::model::SyntaxConfidence;
use crate::syntax::diagnostics::{reasons_sorted_set, sort_dedup_reasons, SuppressionReason};
use crate::syntax::ambiguity::{
    ambiguity_safe, item_for, spec_analyses_for, AmbiguityModel, TokenAmbiguity,
};
use crate::syntax::islands::{island_views, IslandView, SyntacticIsland, SyntacticIslandMap};

verus! {

broadcast use vstd::seq_lib::group_seq_properties;

#[derive(Debug, Clone, Copy, PartialEq, Eq, Structural, PartialOrd, Ord, Hash)]
pub enum ClauseTermRole {
    SubjectCandidate,
    Predicate,
}

/// A token that plays a role in a clause, with its readings.
#[derive(Debug, Clone, PartialEq, Eq)]
pub struct ClauseTerm {
    pub token_index: usize,
    pub token: Token,
    pub role: ClauseTermRole,
    pub analyses: Vec<MorphAnalysis>,
}

/// The clause of one island: its predicate, the subject candidate before
/// it, and what keeps it from being trusted.
#[derive(Debug, Clone, PartialEq, Eq)]
pub struct ClauseCandidate {
    pub id: usize,
    pub span: Span,
    pub start_token: Option<usize>,
    pub end_token: Option<usize>,
    pub island_id: Option<usize>,
    pub predicate: Option<ClauseTerm>,
    pub subject_candidate: Option<ClauseTerm>,
    pub confidence: SyntaxConfidence,
    pub blockers: Vec<SuppressionReason>,
}

impl ClauseCandidate {
    pub fn is_actionable(&self) -> (r: bool)
        ensures
            r == ((self.confidence == SyntaxConfidence::Certain || self.confidence == SyntaxConfidence::Strong)
                && self.blockers@.len() == 0),
    {
        self.confidence.is_actionable() && self.blockers.len() == 0
    }
}

/// A finite verb, a predicative or a short adjective.
pub open spec fn is_predicate_reading(a: MorphAnalysis) -> bool {
    match a.pos {
        PartOfSpeech::Verb => a.features.verb_form != Some(VerbForm::Infinitive),
        PartOfSpeech::Predicative => true,
        PartOfSpeech::Adjective => a.features.adjective_form == Some(AdjectiveForm::Short),
        _ => false,
    }
}

/// A noun or pronoun that is not in an oblique case.
pub open spec fn is_subject_reading(a: MorphAnalysis) -> bool {
    (a.pos == PartOfSpeech::Noun || a.pos == PartOfSpeech::Pronoun) && match a.features.case {
        Some(c) => c == Case::Nominative,
        None => true,
    }
}

pub open spec fn has_predicate_reading(v: Seq<MorphAnalysis>) -> bool {
    exists|i: int| 0 <= i < v.len() && is_predicate_reading(#[trigger] v[i])
}

pub open spec fn has_subject_reading(v: Seq<MorphAnalysis>) -> bool {
    exists|i: int| 0 <= i < v.len() && is_subject_reading(#[trigger] v[i])
}

fn predicate_reading(a: &MorphAnalysis) -> (r: bool)
    ensures
        r == is_predicate_reading(*a),
{
    match a.pos {
        PartOfSpeech::Verb => !matches!(a.features.verb_form, Some(VerbForm::Infinitive)),
        PartOfSpeech::Predicative => true,
        PartOfSpeech::Adjective => matches!(a.features.adjective_form, Some(AdjectiveForm::Short)),
        _ => false,
    }
}

fn subject_reading(a: &MorphAnalysis) -> (r: bool)
    ensures
        r == is_subject_reading(*a),
{
    (a.pos == PartOfSpeech::Noun || a.pos == PartOfSpeech::Pronoun) && match a.features.case {
        Some(c) => c == Case::Nominative,
        None => true,
    }
}

fn any_predicate_reading(v: &[MorphAnalysis]) -> (r: bool)
    ensures
        r == has_predicate_reading(v@),
{
    let mut i: usize = 0;
    while i < v.len()
        invariant
            i <= v@.len(),
            forall|j: int| 0 <= j < i ==> !is_predicate_reading(#[trigger] v@[j]),
        decreases v@.len() - i,
    {
        if predicate_reading(&v[i]) {
            return true;
        }
        i = i + 1;
    }
    false
}

fn any_subject_reading(v: &[MorphAnalysis]) -> (r: bool)
    ensures
        r == has_subject_reading(v@),
{
    let mut i: usize = 0;
    while i < v.len()
        invariant
            i <= v@.len(),
            forall|j: int| 0 <= j < i ==> !is_subject_reading(#[trigger] v@[j]),
        decreases v@.len() - i,
    {
        if subject_reading(&v[i]) {
            return true;
        }
        i = i + 1;
    }
    false
}

/// A word token that has a predicate reading.
pub open spec fn predicate_at(toks: Seq<Token>, items: Seq<TokenAmbiguity>, i: int) -> bool {
    0 <= i < toks.len() && toks[i].kind == TokenKind::Word && has_predicate_reading(spec_analyses_for(items, i as usize))
}

/// A word token that has a subject reading.
pub open spec fn subject_at(toks: Seq<Token>, items: Seq<TokenAmbiguity>, i: int) -> bool {
    0 <= i < toks.len() && toks[i].kind == TokenKind::Word && has_subject_reading(spec_analyses_for(items, i as usize))
}

/// The first predicate among tokens `i..=hi`.
pub open spec fn first_predicate(toks: Seq<Token>, items: Seq<TokenAmbiguity>, i: int, hi: int) -> Option<int>
    decreases hi + 1 - i,
{
    if i > hi {
        None
    } else if predicate_at(toks, items, i) {
        Some(i)
    } else {
        first_predicate(toks, items, i + 1, hi)
    }
}

/// The last subject candidate among tokens `lo..i`.
pub open spec fn last_subject(toks: Seq<Token>, items: Seq<TokenAmbiguity>, lo: int, i: int) -> Option<int>
    decreases i - lo,
{
    if i <= lo {
        None
    } else if subject_at(toks, items, i - 1) {
        Some(i - 1)
    } else {
        last_subject(toks, items, lo, i - 1)
    }
}

pub proof fn lemma_first_predicate(toks: Seq<Token>, items: Seq<TokenAmbiguity>, i: int, hi: int)
    ensures
        first_predicate(toks, items, i, hi) matches Some(p) ==> i <= p <= hi && predicate_at(toks, items, p),
    decreases hi + 1 - i,
{
    if i <= hi && !predicate_at(toks, items, i) {
        lemma_first_predicate(toks, items, i + 1, hi);
    }
}

pub proof fn lemma_last_subject(toks: Seq<Token>, items: Seq<TokenAmbiguity>, lo: int, i: int)
    ensures
        last_subject(toks, items, lo, i) matches Some(q) ==> lo <= q < i && subject_at(toks, items, q),
    decreases i - lo,
{
    if i > lo && !subject_at(toks, items, i - 1) {
        lemma_last_subject(toks, items, lo, i - 1);
    }
}

/// The token range of an island, when it has one.
pub open spec fn island_range(i: IslandView) -> Option<(int, int)> {
    match (i.start_token, i.end_token) {
        (Some(a), Some(b)) => if a <= b {
            Some((a as int, b as int))
        } else {
            None
        },
        _ => None,
    }
}

pub open spec fn spec_predicate(toks: Seq<Token>, items: Seq<TokenAmbiguity>, isl: IslandView) -> Option<int> {
    match island_range(isl) {
        Some((a, b)) => first_predicate(toks, items, a, b),
        None => None,
    }
}

pub open spec fn spec_subject(toks: Seq<Token>, items: Seq<TokenAmbiguity>, isl: IslandView) -> Option<int> {
    match (island_range(isl), spec_predicate(toks, items, isl)) {
        (Some((a, b)), Some(p)) => last_subject(toks, items, a, p),
        _ => None,
    }
}

/// The token is analysed and safe for a confident diagnostic.
pub open spec fn term_safe(items: Seq<TokenAmbiguity>, t: int) -> bool {
    match item_for(items, t as usize, 0) {
        Some(k) => ambiguity_safe(items[k]),
        None => false,
    }
}

/// What blocks the clause of an island: the island's own blockers, a
/// missing predicate or subject, and ambiguous readings of either.
pub open spec fn clause_blocker_set(toks: Seq<Token>, items: Seq<TokenAmbiguity>, isl: IslandView) -> Set<SuppressionReason> {
    let p = spec_predicate(toks, items, isl);
    let q = spec_subject(toks, items, isl);
    let s0 = isl.blockers.to_set();
    let s1 = if p is None { s0.insert(SuppressionReason::ConflictNotProven) } else { s0 };
    let s2 = if q is None { s1.insert(SuppressionReason::InsufficientMorphology) } else { s1 };
    let s3 = match p {
        Some(t) => if !term_safe(items, t) { s2.insert(SuppressionReason::AmbiguousMorphology) } else { s2 },
        None => s2,
    };
    match q {
        Some(t) => if !term_safe(items, t) { s3.insert(SuppressionReason::AmbiguousMorphology) } else { s3 },
        None => s3,
    }
}

/// `c` is the clause candidate `id` of island `isl`.
pub open spec fn is_clause_candidate(toks: Seq<Token>, items: Seq<TokenAmbiguity>, id: int, isl: IslandView, c: ClauseCandidate) -> bool {
    &&& c.id == id
    &&& c.span == isl.span
    &&& c.start_token == isl.start_token
    &&& c.end_token == isl.end_token
    &&& c.island_id == Some(isl.id)
    &&& match (c.predicate, spec_predicate(toks, items, isl)) {
        (None, None) => true,
        (Some(t), Some(p)) => t.token_index == p && t.token == toks[p] && t.role == ClauseTermRole::Predicate
            && t.analyses@ == spec_analyses_for(items, p as usize),
        _ => false,
    }
    &&& match (c.subject_candidate, spec_subject(toks, items, isl)) {
        (None, None) => true,
        (Some(t), Some(q)) => t.token_index == q && t.token == toks[q] && t.role == ClauseTermRole::SubjectCandidate
            && t.analyses@ == spec_analyses_for(items, q as usize),
        _ => false,
    }
    &&& reasons_sorted_set(c.blockers@)
    &&& c.blockers@.to_set() == clause_blocker_set(toks, items, isl)
    &&& c.confidence == if c.blockers@.len() == 0 {
        SyntaxConfidence::Strong
    } else {
        SyntaxConfidence::Weak
    }
}

fn term_is_safe(ambiguity: &AmbiguityModel, t: usize) -> (r: bool)
    ensures
        r == term_safe(ambiguity.items(), t as int),
{
    match ambiguity.for_token_index(t) {
        Some(item) => item.is_safe_for_confident_diagnostic(),
        None => false,
    }
}

fn find_predicate(tokens: &[Token], ambiguity: &AmbiguityModel, island: &SyntacticIsland) -> (r: Option<usize>)
    ensures
        match r {
            Some(p) => spec_predicate(tokens@, ambiguity.items(), island@) == Some(p as int),
            None => spec_predicate(tokens@, ambiguity.items(), island@) is None,
        },
{
    match (island.start_token, island.end_token) {
        (Some(a), Some(b)) => {
            if a > b {
                return None;
            }
            let mut i = a;
            while i <= b && !(i < tokens.len() && tokens[i].kind == TokenKind::Word && any_predicate_reading(
                ambiguity.analyses_for_token(i),
            ))
                invariant
                    a <= i,
                    i <= b + 1,
                    a <= b,
                    island.start_token == Some(a),
                    island.end_token == Some(b),
                    first_predicate(tokens@, ambiguity.items(), a as int, b as int) == first_predicate(
                        tokens@,
                        ambiguity.items(),
                        i as int,
                        b as int,
                    ),
                decreases b + 1 - i,
            {
                if i == b {
                    assert(first_predicate(tokens@, ambiguity.items(), b as int + 1, b as int) is None);
                    assert(!predicate_at(tokens@, ambiguity.items(), b as int));
                    assert(first_predicate(tokens@, ambiguity.items(), b as int, b as int) is None);
                    assert(island_range(island@) == Some((a as int, b as int)));
                    assert(spec_predicate(tokens@, ambiguity.items(), island@) is None);
                    return None;
                }
                i = i + 1;
            }
            if i <= b {
                Some(i)
            } else {
                None
            }
        },
        _ => None,
    }
}

fn find_subject(tokens: &[Token], ambiguity: &AmbiguityModel, lo: usize, p: usize) -> (r: Option<usize>)
    requires
        lo <= p,
    ensures
        match r {
            Some(q) => last_subject(tokens@, ambiguity.items(), lo as int, p as int) == Some(q as int),
            None => last_subject(tokens@, ambiguity.items(), lo as int, p as int) is None,
        },
{
    let mut i = p;
    while i > lo && !(i - 1 < tokens.len() && tokens[i - 1].kind == TokenKind::Word && any_subject_reading(
        ambiguity.analyses_for_token(i - 1),
    ))
        invariant
            lo <= i <= p,
            last_subject(tokens@, ambiguity.items(), lo as int, p as int) == last_subject(
                tokens@,
                ambiguity.items(),
                lo as int,
                i as int,
            ),
        decreases i,
    {
        i = i - 1;
    }
    if i > lo {
        Some(i - 1)
    } else {
        None
    }
}

fn push_reason(v: &mut Vec<SuppressionReason>, x: SuppressionReason)
    ensures
        final(v)@ == old(v)@.push(x),
        final(v)@.to_set() == old(v)@.to_set().insert(x),
{
    v.push(x);
    proof {
        old(v)@.lemma_push_to_set_commute(x);
    }
}

fn clause_term(tokens: &[Token], ambiguity: &AmbiguityModel, t: usize, role: ClauseTermRole) -> (r: ClauseTerm)
    requires
        t < tokens@.len(),
    ensures
        r.token_index == t && r.token == tokens@[t as int] && r.role == role && r.analyses@ == spec_analyses_for(
            ambiguity.items(),
            t,
        ),
{
    ClauseTerm {
        token_index: t,
        token: tokens[t].duplicate(),
        role,
        analyses: copy_analyses(ambiguity.analyses_for_token(t)),
    }
}

fn clause_candidate_for_island(id: usize, tokens: &[Token], ambiguity: &AmbiguityModel, island: &SyntacticIsland) -> (r: ClauseCandidate)
    ensures
        is_clause_candidate(tokens@, ambiguity.items(), id as int, island@, r),
{
    let ghost items = ambiguity.items();
    let p = find_predicate(tokens, ambiguity, island);
    let q = match p {
        Some(pi) => {
            let lo = match island.start_token {
                Some(a) => a,
                None => 0,
            };
            proof {
                let (a, b) = island_range(island@).unwrap();
                lemma_first_predicate(tokens@, items, a, b);
            }
            find_subject(tokens, ambiguity, lo, pi)
        },
        None => None,
    };
    proof {
        match (p, q) {
            (Some(pi), Some(qi)) => {
                let (a, b) = island_range(island@).unwrap();
                lemma_last_subject(tokens@, items, a, pi as int);
            },
            _ => {},
        }
        match p {
            Some(pi) => {
                let (a, b) = island_range(island@).unwrap();
                lemma_first_predicate(tokens@, items, a, b);
            },
            None => {},
        }
    }
    let mut blockers: Vec<SuppressionReason> = Vec::new();
    let mut i: usize = 0;
    while i < island.blockers.len()
        invariant
            i <= island.blockers@.len(),
            blockers@ == island.blockers@.take(i as int),
        decreases island.blockers@.len() - i,
    {
        blockers.push(island.blockers[i]);
        i = i + 1;
    }
    assert(island.blockers@.take(island.blockers@.len() as int) =~= island.blockers@);
    let ghost s0 = blockers@.to_set();
    if p.is_none() {
        push_reason(&mut blockers, SuppressionReason::ConflictNotProven);
    }
    if q.is_none() {
        push_reason(&mut blockers, SuppressionReason::InsufficientMorphology);
    }
    match p {
        Some(pi) => {
            if !term_is_safe(ambiguity, pi) {
                push_reason(&mut blockers, SuppressionReason::AmbiguousMorphology);
            }
        },
        None => {},
    }
    match q {
        Some(qi) => {
            if !term_is_safe(ambiguity, qi) {
                push_reason(&mut blockers, SuppressionReason::AmbiguousMorphology);
            }
        },
        None => {},
    }
    assert(blockers@.to_set() =~= clause_blocker_set(tokens@, items, island@));
    let blockers = sort_dedup_reasons(blockers);
    let predicate = match p {
        Some(pi) => Some(clause_term(tokens, ambiguity, pi, ClauseTermRole::Predicate)),
        None => None,
    };
    let subject_candidate = match q {
        Some(qi) => Some(clause_term(tokens, ambiguity, qi, ClauseTermRole::SubjectCandidate)),
        None => None,
    };
    let confidence = if blockers.len() == 0 {
        SyntaxConfidence::Strong
    } else {
        SyntaxConfidence::Weak
    };
    ClauseCandidate {
        id,
        span: island.span,
        start_token: island.start_token,
        end_token: island.end_token,
        island_id: Some(island.id),
        predicate,
        subject_candidate,
        confidence,
        blockers,
    }
}

/// One clause candidate per island, in island order.
pub fn clause_candidates_from_islands(
    tokens: &[Token],
    ambiguity: &AmbiguityModel,
    islands: &SyntacticIslandMap,
) -> (r: Vec<ClauseCandidate>)
    ensures
        r@.len() == islands.islands_view().len(),
        forall|k: int|
            0 <= k < r@.len() ==> is_clause_candidate(
                tokens@,
                ambiguity.items(),
                k,
                islands.islands_view()[k],
                #[trigger] r@[k],
            ),
{
    let list = islands.islands();
    let mut out: Vec<ClauseCandidate> = Vec::new();
    let mut k: usize = 0;
    while k < list.len()
        invariant
            island_views(list@) == islands.islands_view(),
            k <= list@.len(),
            out@.len() == k,
            forall|j: int|
                0 <= j < k ==> is_clause_candidate(
                    tokens@,
                    ambiguity.items(),
                    j,
                    islands.islands_view()[j],
                    #[trigger] out@[j],
                ),
        decreases list@.len() - k,
    {
        let c = clause_candidate_for_island(k, tokens, ambiguity, &list[k]);
        assert(list@[k as int]@ == islands.islands_view()[k as int]);
        out.push(c);
        k = k + 1;
    }
    out
}

} // verus!
