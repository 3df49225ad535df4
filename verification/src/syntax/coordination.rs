use vstd::prelude::*;
use crate::text::{lower_chars, lower_ru, lower_seq, previous_non_ws_index, spec_previous_non_ws_index, Span, Token, TokenKind};
use crate::unicode::{chars_eq_str, str_chars};
use crate::readings::{copy_analyses, Case, MorphAnalysis, Number, PartOfSpeech};
use crate::syntax::model::{spec_confidence_actionable, SyntaxConfidence};
use crate::syntax::diagnostics::{reasons_sorted_set, sort_dedup_reasons, SuppressionReason};
use crate::syntax::ambiguity::{spec_analyses_for, AmbiguityModel, TokenAmbiguity};
use crate::syntax::islands::{island_views, spec_can_link, IslandView, SyntacticIsland, SyntacticIslandMap};
use crate::syntax::slots::{all_can_modify_noun, all_modify_noun};

verus! {

#[derive(Debug, Clone, Copy, PartialEq, Eq, Structural, PartialOrd, Ord, Hash)]
pub enum CoordinationGroupKind {
    ModifierSeries,
    NominalSubject,
    PredicateSeries,
    Unknown,
}

#[derive(Debug, Clone, Copy, PartialEq, Eq, Structural, PartialOrd, Ord, Hash)]
pub enum CoordinationConnectorKind {
    Comma,
    SingleConjunction,
    RepeatedConjunction,
    Mixed,
}

/// One coordinated word with its readings.
#[derive(Debug, Clone, PartialEq, Eq)]
pub struct CoordinationMember {
    pub token_index: usize,
    pub token: Token,
    pub analyses: Vec<MorphAnalysis>,
}

/// A comma or conjunction between coordinated words.
#[derive(Debug, Clone, PartialEq, Eq)]
pub struct CoordinationConnector {
    pub kind: CoordinationConnectorKind,
    pub token_index: usize,
    pub token: Token,
}

/// Words joined by commas or conjunctions into one series.
#[derive(Debug, Clone, PartialEq, Eq)]
pub struct CoordinationGroup {
    pub id: usize,
    pub kind: CoordinationGroupKind,
    pub span: Span,
    pub start_token: usize,
    pub end_token: usize,
    pub island_id: Option<usize>,
    pub members: Vec<CoordinationMember>,
    pub connectors: Vec<CoordinationConnector>,
    pub head_context: Option<Token>,
    pub agreement_number: Option<Number>,
    pub shared_cases: Vec<Case>,
    pub confidence: SyntaxConfidence,
    pub blockers: Vec<SuppressionReason>,
}

impl CoordinationGroup {
    /// A trusted group of at least two members.
    pub fn is_actionable(&self) -> (r: bool)
        ensures
            r == (spec_confidence_actionable(self.confidence) && self.blockers@.len() == 0 && self.members@.len() > 1),
    {
        self.confidence.is_actionable() && self.blockers.len() == 0 && self.members.len() > 1
    }
}

/// The coordinating conjunctions, compared in lowercase.
pub open spec fn spec_is_conjunction(w: Seq<char>) -> bool {
    let l = lower_seq(w);
    l == "и"@ || l == "или"@ || l == "либо"@ || l == "ни"@ || l == "да"@ || l == "а"@ || l == "но"@
}

pub fn is_coordination_conjunction(value: &str) -> (r: bool)
    ensures
        r == spec_is_conjunction(value@),
{
    let c = str_chars(value);
    let l = lower_chars(c.as_slice());
    let w = l.as_slice();
    chars_eq_str(w, "и") || chars_eq_str(w, "или") || chars_eq_str(w, "либо") || chars_eq_str(w, "ни")
        || chars_eq_str(w, "да") || chars_eq_str(w, "а") || chars_eq_str(w, "но")
}

fn text_is(t: &str, lit: &str) -> (r: bool)
    ensures
        r == (t@ == lit@),
{
    let c = str_chars(t);
    chars_eq_str(c.as_slice(), lit)
}

/// A word that is no conjunction, so it can be a member.
pub open spec fn member_at(toks: Seq<Token>, i: int) -> bool {
    0 <= i < toks.len() && toks[i].kind == TokenKind::Word && !spec_is_conjunction(toks[i].text@)
}

/// A conjunction word.
pub open spec fn conjunction_at(toks: Seq<Token>, i: int) -> bool {
    0 <= i < toks.len() && toks[i].kind == TokenKind::Word && spec_is_conjunction(toks[i].text@)
}

pub open spec fn non_ws_at(toks: Seq<Token>, i: int) -> bool {
    0 <= i < toks.len() && toks[i].kind != TokenKind::Whitespace
}

pub open spec fn word_at(toks: Seq<Token>, i: int) -> bool {
    0 <= i < toks.len() && toks[i].kind == TokenKind::Word
}

/// The first member word among tokens `i..=e`.
pub open spec fn first_member(toks: Seq<Token>, i: int, e: int) -> Option<int>
    decreases e + 1 - i,
{
    if i > e {
        None
    } else if member_at(toks, i) {
        Some(i)
    } else {
        first_member(toks, i + 1, e)
    }
}

/// The first token among `i..=e` that is not white space.
pub open spec fn first_non_ws(toks: Seq<Token>, i: int, e: int) -> Option<int>
    decreases e + 1 - i,
{
    if i > e {
        None
    } else if non_ws_at(toks, i) {
        Some(i)
    } else {
        first_non_ws(toks, i + 1, e)
    }
}

/// The first word token among `i..=e`.
pub open spec fn first_word(toks: Seq<Token>, i: int, e: int) -> Option<int>
    decreases e + 1 - i,
{
    if i > e {
        None
    } else if word_at(toks, i) {
        Some(i)
    } else {
        first_word(toks, i + 1, e)
    }
}

pub proof fn lemma_first_member(toks: Seq<Token>, i: int, e: int)
    ensures
        first_member(toks, i, e) matches Some(j) ==> i <= j <= e && member_at(toks, j),
        i >= toks.len() ==> first_member(toks, i, e) is None,
    decreases e + 1 - i,
{
    if i <= e && !member_at(toks, i) {
        lemma_first_member(toks, i + 1, e);
    }
}

pub proof fn lemma_first_non_ws(toks: Seq<Token>, i: int, e: int)
    ensures
        first_non_ws(toks, i, e) matches Some(j) ==> i <= j <= e && non_ws_at(toks, j),
        i >= toks.len() ==> first_non_ws(toks, i, e) is None,
    decreases e + 1 - i,
{
    if i <= e && !non_ws_at(toks, i) {
        lemma_first_non_ws(toks, i + 1, e);
    }
}

pub proof fn lemma_first_word(toks: Seq<Token>, i: int, e: int)
    ensures
        first_word(toks, i, e) matches Some(j) ==> i <= j <= e && word_at(toks, j),
        i >= toks.len() ==> first_word(toks, i, e) is None,
    decreases e + 1 - i,
{
    if i <= e && !word_at(toks, i) {
        lemma_first_word(toks, i + 1, e);
    }
}

fn is_member_token(tokens: &[Token], i: usize) -> (r: bool)
    requires
        i < tokens@.len(),
    ensures
        r == member_at(tokens@, i as int),
{
    tokens[i].kind == TokenKind::Word && !is_coordination_conjunction(tokens[i].text.as_str())
}

fn is_conjunction_token(tokens: &[Token], i: usize) -> (r: bool)
    requires
        i < tokens@.len(),
    ensures
        r == conjunction_at(tokens@, i as int),
{
    tokens[i].kind == TokenKind::Word && is_coordination_conjunction(tokens[i].text.as_str())
}

/// The first member word among tokens `start..=end`.
fn next_member_token(tokens: &[Token], start: usize, end: usize) -> (r: Option<usize>)
    ensures
        r == (match first_member(tokens@, start as int, end as int) {
            Some(j) => Some(j as usize),
            None => None,
        }),
{
    let mut i = start;
    while i <= end && i < tokens.len() && !is_member_token(tokens, i)
        invariant
            start <= i,
            first_member(tokens@, start as int, end as int) == first_member(tokens@, i as int, end as int),
        decreases tokens@.len() - i,
    {
        i = i + 1;
    }
    proof {
        lemma_first_member(tokens@, i as int, end as int);
    }
    if i <= end && i < tokens.len() {
        Some(i)
    } else {
        None
    }
}

/// The first token among `start..=end` that is not white space.
fn next_non_ws_within(tokens: &[Token], start: usize, end: usize) -> (r: Option<usize>)
    ensures
        r == (match first_non_ws(tokens@, start as int, end as int) {
            Some(j) => Some(j as usize),
            None => None,
        }),
{
    let mut i = start;
    while i <= end && i < tokens.len() && tokens[i].kind == TokenKind::Whitespace
        invariant
            start <= i,
            first_non_ws(tokens@, start as int, end as int) == first_non_ws(tokens@, i as int, end as int),
        decreases tokens@.len() - i,
    {
        i = i + 1;
    }
    proof {
        lemma_first_non_ws(tokens@, i as int, end as int);
    }
    if i <= end && i < tokens.len() {
        Some(i)
    } else {
        None
    }
}

/// The first word token after `after`, up to `end`.
fn following_word_token(tokens: &[Token], after: usize, end: usize) -> (r: Option<Token>)
    requires
        after < tokens@.len(),
    ensures
        r == (match first_word(tokens@, after + 1, end as int) {
            Some(j) => Some(tokens@[j]),
            None => None,
        }),
{
    assert(after < tokens.len());
    let mut i = after + 1;
    while i <= end && i < tokens.len() && tokens[i].kind != TokenKind::Word
        invariant
            after < i,
            first_word(tokens@, after + 1, end as int) == first_word(tokens@, i as int, end as int),
        decreases tokens@.len() - i,
    {
        i = i + 1;
    }
    proof {
        lemma_first_word(tokens@, i as int, end as int);
    }
    if i <= end && i < tokens.len() {
        Some(tokens[i].duplicate())
    } else {
        None
    }
}

/// How a conjunction joins: repeated when a conjunction also stands before
/// the member it follows, or when it is "ни"; single otherwise.
pub open spec fn spec_conjunction_kind(toks: Seq<Token>, c: int, cur: int) -> CoordinationConnectorKind {
    let prev_conjunction = match spec_previous_non_ws_index(toks, cur) {
        Some(p) => conjunction_at(toks, p),
        None => false,
    };
    if prev_conjunction || lower_seq(toks[c].text@) == "ни"@ {
        CoordinationConnectorKind::RepeatedConjunction
    } else {
        CoordinationConnectorKind::SingleConjunction
    }
}

/// A comma or a conjunction joins members; nothing else does.
pub open spec fn spec_connector_kind(toks: Seq<Token>, c: int, cur: int) -> Option<CoordinationConnectorKind> {
    if toks[c].kind == TokenKind::Punctuation && toks[c].text@ == ","@ {
        Some(CoordinationConnectorKind::Comma)
    } else if conjunction_at(toks, c) {
        Some(spec_conjunction_kind(toks, c, cur))
    } else {
        None
    }
}

/// The connector after member `cur` and the member after it, when the next
/// two tokens that are not white space, up to `e`, are a connector and a
/// member.
pub open spec fn spec_link(toks: Seq<Token>, cur: int, e: int) -> Option<(CoordinationConnectorKind, int, int)> {
    match first_non_ws(toks, cur + 1, e) {
        None => None,
        Some(c) => match spec_connector_kind(toks, c, cur) {
            None => None,
            Some(k) => match first_non_ws(toks, c + 1, e) {
                Some(m) => if member_at(toks, m) {
                    Some((k, c, m))
                } else {
                    None
                },
                None => None,
            },
        },
    }
}

fn repeated_or_single_conjunction(tokens: &[Token], connector_idx: usize, current_member: usize) -> (r:
    CoordinationConnectorKind)
    requires
        connector_idx < tokens@.len(),
        current_member < tokens@.len(),
    ensures
        r == spec_conjunction_kind(tokens@, connector_idx as int, current_member as int),
{
    let prev_connector = match previous_non_ws_index(tokens, current_member) {
        Some(p) => is_conjunction_token(tokens, p),
        None => false,
    };
    let low = lower_ru(tokens[connector_idx].text.as_str());
    if prev_connector || text_is(low.as_str(), "ни") {
        CoordinationConnectorKind::RepeatedConjunction
    } else {
        CoordinationConnectorKind::SingleConjunction
    }
}

/// The connector after the member at `current_member` and the member it
/// leads to.
fn next_coordination_link(tokens: &[Token], current_member: usize, end: usize) -> (r: Option<
    (CoordinationConnector, usize),
>)
    requires
        current_member < tokens@.len(),
    ensures
        match (r, spec_link(tokens@, current_member as int, end as int)) {
            (Some((c, m)), Some(l)) => c.kind == l.0 && c.token_index == l.1 && c.token == tokens@[l.1] && m == l.2
                && current_member < m < tokens@.len(),
            (None, None) => true,
            _ => false,
        },
{
    assert(current_member < tokens.len());
    let connector_idx = match next_non_ws_within(tokens, current_member + 1, end) {
        Some(c) => c,
        None => {
            return None;
        },
    };
    proof {
        lemma_first_non_ws(tokens@, current_member + 1, end as int);
    }
    let kind = if tokens[connector_idx].kind == TokenKind::Punctuation && text_is(
        tokens[connector_idx].text.as_str(),
        ",",
    ) {
        CoordinationConnectorKind::Comma
    } else if is_conjunction_token(tokens, connector_idx) {
        repeated_or_single_conjunction(tokens, connector_idx, current_member)
    } else {
        return None;
    };
    let member_idx = match next_non_ws_within(tokens, connector_idx + 1, end) {
        Some(m) => m,
        None => {
            return None;
        },
    };
    proof {
        lemma_first_non_ws(tokens@, connector_idx + 1, end as int);
    }
    if is_member_token(tokens, member_idx) {
        Some((CoordinationConnector { kind, token_index: connector_idx, token: tokens[connector_idx].duplicate() }, member_idx))
    } else {
        None
    }
}

/// The links of the series that goes on from member `cur`, up to `e`.
pub open spec fn spec_chain(toks: Seq<Token>, cur: int, e: int) -> Seq<(CoordinationConnectorKind, int, int)>
    decreases toks.len() - cur,
{
    if 0 <= cur < toks.len() {
        match spec_link(toks, cur, e) {
            Some(l) => if cur < l.2 < toks.len() {
                seq![l] + spec_chain(toks, l.2, e)
            } else {
                Seq::empty()
            },
            None => Seq::empty(),
        }
    } else {
        Seq::empty()
    }
}

/// The last member of a series that starts at `f`.
pub open spec fn chain_last(f: int, ch: Seq<(CoordinationConnectorKind, int, int)>) -> int {
    if ch.len() == 0 {
        f
    } else {
        ch.last().2
    }
}

pub proof fn lemma_chain(toks: Seq<Token>, cur: int, e: int)
    requires
        0 <= cur < toks.len(),
    ensures
        forall|k: int|
            0 <= k < spec_chain(toks, cur, e).len() ==> cur < (#[trigger] spec_chain(toks, cur, e)[k]).2
                < toks.len(),
        cur <= chain_last(cur, spec_chain(toks, cur, e)) < toks.len(),
    decreases toks.len() - cur,
{
    let ch = spec_chain(toks, cur, e);
    match spec_link(toks, cur, e) {
        Some(l) => {
            if cur < l.2 < toks.len() {
                lemma_chain(toks, l.2, e);
                let rest = spec_chain(toks, l.2, e);
                assert(ch == seq![l] + rest);
                assert forall|k: int| 0 <= k < ch.len() implies cur < (#[trigger] ch[k]).2 < toks.len() by {
                    if k > 0 {
                        assert(ch[k] == rest[k - 1]);
                    }
                }
                if rest.len() > 0 {
                    assert(ch.last() == rest.last());
                }
            }
        },
        None => {},
    }
}

/// The readings of one member can only modify a noun.
pub open spec fn member_modifies(a: Seq<MorphAnalysis>) -> bool {
    a.len() > 0 && all_modify_noun(a)
}

/// A noun or pronoun reading that is not in an oblique case.
pub open spec fn subject_reading(x: MorphAnalysis) -> bool {
    (x.pos == PartOfSpeech::Noun || x.pos == PartOfSpeech::Pronoun) && !(x.features.case matches Some(c) && c
        != Case::Nominative)
}

pub open spec fn member_subject(a: Seq<MorphAnalysis>) -> bool {
    exists|k: int| 0 <= k < a.len() && subject_reading(#[trigger] a[k])
}

pub open spec fn member_predicate(a: Seq<MorphAnalysis>) -> bool {
    exists|k: int|
        0 <= k < a.len() && ((#[trigger] a[k]).pos == PartOfSpeech::Verb || a[k].pos == PartOfSpeech::Predicative)
}

pub open spec fn all_members_modify(ms: Seq<CoordinationMember>) -> bool {
    forall|i: int| 0 <= i < ms.len() ==> member_modifies((#[trigger] ms[i]).analyses@)
}

pub open spec fn all_members_subjects(ms: Seq<CoordinationMember>) -> bool {
    forall|i: int| 0 <= i < ms.len() ==> member_subject((#[trigger] ms[i]).analyses@)
}

pub open spec fn all_members_predicates(ms: Seq<CoordinationMember>) -> bool {
    forall|i: int| 0 <= i < ms.len() ==> member_predicate((#[trigger] ms[i]).analyses@)
}

/// Modifiers before a head word, subjects, predicates, or none of these.
pub open spec fn spec_coordination_kind(ms: Seq<CoordinationMember>, has_head: bool) -> CoordinationGroupKind {
    if all_members_modify(ms) && has_head {
        CoordinationGroupKind::ModifierSeries
    } else if all_members_subjects(ms) {
        CoordinationGroupKind::NominalSubject
    } else if all_members_predicates(ms) {
        CoordinationGroupKind::PredicateSeries
    } else {
        CoordinationGroupKind::Unknown
    }
}

fn member_can_modify_noun(m: &CoordinationMember) -> (r: bool)
    ensures
        r == member_modifies(m.analyses@),
{
    m.analyses.len() > 0 && all_can_modify_noun(m.analyses.as_slice())
}

fn member_can_be_nominal_subject(m: &CoordinationMember) -> (r: bool)
    ensures
        r == member_subject(m.analyses@),
{
    let mut k: usize = 0;
    while k < m.analyses.len()
        invariant
            k <= m.analyses@.len(),
            forall|j: int| 0 <= j < k ==> !subject_reading(#[trigger] m.analyses@[j]),
        decreases m.analyses@.len() - k,
    {
        let a = &m.analyses[k];
        let oblique = match a.features.case {
            Some(c) => c != Case::Nominative,
            None => false,
        };
        if (a.pos == PartOfSpeech::Noun || a.pos == PartOfSpeech::Pronoun) && !oblique {
            assert(subject_reading(m.analyses@[k as int]));
            return true;
        }
        k = k + 1;
    }
    false
}

fn member_can_be_predicate(m: &CoordinationMember) -> (r: bool)
    ensures
        r == member_predicate(m.analyses@),
{
    let mut k: usize = 0;
    while k < m.analyses.len()
        invariant
            k <= m.analyses@.len(),
            forall|j: int|
                0 <= j < k ==> !((#[trigger] m.analyses@[j]).pos == PartOfSpeech::Verb || m.analyses@[j].pos
                    == PartOfSpeech::Predicative),
        decreases m.analyses@.len() - k,
    {
        if m.analyses[k].pos == PartOfSpeech::Verb || m.analyses[k].pos == PartOfSpeech::Predicative {
            return true;
        }
        k = k + 1;
    }
    false
}

/// What kind of series the members form.
fn infer_coordination_kind(members: &[CoordinationMember], head_context: Option<&Token>) -> (r: CoordinationGroupKind)
    ensures
        r == spec_coordination_kind(members@, head_context is Some),
{
    let mut modify = true;
    let mut subjects = true;
    let mut predicates = true;
    let mut i: usize = 0;
    while i < members.len()
        invariant
            i <= members@.len(),
            modify == all_members_modify(members@.take(i as int)),
            subjects == all_members_subjects(members@.take(i as int)),
            predicates == all_members_predicates(members@.take(i as int)),
        decreases members@.len() - i,
    {
        let ghost t = members@.take(i as int);
        let ghost t1 = members@.take(i as int + 1);
        let m = member_can_modify_noun(&members[i]);
        let s = member_can_be_nominal_subject(&members[i]);
        let p = member_can_be_predicate(&members[i]);
        proof {
            assert(t1 =~= t.push(members@[i as int]));
            assert(all_members_modify(t1) == (all_members_modify(t) && m)) by {
                if all_members_modify(t) && m {
                    assert forall|j: int| 0 <= j < t1.len() implies member_modifies((#[trigger] t1[j]).analyses@) by {
                        if j < t.len() {
                            assert(t1[j] == t[j]);
                        }
                    }
                }
                if all_members_modify(t1) {
                    assert forall|j: int| 0 <= j < t.len() implies member_modifies((#[trigger] t[j]).analyses@) by {
                        assert(t1[j] == t[j]);
                    }
                    assert(member_modifies(t1[i as int].analyses@));
                }
            }
            assert(all_members_subjects(t1) == (all_members_subjects(t) && s)) by {
                if all_members_subjects(t) && s {
                    assert forall|j: int| 0 <= j < t1.len() implies member_subject((#[trigger] t1[j]).analyses@) by {
                        if j < t.len() {
                            assert(t1[j] == t[j]);
                        }
                    }
                }
                if all_members_subjects(t1) {
                    assert forall|j: int| 0 <= j < t.len() implies member_subject((#[trigger] t[j]).analyses@) by {
                        assert(t1[j] == t[j]);
                    }
                    assert(member_subject(t1[i as int].analyses@));
                }
            }
            assert(all_members_predicates(t1) == (all_members_predicates(t) && p)) by {
                if all_members_predicates(t) && p {
                    assert forall|j: int| 0 <= j < t1.len() implies member_predicate((#[trigger] t1[j]).analyses@) by {
                        if j < t.len() {
                            assert(t1[j] == t[j]);
                        }
                    }
                }
                if all_members_predicates(t1) {
                    assert forall|j: int| 0 <= j < t.len() implies member_predicate((#[trigger] t[j]).analyses@) by {
                        assert(t1[j] == t[j]);
                    }
                    assert(member_predicate(t1[i as int].analyses@));
                }
            }
        }
        modify = modify && m;
        subjects = subjects && s;
        predicates = predicates && p;
        i = i + 1;
    }
    assert(members@.take(members@.len() as int) =~= members@);
    if modify && head_context.is_some() {
        CoordinationGroupKind::ModifierSeries
    } else if subjects {
        CoordinationGroupKind::NominalSubject
    } else if predicates {
        CoordinationGroupKind::PredicateSeries
    } else {
        CoordinationGroupKind::Unknown
    }
}

pub open spec fn has_number(a: Seq<MorphAnalysis>, n: Number) -> bool {
    exists|k: int| 0 <= k < a.len() && (#[trigger] a[k]).features.number == Some(n)
}

pub open spec fn lacks_number(a: Seq<MorphAnalysis>) -> bool {
    forall|k: int| 0 <= k < a.len() ==> (#[trigger] a[k]).features.number is None
}

pub open spec fn all_have_number(ms: Seq<CoordinationMember>, n: Number) -> bool {
    forall|i: int| 0 <= i < ms.len() ==> has_number((#[trigger] ms[i]).analyses@, n)
}

pub open spec fn some_lacks_number(ms: Seq<CoordinationMember>) -> bool {
    exists|i: int| 0 <= i < ms.len() && lacks_number((#[trigger] ms[i]).analyses@)
}

/// The one number that every member can be read in, if there is exactly
/// one; none when a member has no number at all.
pub open spec fn spec_common_number(ms: Seq<CoordinationMember>) -> Option<Number> {
    if ms.len() == 0 || some_lacks_number(ms) {
        None
    } else if all_have_number(ms, Number::Singular) && !all_have_number(ms, Number::Plural) {
        Some(Number::Singular)
    } else if all_have_number(ms, Number::Plural) && !all_have_number(ms, Number::Singular) {
        Some(Number::Plural)
    } else {
        None
    }
}

fn member_numbers(a: &[MorphAnalysis]) -> (r: (bool, bool))
    ensures
        r.0 == has_number(a@, Number::Singular),
        r.1 == has_number(a@, Number::Plural),
        lacks_number(a@) == (!r.0 && !r.1),
{
    let mut sing = false;
    let mut plur = false;
    let mut k: usize = 0;
    while k < a.len()
        invariant
            k <= a@.len(),
            sing == exists|j: int| 0 <= j < k && (#[trigger] a@[j]).features.number == Some(Number::Singular),
            plur == exists|j: int| 0 <= j < k && (#[trigger] a@[j]).features.number == Some(Number::Plural),
            (!sing && !plur) == forall|j: int| 0 <= j < k ==> (#[trigger] a@[j]).features.number is None,
        decreases a@.len() - k,
    {
        match a[k].features.number {
            Some(Number::Singular) => {
                sing = true;
            },
            Some(Number::Plural) => {
                plur = true;
            },
            None => {},
        }
        proof {
            if !sing && !plur {
                assert forall|j: int| 0 <= j < k + 1 implies (#[trigger] a@[j]).features.number is None by {
                    if j < k {
                    } else {
                        assert(a@[j] == a@[k as int]);
                    }
                }
            }
        }
        k = k + 1;
    }
    (sing, plur)
}

/// The number every member shares, when exactly one is shared.
fn member_common_number(members: &[CoordinationMember]) -> (r: Option<Number>)
    ensures
        r == spec_common_number(members@),
{
    if members.len() == 0 {
        return None;
    }
    let mut sing = true;
    let mut plur = true;
    let mut i: usize = 0;
    while i < members.len()
        invariant
            0 < members@.len(),
            i <= members@.len(),
            forall|j: int| 0 <= j < i ==> !lacks_number((#[trigger] members@[j]).analyses@),
            sing == forall|j: int| 0 <= j < i ==> has_number((#[trigger] members@[j]).analyses@, Number::Singular),
            plur == forall|j: int| 0 <= j < i ==> has_number((#[trigger] members@[j]).analyses@, Number::Plural),
        decreases members@.len() - i,
    {
        let (hs, hp) = member_numbers(members[i].analyses.as_slice());
        if !hs && !hp {
            assert(lacks_number(members@[i as int].analyses@));
            return None;
        }
        sing = sing && hs;
        plur = plur && hp;
        i = i + 1;
    }
    assert(!some_lacks_number(members@));
    if sing && !plur {
        Some(Number::Singular)
    } else if plur && !sing {
        Some(Number::Plural)
    } else {
        None
    }
}

/// A subject series agrees in the plural; modifiers and predicates in the
/// number they share.
pub open spec fn spec_agreement_number(kind: CoordinationGroupKind, ms: Seq<CoordinationMember>) -> Option<Number> {
    if ms.len() < 2 {
        None
    } else {
        match kind {
            CoordinationGroupKind::NominalSubject => Some(Number::Plural),
            CoordinationGroupKind::ModifierSeries | CoordinationGroupKind::PredicateSeries => spec_common_number(ms),
            CoordinationGroupKind::Unknown => None,
        }
    }
}

fn infer_coordination_agreement_number(kind: CoordinationGroupKind, members: &[CoordinationMember]) -> (r: Option<
    Number,
>)
    ensures
        r == spec_agreement_number(kind, members@),
{
    if members.len() < 2 {
        return None;
    }
    match kind {
        CoordinationGroupKind::NominalSubject => Some(Number::Plural),
        CoordinationGroupKind::ModifierSeries | CoordinationGroupKind::PredicateSeries => member_common_number(members),
        CoordinationGroupKind::Unknown => None,
    }
}

pub open spec fn has_case(a: Seq<MorphAnalysis>, c: Case) -> bool {
    exists|k: int| 0 <= k < a.len() && (#[trigger] a[k]).features.case == Some(c)
}

pub open spec fn lacks_case(a: Seq<MorphAnalysis>) -> bool {
    forall|k: int| 0 <= k < a.len() ==> (#[trigger] a[k]).features.case is None
}

pub open spec fn all_have_case(ms: Seq<CoordinationMember>, c: Case) -> bool {
    forall|i: int| 0 <= i < ms.len() ==> has_case((#[trigger] ms[i]).analyses@, c)
}

pub open spec fn some_lacks_case(ms: Seq<CoordinationMember>) -> bool {
    exists|i: int| 0 <= i < ms.len() && lacks_case((#[trigger] ms[i]).analyses@)
}

/// The cases in declaration order, which their derived `Ord` follows.
pub open spec fn case_order() -> Seq<Case> {
    seq![Case::Nominative, Case::Genitive, Case::Dative, Case::Accusative, Case::Instrumental, Case::Prepositional]
}

/// The first `k` cases of the order that every member can be read in.
pub open spec fn cases_in(ms: Seq<CoordinationMember>, k: int) -> Seq<Case>
    decreases k,
{
    if k <= 0 {
        Seq::empty()
    } else if all_have_case(ms, case_order()[k - 1]) {
        cases_in(ms, k - 1).push(case_order()[k - 1])
    } else {
        cases_in(ms, k - 1)
    }
}

/// The cases every member can be read in, in order; none when a member has
/// no case at all.
pub open spec fn spec_shared_cases(ms: Seq<CoordinationMember>) -> Seq<Case> {
    if ms.len() == 0 || some_lacks_case(ms) {
        Seq::empty()
    } else {
        cases_in(ms, 6)
    }
}

fn member_has_case(a: &[MorphAnalysis], c: Case) -> (r: bool)
    ensures
        r == has_case(a@, c),
{
    let mut k: usize = 0;
    while k < a.len()
        invariant
            k <= a@.len(),
            forall|j: int| 0 <= j < k ==> (#[trigger] a@[j]).features.case != Some(c),
        decreases a@.len() - k,
    {
        if a[k].features.case == Some(c) {
            return true;
        }
        k = k + 1;
    }
    false
}

fn member_has_any_case(a: &[MorphAnalysis]) -> (r: bool)
    ensures
        r == !lacks_case(a@),
{
    let mut k: usize = 0;
    while k < a.len()
        invariant
            k <= a@.len(),
            forall|j: int| 0 <= j < k ==> (#[trigger] a@[j]).features.case is None,
        decreases a@.len() - k,
    {
        if a[k].features.case.is_some() {
            return true;
        }
        k = k + 1;
    }
    false
}

fn all_members_have_case(members: &[CoordinationMember], c: Case) -> (r: bool)
    ensures
        r == all_have_case(members@, c),
{
    let mut i: usize = 0;
    while i < members.len()
        invariant
            i <= members@.len(),
            forall|j: int| 0 <= j < i ==> has_case((#[trigger] members@[j]).analyses@, c),
        decreases members@.len() - i,
    {
        if !member_has_case(members[i].analyses.as_slice(), c) {
            return false;
        }
        i = i + 1;
    }
    true
}

/// The cases shared by every member, in order.
fn shared_coordination_cases(members: &[CoordinationMember]) -> (r: Vec<Case>)
    ensures
        r@ == spec_shared_cases(members@),
{
    let mut out: Vec<Case> = Vec::new();
    if members.len() == 0 {
        return out;
    }
    let mut i: usize = 0;
    while i < members.len()
        invariant
            i <= members@.len(),
            out@ == Seq::<Case>::empty(),
            forall|j: int| 0 <= j < i ==> !lacks_case((#[trigger] members@[j]).analyses@),
        decreases members@.len() - i,
    {
        if !member_has_any_case(members[i].analyses.as_slice()) {
            assert(lacks_case(members@[i as int].analyses@));
            assert(some_lacks_case(members@));
            assert(out@ =~= Seq::<Case>::empty());
            return out;
        }
        i = i + 1;
    }
    assert(!some_lacks_case(members@));
    let order: [Case; 6] = [
        Case::Nominative,
        Case::Genitive,
        Case::Dative,
        Case::Accusative,
        Case::Instrumental,
        Case::Prepositional,
    ];
    assert(order@ =~= case_order());
    let mut k: usize = 0;
    while k < 6
        invariant
            k <= 6,
            order@ == case_order(),
            out@ == cases_in(members@, k as int),
        decreases 6 - k,
    {
        if all_members_have_case(members, order[k]) {
            out.push(order[k]);
        }
        k = k + 1;
    }
    out
}

/// Some two neighbouring members cannot be linked.
pub open spec fn members_unlinkable(v: Seq<IslandView>, ms: Seq<CoordinationMember>) -> bool {
    exists|k: int|
        0 <= k && k + 1 < ms.len() && !spec_can_link(
            v,
            (#[trigger] ms[k]).token_index as int,
            ms[k + 1].token_index as int,
        )
}

/// The island's blockers, and an unsafe boundary when two neighbouring
/// members cannot be linked.
pub open spec fn group_blocker_set(v: Seq<IslandView>, isl: IslandView, ms: Seq<CoordinationMember>) -> Set<
    SuppressionReason,
> {
    if members_unlinkable(v, ms) {
        isl.blockers.to_set().insert(SuppressionReason::UnsafeBoundary)
    } else {
        isl.blockers.to_set()
    }
}

pub closed spec fn link_ok(v: Seq<IslandView>, ms: Seq<CoordinationMember>, j: int) -> bool {
    spec_can_link(v, ms[j].token_index as int, ms[j + 1].token_index as int)
}

fn some_members_unlinkable(members: &[CoordinationMember], islands: &SyntacticIslandMap) -> (r: bool)
    ensures
        r == members_unlinkable(islands.islands_view(), members@),
{
    let ghost v = islands.islands_view();
    let mut k: usize = 0;
    while k < members.len()
        invariant
            k <= members@.len(),
            v == islands.islands_view(),
            forall|j: int|
                0 <= j < k && j + 1 < members@.len() ==> #[trigger] link_ok(v, members@, j),
        decreases members@.len() - k,
    {
        if k + 1 < members.len() && !islands.can_link_tokens(members[k].token_index, members[k + 1].token_index) {
            assert(!link_ok(v, members@, k as int));
            return true;
        }
        k = k + 1;
    }
    assert forall|j: int| 0 <= j && j + 1 < members@.len() implies spec_can_link(
        v,
        (#[trigger] members@[j]).token_index as int,
        members@[j + 1].token_index as int,
    ) by {
        assert(link_ok(v, members@, j));
    }
    false
}

fn coordination_blockers(members: &[CoordinationMember], island: &SyntacticIsland, islands: &SyntacticIslandMap) -> (r:
    Vec<SuppressionReason>)
    ensures
        reasons_sorted_set(r@),
        r@.to_set() == group_blocker_set(islands.islands_view(), island@, members@),
{
    let unlinkable = some_members_unlinkable(members, islands);
    let mut raw: Vec<SuppressionReason> = Vec::new();
    let mut i: usize = 0;
    while i < island.blockers.len()
        invariant
            i <= island.blockers@.len(),
            raw@ == island.blockers@.take(i as int),
        decreases island.blockers@.len() - i,
    {
        raw.push(island.blockers[i]);
        i = i + 1;
    }
    assert(island.blockers@.take(island.blockers@.len() as int) =~= island.blockers@);
    let ghost before = raw@;
    if unlinkable {
        raw.push(SuppressionReason::UnsafeBoundary);
        proof {
            before.lemma_push_to_set_commute(SuppressionReason::UnsafeBoundary);
        }
    }
    sort_dedup_reasons(raw)
}

/// `m` is the member at token `i`, with the token's readings.
pub open spec fn member_is(toks: Seq<Token>, items: Seq<TokenAmbiguity>, i: int, m: CoordinationMember) -> bool {
    m.token_index == i && m.token == toks[i] && m.analyses@ == spec_analyses_for(items, i as usize)
}

fn member_for_token(tokens: &[Token], ambiguity: &AmbiguityModel, token_index: usize) -> (m: CoordinationMember)
    requires
        token_index < tokens@.len(),
    ensures
        member_is(tokens@, ambiguity.items(), token_index as int, m),
{
    CoordinationMember {
        token_index,
        token: tokens[token_index].duplicate(),
        analyses: copy_analyses(ambiguity.analyses_for_token(token_index)),
    }
}

/// The first members of the series found scanning tokens `i..=e`: from
/// each first member the series runs as far as its links go, and the scan
/// goes on after its last member; a lone word makes no series.
pub open spec fn group_starts(toks: Seq<Token>, i: int, e: int) -> Seq<int>
    decreases toks.len() - i,
{
    if i > e || i < 0 {
        Seq::empty()
    } else {
        match first_member(toks, i, e) {
            None => Seq::empty(),
            Some(f) => {
                let ch = spec_chain(toks, f, e);
                let last = chain_last(f, ch);
                if i <= f && f <= last && last < toks.len() {
                    if ch.len() > 0 {
                        seq![f] + group_starts(toks, last + 1, e)
                    } else {
                        group_starts(toks, last + 1, e)
                    }
                } else {
                    Seq::empty()
                }
            },
        }
    }
}

/// The first members of the series of an island.
pub open spec fn island_group_starts(toks: Seq<Token>, isl: IslandView) -> Seq<int> {
    match (isl.start_token, isl.end_token) {
        (Some(a), Some(b)) => group_starts(toks, a as int, b as int),
        _ => Seq::empty(),
    }
}

pub open spec fn island_end(isl: IslandView) -> int {
    match isl.end_token {
        Some(b) => b as int,
        None => 0,
    }
}

/// `c` is the connector of link `l`.
pub open spec fn connector_is(toks: Seq<Token>, l: (CoordinationConnectorKind, int, int), c: CoordinationConnector) -> bool {
    c.kind == l.0 && c.token_index == l.1 && c.token == toks[l.1]
}

/// `g` is the group `id` of island `isl` whose first member is token `f`.
#[verifier::opaque]
pub open spec fn is_group(
    toks: Seq<Token>,
    items: Seq<TokenAmbiguity>,
    v: Seq<IslandView>,
    isl: IslandView,
    f: int,
    id: int,
    g: CoordinationGroup,
) -> bool {
    let e = island_end(isl);
    let ch = spec_chain(toks, f, e);
    let last = chain_last(f, ch);
    let head = first_word(toks, last + 1, e);
    &&& member_at(toks, f)
    &&& g.id == id
    &&& g.members@.len() == ch.len() + 1
    &&& member_is(toks, items, f, g.members@[0])
    &&& forall|k: int| 0 <= k < ch.len() ==> member_is(toks, items, ch[k].2, #[trigger] g.members@[k + 1])
    &&& g.connectors@.len() == ch.len()
    &&& forall|k: int| 0 <= k < ch.len() ==> connector_is(toks, ch[k], #[trigger] g.connectors@[k])
    &&& g.kind == spec_coordination_kind(g.members@, head is Some)
    &&& g.span == Span { start: toks[f].span.start, end: toks[last].span.end }
    &&& g.start_token == f
    &&& g.end_token == last
    &&& g.island_id == Some(isl.id)
    &&& g.head_context == match head {
        Some(j) => Some(toks[j]),
        None => None,
    }
    &&& g.agreement_number == spec_agreement_number(g.kind, g.members@)
    &&& g.shared_cases@ == spec_shared_cases(g.members@)
    &&& reasons_sorted_set(g.blockers@)
    &&& g.blockers@.to_set() == group_blocker_set(v, isl, g.members@)
    &&& g.confidence == if g.blockers@.len() == 0 {
        SyntaxConfidence::Strong
    } else {
        SyntaxConfidence::Ambiguous
    }
}

/// `ms` and `cs` are the members and connectors of the series that starts
/// at `first`, `last` its last member.
pub open spec fn series_is(
    toks: Seq<Token>,
    items: Seq<TokenAmbiguity>,
    first: int,
    e: int,
    ms: Seq<CoordinationMember>,
    cs: Seq<CoordinationConnector>,
    last: int,
) -> bool {
    let ch = spec_chain(toks, first, e);
    &&& first <= last < toks.len()
    &&& last == chain_last(first, ch)
    &&& ms.len() == ch.len() + 1
    &&& member_is(toks, items, first, ms[0])
    &&& forall|k: int| 0 <= k < ch.len() ==> member_is(toks, items, ch[k].2, #[trigger] ms[k + 1])
    &&& cs.len() == ch.len()
    &&& forall|k: int| 0 <= k < ch.len() ==> connector_is(toks, ch[k], #[trigger] cs[k])
}

/// Follows the links from the member at `first` as far as they go.
fn series_from(tokens: &[Token], ambiguity: &AmbiguityModel, first: usize, end: usize) -> (r: (
    Vec<CoordinationMember>,
    Vec<CoordinationConnector>,
    usize,
))
    requires
        first < tokens@.len(),
    ensures
        series_is(tokens@, ambiguity.items(), first as int, end as int, r.0@, r.1@, r.2 as int),
{
    let ghost toks = tokens@;
    let ghost items = ambiguity.items();
    proof {
        lemma_chain(toks, first as int, end as int);
    }
    let ghost ch = spec_chain(toks, first as int, end as int);
    let mut members: Vec<CoordinationMember> = Vec::new();
    members.push(member_for_token(tokens, ambiguity, first));
    let mut connectors: Vec<CoordinationConnector> = Vec::new();
    let mut cursor = first;
    let ghost mut done: Seq<(CoordinationConnectorKind, int, int)> = Seq::empty();
    loop
        invariant
            toks == tokens@,
            items == ambiguity.items(),
            first < toks.len(),
            first <= cursor < toks.len(),
            ch == spec_chain(toks, first as int, end as int),
            ch == done + spec_chain(toks, cursor as int, end as int),
            cursor == chain_last(first as int, done),
            members@.len() == done.len() + 1,
            connectors@.len() == done.len(),
            member_is(toks, items, first as int, members@[0]),
            forall|k: int| 0 <= k < done.len() ==> member_is(toks, items, done[k].2, #[trigger] members@[k + 1]),
            forall|k: int| 0 <= k < done.len() ==> connector_is(toks, done[k], #[trigger] connectors@[k]),
        ensures
            ch == done,
        decreases toks.len() - cursor,
    {
        match next_coordination_link(tokens, cursor, end) {
            Some((connector, member_idx)) => {
                let ghost l = spec_link(toks, cursor as int, end as int).unwrap();
                proof {
                    assert(spec_chain(toks, cursor as int, end as int) == seq![l] + spec_chain(
                        toks,
                        member_idx as int,
                        end as int,
                    ));
                    assert(done + (seq![l] + spec_chain(toks, member_idx as int, end as int)) =~= done.push(l)
                        + spec_chain(toks, member_idx as int, end as int));
                }
                connectors.push(connector);
                members.push(member_for_token(tokens, ambiguity, member_idx));
                cursor = member_idx;
                proof {
                    done = done.push(l);
                }
            },
            None => {
                assert(spec_chain(toks, cursor as int, end as int) == Seq::<(CoordinationConnectorKind, int, int)>::empty());
                assert(done + Seq::<(CoordinationConnectorKind, int, int)>::empty() =~= done);
                break;
            },
        }
    }
    (members, connectors, cursor)
}

/// The group made of a series of at least two members.
fn group_for_series(
    tokens: &[Token],
    ambiguity: &AmbiguityModel,
    island: &SyntacticIsland,
    islands: &SyntacticIslandMap,
    id: usize,
    first: usize,
    end: usize,
    members: Vec<CoordinationMember>,
    connectors: Vec<CoordinationConnector>,
    cursor: usize,
) -> (g: CoordinationGroup)
    requires
        series_is(tokens@, ambiguity.items(), first as int, end as int, members@, connectors@, cursor as int),
        members@.len() > 1,
        member_at(tokens@, first as int),
        island_end(island@) == end,
    ensures
        is_group(tokens@, ambiguity.items(), islands.islands_view(), island@, first as int, id as int, g),
{
    let blockers = coordination_blockers(members.as_slice(), island, islands);
    let confidence = if blockers.len() == 0 {
        SyntaxConfidence::Strong
    } else {
        SyntaxConfidence::Ambiguous
    };
    let head_context = following_word_token(tokens, cursor, end);
    let kind = infer_coordination_kind(members.as_slice(), head_context.as_ref());
    let agreement_number = infer_coordination_agreement_number(kind, members.as_slice());
    let shared_cases = shared_coordination_cases(members.as_slice());
    let span_start = members[0].token.span.start;
    let last_token_end = tokens[cursor].span.end;
    let g = CoordinationGroup {
        id,
        kind,
        span: Span::new(span_start, last_token_end),
        start_token: first,
        end_token: cursor,
        island_id: Some(island.id),
        members,
        connectors,
        head_context,
        agreement_number,
        shared_cases,
        confidence,
        blockers,
    };
    proof {
        reveal(is_group);
    }
    g
}

/// Appends the coordination groups of one island to `out`, numbering them
/// on from its length.
fn collect_coordination_groups_for_island(
    tokens: &[Token],
    ambiguity: &AmbiguityModel,
    island: &SyntacticIsland,
    islands: &SyntacticIslandMap,
    out: &mut Vec<CoordinationGroup>,
)
    ensures
        final(out)@.len() == old(out)@.len() + island_group_starts(tokens@, island@).len(),
        forall|j: int| 0 <= j < old(out)@.len() ==> #[trigger] final(out)@[j] == old(out)@[j],
        forall|k: int|
            0 <= k < island_group_starts(tokens@, island@).len() ==> is_group(
                tokens@,
                ambiguity.items(),
                islands.islands_view(),
                island@,
                island_group_starts(tokens@, island@)[k],
                old(out)@.len() + k,
                #[trigger] final(out)@[old(out)@.len() + k],
            ),
{
    let ghost toks = tokens@;
    let ghost items = ambiguity.items();
    let ghost v = islands.islands_view();
    let ghost n0 = out@.len();
    let ghost o0 = out@;
    let (start, end) = match (island.start_token, island.end_token) {
        (Some(a), Some(b)) => (a, b),
        _ => {
            return;
        },
    };
    let ghost starts = island_group_starts(toks, island@);
    assert(starts == group_starts(toks, start as int, end as int));
    assert(island_end(island@) == end);
    let ghost mut found: Seq<int> = Seq::empty();
    let mut idx = start;
    loop
        invariant
            toks == tokens@,
            items == ambiguity.items(),
            v == islands.islands_view(),
            island_end(island@) == end,
            starts == found + group_starts(toks, idx as int, end as int),
            out@.len() == n0 + found.len(),
            n0 == o0.len(),
            forall|j: int| 0 <= j < n0 ==> #[trigger] out@[j] == o0[j],
            forall|k: int|
                0 <= k < found.len() ==> is_group(toks, items, v, island@, found[k], n0 + k, #[trigger] out@[n0 + k]),
        ensures
            starts == found,
        decreases toks.len() - idx,
    {
        if idx > end {
            assert(found + Seq::<int>::empty() =~= found);
            break;
        }
        let first = match next_member_token(tokens, idx, end) {
            Some(f) => f,
            None => {
                assert(found + Seq::<int>::empty() =~= found);
                break;
            },
        };
        proof {
            lemma_first_member(toks, idx as int, end as int);
        }
        let (members, connectors, cursor) = series_from(tokens, ambiguity, first, end);
        let ghost ch = spec_chain(toks, first as int, end as int);
        let ghost rest = group_starts(toks, cursor + 1, end as int);
        if members.len() > 1 {
            let group = group_for_series(
                tokens,
                ambiguity,
                island,
                islands,
                out.len(),
                first,
                end,
                members,
                connectors,
                cursor,
            );
            out.push(group);
            proof {
                assert(group_starts(toks, idx as int, end as int) == seq![first as int] + rest);
                assert(found + (seq![first as int] + rest) =~= found.push(first as int) + rest);
                found = found.push(first as int);
            }
        } else {
            assert(group_starts(toks, idx as int, end as int) == rest);
        }
        assert(cursor < tokens.len());
        idx = cursor + 1;
    }
}

pub proof fn lemma_group_fields(
    toks: Seq<Token>,
    items: Seq<TokenAmbiguity>,
    v: Seq<IslandView>,
    isl: IslandView,
    f: int,
    id: int,
    g: CoordinationGroup,
)
    requires
        is_group(toks, items, v, isl, f, id, g),
    ensures
        g.id == id,
        g.start_token == f,
        g.members@.len() >= 1,
{
    reveal(is_group);
}

pub proof fn lemma_group_members(
    toks: Seq<Token>,
    items: Seq<TokenAmbiguity>,
    v: Seq<IslandView>,
    isl: IslandView,
    f: int,
    id: int,
    g: CoordinationGroup,
)
    requires
        is_group(toks, items, v, isl, f, id, g),
    ensures
        member_at(toks, f),
        g.members@.len() == spec_chain(toks, f, island_end(isl)).len() + 1,
        g.members@[0].token_index == f,
        forall|k: int|
            0 <= k < spec_chain(toks, f, island_end(isl)).len() ==> (#[trigger] g.members@[k + 1]).token_index
                == spec_chain(toks, f, island_end(isl))[k].2,
{
    reveal(is_group);
    let ch = spec_chain(toks, f, island_end(isl));
    assert forall|k: int| 0 <= k < ch.len() implies (#[trigger] g.members@[k + 1]).token_index == ch[k].2 by {
        assert(member_is(toks, items, ch[k].2, g.members@[k + 1]));
    }
}

/// The island index and first member of every series, island by island
/// over the first `n` islands.
pub open spec fn all_group_starts(toks: Seq<Token>, v: Seq<IslandView>, n: int) -> Seq<(int, int)>
    decreases n,
{
    if n <= 0 {
        Seq::empty()
    } else {
        all_group_starts(toks, v, n - 1) + island_group_starts(toks, v[n - 1]).map_values(|f: int| (n - 1, f))
    }
}

/// The groups of the first `n` islands, in island order, each numbered by
/// its position.
pub open spec fn groups_so_far(
    toks: Seq<Token>,
    items: Seq<TokenAmbiguity>,
    v: Seq<IslandView>,
    n: int,
    raw: Seq<CoordinationGroup>,
) -> bool {
    let st = all_group_starts(toks, v, n);
    &&& raw.len() == st.len()
    &&& forall|j: int|
        0 <= j < raw.len() ==> is_group(toks, items, v, v[st[j].0], st[j].1, j, #[trigger] raw[j])
}

/// Groups ordered by start, then end, then id.
pub open spec fn group_lt(a: CoordinationGroup, b: CoordinationGroup) -> bool {
    ||| a.span.start < b.span.start
    ||| a.span.start == b.span.start && a.span.end < b.span.end
    ||| a.span.start == b.span.start && a.span.end == b.span.end && a.id < b.id
}

pub open spec fn groups_sorted(s: Seq<CoordinationGroup>) -> bool {
    forall|i: int, j: int| 0 <= i < j < s.len() ==> group_lt(#[trigger] s[i], #[trigger] s[j])
}

/// The groups with their ids replaced by their positions.
pub open spec fn renumbered_groups(s: Seq<CoordinationGroup>) -> Seq<CoordinationGroup> {
    Seq::new(s.len(), |k: int| CoordinationGroup { id: k as usize, ..s[k] })
}

/// The coordination groups of every island, sorted by span and renumbered.
pub open spec fn groups_of(toks: Seq<Token>, items: Seq<TokenAmbiguity>, v: Seq<IslandView>, r: Seq<CoordinationGroup>) -> bool {
    exists|raw: Seq<CoordinationGroup>, sorted: Seq<CoordinationGroup>|
        #![trigger raw.to_multiset(), sorted.to_multiset()]
        groups_so_far(toks, items, v, v.len() as int, raw) && sorted.to_multiset() == raw.to_multiset()
            && groups_sorted(sorted) && r == renumbered_groups(sorted)
}

fn group_lt_exec(a: &CoordinationGroup, b: &CoordinationGroup) -> (r: bool)
    ensures
        r == group_lt(*a, *b),
{
    a.span.start < b.span.start || (a.span.start == b.span.start && a.span.end < b.span.end) || (a.span.start
        == b.span.start && a.span.end == b.span.end && a.id < b.id)
}

/// Inserts `x` into the sorted list `v` at its place.
fn insert_group_sorted(v: &mut Vec<CoordinationGroup>, x: CoordinationGroup)
    requires
        groups_sorted(old(v)@),
        forall|k: int| 0 <= k < old(v)@.len() ==> (#[trigger] old(v)@[k]).id < x.id,
    ensures
        groups_sorted(final(v)@),
        final(v)@.to_multiset() == old(v)@.to_multiset().insert(x),
        forall|k: int| 0 <= k < final(v)@.len() ==> (#[trigger] final(v)@[k]).id <= x.id,
{
    let ghost old_v = v@;
    let mut p: usize = v.len();
    while p > 0 && group_lt_exec(&x, &v[p - 1])
        invariant
            p <= v@.len(),
            v@ == old_v,
            forall|k: int| p <= k < v@.len() ==> group_lt(x, #[trigger] v@[k]),
        decreases p,
    {
        p = p - 1;
    }
    proof {
        if p > 0 {
            assert(!group_lt(x, old_v[p - 1]));
            assert(old_v[p - 1].id < x.id);
            assert(group_lt(old_v[p - 1], x));
        }
    }
    v.insert(p, x);
    proof {
        let nv = v@;
        assert(nv =~= old_v.insert(p as int, x));
        assert(nv.remove(p as int) =~= old_v);
        vstd::seq_lib::to_multiset_remove(nv, p as int);
        assert(nv.to_multiset().count(x) > 0) by {
            vstd::seq_lib::to_multiset_contains(nv, x);
            assert(nv[p as int] == x);
        }
        assert(nv.to_multiset() =~= old_v.to_multiset().insert(x));
        assert forall|i: int, j: int| 0 <= i < j < nv.len() implies group_lt(#[trigger] nv[i], #[trigger] nv[j]) by {
            if j < p {
            } else if i < p {
                if p > 0 {
                    assert(group_lt(old_v[i], old_v[p - 1]) || i == p - 1);
                }
            }
        }
    }
}

/// The coordination groups of every island: series of at least two words
/// joined by commas or conjunctions, sorted by span and numbered in order.
pub fn coordination_groups_from_facts(
    tokens: &[Token],
    ambiguity: &AmbiguityModel,
    islands: &SyntacticIslandMap,
) -> (r: Vec<CoordinationGroup>)
    ensures
        groups_of(tokens@, ambiguity.items(), islands.islands_view(), r@),
{
    let ghost toks = tokens@;
    let ghost items = ambiguity.items();
    let ghost v = islands.islands_view();
    let isl = islands.islands();
    let mut raw: Vec<CoordinationGroup> = Vec::new();
    let mut i: usize = 0;
    while i < isl.len()
        invariant
            toks == tokens@,
            items == ambiguity.items(),
            v == islands.islands_view(),
            island_views(isl@) == v,
            i <= isl@.len(),
            groups_so_far(toks, items, v, i as int, raw@),
        decreases isl@.len() - i,
    {
        let ghost o = raw@;
        assert(isl@[i as int]@ == v[i as int]);
        collect_coordination_groups_for_island(tokens, ambiguity, &isl[i], islands, &mut raw);
        proof {
            let st0 = all_group_starts(toks, v, i as int);
            let add = island_group_starts(toks, v[i as int]).map_values(|f: int| (i as int, f));
            let st1 = all_group_starts(toks, v, i as int + 1);
            assert(st1 == st0 + add);
            assert forall|j: int| 0 <= j < raw@.len() implies is_group(
                toks,
                items,
                v,
                v[st1[j].0],
                st1[j].1,
                j,
                #[trigger] raw@[j],
            ) by {
                if j < o.len() {
                    assert(raw@[j] == o[j]);
                    assert(st1[j] == st0[j]);
                } else {
                    let k = j - o.len();
                    assert(st1[j] == add[k]);
                    assert(raw@[o.len() + k] == raw@[j]);
                }
            }
        }
        i = i + 1;
    }
    let ghost rv = raw@;
    assert(groups_so_far(toks, items, v, v.len() as int, rv));
    proof {
        assert forall|j: int| 0 <= j < rv.len() implies (#[trigger] rv[j]).id == j by {
            let st = all_group_starts(toks, v, v.len() as int);
            lemma_group_fields(toks, items, v, v[st[j].0], st[j].1, j, rv[j]);
        }
    }
    let n = raw.len();
    let mut sorted: Vec<CoordinationGroup> = Vec::new();
    let mut k: usize = 0;
    assert(sorted@ =~= rv.take(0));
    while raw.len() > 0
        invariant
            n == rv.len(),
            k + raw@.len() == n,
            raw@ == rv.subrange(k as int, n as int),
            forall|j: int| 0 <= j < rv.len() ==> (#[trigger] rv[j]).id == j,
            groups_sorted(sorted@),
            sorted@.to_multiset() == rv.take(k as int).to_multiset(),
            forall|m: int| 0 <= m < sorted@.len() ==> (#[trigger] sorted@[m]).id < k,
        decreases raw@.len(),
    {
        let x = raw.remove(0);
        assert(x == rv[k as int]);
        insert_group_sorted(&mut sorted, x);
        proof {
            assert(rv.take(k as int + 1) =~= rv.take(k as int).push(rv[k as int]));
            vstd::seq_lib::to_multiset_build(rv.take(k as int), rv[k as int]);
            assert(raw@ =~= rv.subrange(k as int + 1, n as int));
        }
        k = k + 1;
    }
    assert(rv.take(n as int) =~= rv);
    let ghost sv = sorted@;
    proof {
        vstd::seq_lib::to_multiset_len(sv);
        vstd::seq_lib::to_multiset_len(rv);
    }
    let mut out: Vec<CoordinationGroup> = Vec::new();
    let mut m: usize = 0;
    while sorted.len() > 0
        invariant
            n == sv.len(),
            m + sorted@.len() == n,
            sorted@ == sv.subrange(m as int, n as int),
            out@ == renumbered_groups(sv).take(m as int),
        decreases sorted@.len(),
    {
        let x = sorted.remove(0);
        let y = CoordinationGroup { id: m, ..x };
        let ghost o = out@;
        out.push(y);
        proof {
            assert(out@ =~= o.push(y));
            assert(renumbered_groups(sv).take(m as int + 1) =~= renumbered_groups(sv).take(m as int).push(
                renumbered_groups(sv)[m as int],
            ));
            assert(sorted@ =~= sv.subrange(m as int + 1, n as int));
        }
        m = m + 1;
    }
    assert(renumbered_groups(sv).take(n as int) =~= renumbered_groups(sv));
    assert(groups_so_far(toks, items, v, v.len() as int, rv) && sv.to_multiset() == rv.to_multiset()
        && groups_sorted(sv) && out@ == renumbered_groups(sv));
    out
}

} // verus!
