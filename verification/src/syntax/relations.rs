use vstd::prelude::*;
use crate::text::{Span, Token, TokenKind};
use crate::unicode::str_chars;
use crate::syntax::model::{spec_confidence_actionable, SyntaxConfidence};
use crate::syntax::markers::{lower_text, marker_set_contains, set_contains};
use crate::syntax::nominal_groups::{
    copy_blockers, governed_views, numeral_governed_nominal_group_candidates,
    preposition_governed_nominal_group_candidates, spec_governed, GovernedNominalGroupCandidate, GovernedView,
    NominalGroupGovernorKind,
};

verus! {

broadcast use vstd::seq_lib::group_seq_properties;

#[derive(Debug, Clone, Copy, PartialEq, Eq, Structural, PartialOrd, Ord, Hash)]
pub enum SyntaxRelationKind {
    ModifierHead,
    SubjectPredicate,
    PrepositionGovernment,
    PrepositionNominalGroup,
    NumeralNoun,
    NumeralNominalGroup,
}

#[derive(Debug, Clone, Copy, PartialEq, Eq, Structural, PartialOrd, Ord, Hash)]
pub enum SyntaxRelationBlocker {
    PunctuationBetween,
    SentenceBoundaryBetween,
    NewlineBetween,
    AmbiguousMorphology,
    UnknownMorphology,
    Coordination,
}

/// The blockers in declaration order, which their derived `Ord` follows.
pub open spec fn all_blockers() -> Seq<SyntaxRelationBlocker> {
    seq![
        SyntaxRelationBlocker::PunctuationBetween,
        SyntaxRelationBlocker::SentenceBoundaryBetween,
        SyntaxRelationBlocker::NewlineBetween,
        SyntaxRelationBlocker::AmbiguousMorphology,
        SyntaxRelationBlocker::UnknownMorphology,
        SyntaxRelationBlocker::Coordination,
    ]
}

/// The first `k` blockers of the order that are in `set`.
pub open spec fn blockers_in(set: Set<SyntaxRelationBlocker>, k: int) -> Seq<SyntaxRelationBlocker>
    decreases k,
{
    if k <= 0 {
        Seq::empty()
    } else if set.contains(all_blockers()[k - 1]) {
        blockers_in(set, k - 1).push(all_blockers()[k - 1])
    } else {
        blockers_in(set, k - 1)
    }
}

/// The members of `set` in ascending order, each once.
pub open spec fn sorted_blockers(set: Set<SyntaxRelationBlocker>) -> Seq<SyntaxRelationBlocker> {
    blockers_in(set, 6)
}

fn contains_blocker(v: &[SyntaxRelationBlocker], b: SyntaxRelationBlocker) -> (r: bool)
    ensures
        r == v@.contains(b),
{
    let mut i: usize = 0;
    while i < v.len()
        invariant
            i <= v@.len(),
            forall|j: int| 0 <= j < i ==> v@[j] != b,
        decreases v@.len() - i,
    {
        if v[i] == b {
            return true;
        }
        i = i + 1;
    }
    false
}

/// The union of two blocker lists, sorted and without repeats.
pub fn merge_blockers(left: Vec<SyntaxRelationBlocker>, right: Vec<SyntaxRelationBlocker>) -> (r: Vec<SyntaxRelationBlocker>)
    ensures
        r@ == sorted_blockers(left@.to_set() + right@.to_set()),
{
    let ghost set = left@.to_set() + right@.to_set();
    let order: [SyntaxRelationBlocker; 6] = [
        SyntaxRelationBlocker::PunctuationBetween,
        SyntaxRelationBlocker::SentenceBoundaryBetween,
        SyntaxRelationBlocker::NewlineBetween,
        SyntaxRelationBlocker::AmbiguousMorphology,
        SyntaxRelationBlocker::UnknownMorphology,
        SyntaxRelationBlocker::Coordination,
    ];
    assert(order@ =~= all_blockers());
    let mut out: Vec<SyntaxRelationBlocker> = Vec::new();
    let mut i: usize = 0;
    while i < 6
        invariant
            i <= 6,
            order@ == all_blockers(),
            set == left@.to_set() + right@.to_set(),
            out@ == blockers_in(set, i as int),
        decreases 6 - i,
    {
        let b = order[i];
        let keep = contains_blocker(left.as_slice(), b) || contains_blocker(right.as_slice(), b);
        assert(keep == set.contains(b));
        if keep {
            out.push(b);
        }
        i = i + 1;
    }
    out
}

/// Whether the text holds a line feed or a carriage return.
pub open spec fn has_line_break(s: Seq<char>) -> bool {
    exists|i: int| 0 <= i < s.len() && (s[i] == '\n' || s[i] == '\r')
}

pub open spec fn spec_whitespace_blockers(s: Seq<char>) -> Seq<SyntaxRelationBlocker> {
    if has_line_break(s) {
        seq![SyntaxRelationBlocker::NewlineBetween]
    } else {
        Seq::empty()
    }
}

/// A gap of white space blocks a relation when it breaks the line.
pub fn whitespace_blockers(value: &str) -> (r: Vec<SyntaxRelationBlocker>)
    ensures
        r@ == spec_whitespace_blockers(value@),
{
    let cs = str_chars(value);
    let mut i: usize = 0;
    while i < cs.len() && !(cs[i] == '\n' || cs[i] == '\r')
        invariant
            cs@ == value@,
            i <= cs@.len(),
            forall|j: int| 0 <= j < i ==> !(cs@[j] == '\n' || cs@[j] == '\r'),
        decreases cs@.len() - i,
    {
        i = i + 1;
    }
    let mut out: Vec<SyntaxRelationBlocker> = Vec::new();
    if i < cs.len() {
        out.push(SyntaxRelationBlocker::NewlineBetween);
        assert(out@ =~= seq![SyntaxRelationBlocker::NewlineBetween]);
    } else {
        assert(out@ =~= Seq::<SyntaxRelationBlocker>::empty());
    }
    out
}

pub open spec fn confidence_for(bs: Seq<SyntaxRelationBlocker>) -> SyntaxConfidence {
    if bs.len() == 0 {
        SyntaxConfidence::Strong
    } else {
        SyntaxConfidence::Ambiguous
    }
}

/// Strong without blockers, ambiguous with any.
pub fn confidence_from_blockers(blockers: &[SyntaxRelationBlocker]) -> (r: SyntaxConfidence)
    ensures
        r == confidence_for(blockers@),
{
    if blockers.len() == 0 {
        SyntaxConfidence::Strong
    } else {
        SyntaxConfidence::Ambiguous
    }
}

/// A possible syntactic relation between two word tokens.
#[derive(Debug, Clone, PartialEq, Eq)]
pub struct SyntaxRelationCandidate {
    pub kind: SyntaxRelationKind,
    pub left: Token,
    pub right: Token,
    pub span: Span,
    pub confidence: SyntaxConfidence,
    pub blockers: Vec<SyntaxRelationBlocker>,
}

pub struct RelationView {
    pub kind: SyntaxRelationKind,
    pub left: Token,
    pub right: Token,
    pub span: Span,
    pub confidence: SyntaxConfidence,
    pub blockers: Seq<SyntaxRelationBlocker>,
}

impl View for SyntaxRelationCandidate {
    type V = RelationView;

    open spec fn view(&self) -> RelationView {
        RelationView {
            kind: self.kind,
            left: self.left,
            right: self.right,
            span: self.span,
            confidence: self.confidence,
            blockers: self.blockers@,
        }
    }
}

pub open spec fn relation_views(v: Seq<SyntaxRelationCandidate>) -> Seq<RelationView> {
    v.map_values(|c: SyntaxRelationCandidate| c@)
}

impl SyntaxRelationCandidate {
    pub fn is_actionable(&self) -> (r: bool)
        ensures
            r == (spec_confidence_actionable(self.confidence) && self.blockers@.len() == 0),
    {
        self.confidence.is_actionable() && self.blockers.len() == 0
    }
}

/// The relation between two adjacent words separated by the gap `gap`.
pub open spec fn relation_of(kind: SyntaxRelationKind, left: Token, gap: Token, right: Token) -> RelationView {
    let bs = spec_whitespace_blockers(gap.text@);
    RelationView {
        kind,
        left,
        right,
        span: Span { start: left.span.start, end: right.span.end },
        confidence: confidence_for(bs),
        blockers: bs,
    }
}

/// The left word passes the filter: any word, or one whose lowercase form
/// is in `preps`.
pub open spec fn left_passes(t: Token, preps: Option<Seq<String>>) -> bool {
    match preps {
        None => true,
        Some(ms) => set_contains(ms, lower_text(t)),
    }
}

/// Word, white space, word at `i..i+3`, with the left word passing the filter.
pub open spec fn adjacent_at(toks: Seq<Token>, i: int, preps: Option<Seq<String>>) -> bool {
    &&& 0 <= i && i + 2 < toks.len()
    &&& toks[i].kind == TokenKind::Word
    &&& toks[i + 1].kind == TokenKind::Whitespace
    &&& toks[i + 2].kind == TokenKind::Word
    &&& left_passes(toks[i], preps)
}

/// The relations of the windows starting before `k`, in order.
pub open spec fn spec_adjacent(toks: Seq<Token>, kind: SyntaxRelationKind, preps: Option<Seq<String>>, k: int) -> Seq<RelationView>
    decreases k,
{
    if k <= 0 {
        Seq::empty()
    } else {
        let prev = spec_adjacent(toks, kind, preps, k - 1);
        if adjacent_at(toks, k - 1, preps) {
            prev.push(relation_of(kind, toks[k - 1], toks[k], toks[k + 1]))
        } else {
            prev
        }
    }
}

pub open spec fn spec_adjacent_all(toks: Seq<Token>, kind: SyntaxRelationKind, preps: Option<Seq<String>>) -> Seq<RelationView> {
    spec_adjacent(toks, kind, preps, toks.len() as int)
}

fn relation_candidate(kind: SyntaxRelationKind, left: &Token, gap: &Token, right: &Token) -> (r: SyntaxRelationCandidate)
    ensures
        r@ == relation_of(kind, *left, *gap, *right),
{
    let blockers = whitespace_blockers(gap.text.as_str());
    let confidence = confidence_from_blockers(blockers.as_slice());
    SyntaxRelationCandidate {
        kind,
        left: left.duplicate(),
        right: right.duplicate(),
        span: Span::new(left.span.start, right.span.end),
        confidence,
        blockers,
    }
}

fn left_filter(t: &Token, preps: Option<&[String]>) -> (r: bool)
    ensures
        r == left_passes(*t, match preps {
            None => None,
            Some(p) => Some(p@),
        }),
{
    match preps {
        None => true,
        Some(p) => {
            let c = str_chars(t.text.as_str());
            let l = crate::text::lower_chars(c.as_slice());
            marker_set_contains(p, l.as_slice())
        },
    }
}

pub open spec fn opt_view(p: Option<&[String]>) -> Option<Seq<String>> {
    match p {
        None => None,
        Some(x) => Some(x@),
    }
}

fn adjacent_filtered_word_relation_candidates(
    tokens: &[Token],
    kind: SyntaxRelationKind,
    preps: Option<&[String]>,
) -> (r: Vec<SyntaxRelationCandidate>)
    ensures
        relation_views(r@) == spec_adjacent_all(tokens@, kind, opt_view(preps)),
{
    let n = tokens.len();
    let mut out: Vec<SyntaxRelationCandidate> = Vec::new();
    let mut i: usize = 0;
    while i < n
        invariant
            n == tokens@.len(),
            i <= n,
            relation_views(out@) == spec_adjacent(tokens@, kind, opt_view(preps), i as int),
        decreases n - i,
    {
        if n - i > 2 && tokens[i].kind == TokenKind::Word && tokens[i + 1].kind == TokenKind::Whitespace
            && tokens[i + 2].kind == TokenKind::Word && left_filter(&tokens[i], preps) {
            let c = relation_candidate(kind, &tokens[i], &tokens[i + 1], &tokens[i + 2]);
            out.push(c);
            proof {
                assert(relation_views(out@) =~= spec_adjacent(tokens@, kind, opt_view(preps), i as int + 1));
            }
        }
        i = i + 1;
    }
    out
}

/// Adjacent word pairs whose left word is one of the given prepositions.
pub fn preposition_government_candidates(tokens: &[Token], prepositions: &[String]) -> (r: Vec<SyntaxRelationCandidate>)
    ensures
        relation_views(r@) == spec_adjacent_all(
            tokens@,
            SyntaxRelationKind::PrepositionGovernment,
            Some(prepositions@),
        ),
{
    adjacent_filtered_word_relation_candidates(tokens, SyntaxRelationKind::PrepositionGovernment, Some(prepositions))
}

/// Every pair of words separated only by white space, as a numeral-noun
/// candidate.
pub fn adjacent_numeral_noun_candidates(tokens: &[Token]) -> (r: Vec<SyntaxRelationCandidate>)
    ensures
        relation_views(r@) == spec_adjacent_all(tokens@, SyntaxRelationKind::NumeralNoun, None),
{
    adjacent_filtered_word_relation_candidates(tokens, SyntaxRelationKind::NumeralNoun, None)
}

/// Every pair of words separated only by white space, as a
/// subject-predicate candidate.
pub fn adjacent_subject_predicate_candidates(tokens: &[Token]) -> (r: Vec<SyntaxRelationCandidate>)
    ensures
        relation_views(r@) == spec_adjacent_all(tokens@, SyntaxRelationKind::SubjectPredicate, None),
{
    adjacent_filtered_word_relation_candidates(tokens, SyntaxRelationKind::SubjectPredicate, None)
}

/// Every pair of words separated only by white space, as a modifier-head
/// candidate.
pub fn adjacent_modifier_head_candidates(tokens: &[Token]) -> (r: Vec<SyntaxRelationCandidate>)
    ensures
        relation_views(r@) == spec_adjacent_all(tokens@, SyntaxRelationKind::ModifierHead, None),
{
    adjacent_filtered_word_relation_candidates(tokens, SyntaxRelationKind::ModifierHead, None)
}

/// The relation between a governor and the head of the group it governs.
pub open spec fn relation_of_governed(kind: SyntaxRelationKind, g: GovernedView) -> RelationView {
    RelationView {
        kind,
        left: g.governor,
        right: g.group.head,
        span: g.span,
        confidence: g.confidence,
        blockers: g.blockers,
    }
}

fn relations_from_governed(kind: SyntaxRelationKind, gs: &Vec<GovernedNominalGroupCandidate>) -> (r: Vec<SyntaxRelationCandidate>)
    ensures
        relation_views(r@) == governed_views(gs@).map_values(|g: GovernedView| relation_of_governed(kind, g)),
{
    let mut out: Vec<SyntaxRelationCandidate> = Vec::new();
    let mut i: usize = 0;
    while i < gs.len()
        invariant
            i <= gs@.len(),
            relation_views(out@) == governed_views(gs@.take(i as int)).map_values(
                |g: GovernedView| relation_of_governed(kind, g),
            ),
        decreases gs@.len() - i,
    {
        let g = &gs[i];
        let c = SyntaxRelationCandidate {
            kind,
            left: g.governor.duplicate(),
            right: g.group.head.duplicate(),
            span: g.span,
            confidence: g.confidence,
            blockers: copy_blockers(&g.blockers),
        };
        let ghost o = out@;
        out.push(c);
        proof {
            assert(gs@.take(i as int + 1) =~= gs@.take(i as int).push(gs@[i as int]));
            assert(relation_views(out@) =~= relation_views(o).push(c@));
            assert(governed_views(gs@.take(i as int + 1)).map_values(|g: GovernedView| relation_of_governed(kind, g))
                =~= governed_views(gs@.take(i as int)).map_values(|g: GovernedView| relation_of_governed(kind, g)).push(
                relation_of_governed(kind, gs@[i as int]@),
            ));
        }
        i = i + 1;
    }
    assert(gs@.take(gs@.len() as int) =~= gs@);
    out
}

/// Relations between one of the prepositions and the head of a following
/// group of up to three modifiers.
pub fn preposition_nominal_group_candidates(tokens: &[Token], prepositions: &[String]) -> (r: Vec<SyntaxRelationCandidate>)
    ensures
        relation_views(r@) == spec_governed(
            tokens@,
            NominalGroupGovernorKind::Preposition,
            Some(prepositions@),
            3,
            tokens@.len() as int,
        ).map_values(|g: GovernedView| relation_of_governed(SyntaxRelationKind::PrepositionNominalGroup, g)),
{
    let gs = preposition_governed_nominal_group_candidates(tokens, prepositions, 3);
    relations_from_governed(SyntaxRelationKind::PrepositionNominalGroup, &gs)
}

/// Relations between any word, read as a numeral, and the head of a
/// following group of up to three modifiers.
pub fn numeral_nominal_group_candidates(tokens: &[Token]) -> (r: Vec<SyntaxRelationCandidate>)
    ensures
        relation_views(r@) == spec_governed(tokens@, NominalGroupGovernorKind::Numeral, None, 3, tokens@.len() as int).map_values(
            |g: GovernedView| relation_of_governed(SyntaxRelationKind::NumeralNominalGroup, g),
        ),
{
    let gs = numeral_governed_nominal_group_candidates(tokens, 3);
    relations_from_governed(SyntaxRelationKind::NumeralNominalGroup, &gs)
}

} // verus!
