use vstd::prelude::*;
use crate::text::{Span, Token};
use crate::text::lower_seq;
use crate::readings::{copy_analyses, features_compatible, Case, MorphAnalysis, Number, PartOfSpeech};
use crate::syntax::agreement::AgreementCheck;
use crate::syntax::model::{spec_confidence_actionable, SyntaxConfidence};
use crate::syntax::relations::{
    numeral_nominal_group_candidates, relation_of_governed, relation_views, RelationView, SyntaxRelationBlocker,
    SyntaxRelationKind,
};
use crate::syntax::quantities::{
    compound_numeral_nominal_group_candidates, numeral_component_class_for_surface, spec_can_select,
    spec_numeral_class, NumeralComponentClass, spec_compound, last_governing, phrase_actionable, quantified_views, QuantifiedView,
    QuantifiedNominalGroupCandidate,
};
use crate::syntax::nominal_groups::{group_actionable, spec_governed, GovernedView, NominalGroupGovernorKind};
use crate::syntax::government::{MorphCompatibility, MorphosyntacticRole};

verus! {

broadcast use vstd::seq_lib::group_seq_properties;

/// Whether a noun can be counted by a numeral, with the class of the
/// numeral word that decided it.
#[derive(Debug, Clone, Copy, PartialEq, Eq, Structural)]
pub struct QuantityAgreementCheck {
    pub compatibility: MorphCompatibility,
    pub numeral_class: NumeralComponentClass,
}

impl QuantityAgreementCheck {
    /// The readings are known well enough to say the noun cannot be counted
    /// so.
    pub fn is_confident_rejection(&self) -> (r: bool)
        ensures
            r == (self.compatibility == MorphCompatibility::Incompatible),
    {
        self.compatibility == MorphCompatibility::Incompatible
    }
}

/// The numeral classes whose nominative and accusative forms take the noun
/// in the genitive plural.
pub open spec fn takes_genitive_plural(c: NumeralComponentClass) -> bool {
    c == NumeralComponentClass::UnitMany || c == NumeralComponentClass::Teen || c == NumeralComponentClass::Decade
        || c == NumeralComponentClass::Hundred || c == NumeralComponentClass::Thousand
        || c == NumeralComponentClass::Collective
}

/// A numeral reading in an oblique case agrees with a plural noun in that
/// case.
pub open spec fn oblique_agreement(n: MorphAnalysis, h: MorphAnalysis) -> bool {
    n.features.case matches Some(c) && c != Case::Nominative && c != Case::Accusative && h.features.case == Some(c)
        && h.features.number != Some(Number::Singular)
}

/// A numeral reading of class `c` and a noun reading fit: after "один" the
/// noun agrees in case and is singular; after "два"–"четыре" it is genitive
/// singular; after "пять" and above it is genitive plural; after a numeral
/// in an oblique case it agrees in case, in the plural.
pub open spec fn quantity_pair_fits(c: NumeralComponentClass, n: MorphAnalysis, h: MorphAnalysis) -> bool {
    if c == NumeralComponentClass::UnitOne {
        features_compatible(n.features.case, h.features.case) && h.features.number != Some(Number::Plural)
    } else if c == NumeralComponentClass::UnitPaucal {
        (h.features.case == Some(Case::Genitive) && h.features.number != Some(Number::Plural)) || oblique_agreement(
            n,
            h,
        )
    } else {
        (h.features.case == Some(Case::Genitive) && h.features.number != Some(Number::Singular)) || oblique_agreement(
            n,
            h,
        )
    }
}

/// Some numeral reading and noun reading fit.
pub open spec fn some_quantity_pair(c: NumeralComponentClass, num: Seq<MorphAnalysis>, noun: Seq<MorphAnalysis>) -> bool {
    exists|i: int, j: int|
        0 <= i < num.len() && 0 <= j < noun.len() && quantity_pair_fits(c, #[trigger] num[i], #[trigger] noun[j])
}

/// Every reading carries a case and a number.
pub open spec fn all_cased(v: Seq<MorphAnalysis>) -> bool {
    forall|j: int| 0 <= j < v.len() ==> (#[trigger] v[j]).features.case is Some && v[j].features.number is Some
}

/// Unknown when a side has no readings or the numeral class does not decide
/// the noun's form; compatible when some pair fits; incompatible when none
/// does and every noun reading has a case and a number; unknown otherwise.
pub open spec fn spec_quantity_compatibility(
    c: NumeralComponentClass,
    num: Seq<MorphAnalysis>,
    noun: Seq<MorphAnalysis>,
) -> MorphCompatibility {
    if num.len() == 0 || noun.len() == 0 || !spec_can_select(c) {
        MorphCompatibility::Unknown
    } else if some_quantity_pair(c, num, noun) {
        MorphCompatibility::Compatible
    } else if all_cased(noun) {
        MorphCompatibility::Incompatible
    } else {
        MorphCompatibility::Unknown
    }
}

fn pair_fits(c: NumeralComponentClass, n: &MorphAnalysis, h: &MorphAnalysis) -> (r: bool)
    ensures
        r == quantity_pair_fits(c, *n, *h),
{
    let oblique = match n.features.case {
        Some(nc) => nc != Case::Nominative && nc != Case::Accusative && h.features.case == Some(nc)
            && h.features.number != Some(Number::Singular),
        None => false,
    };
    match c {
        NumeralComponentClass::UnitOne => {
            let case_ok = match (n.features.case, h.features.case) {
                (Some(a), Some(b)) => a == b,
                _ => true,
            };
            case_ok && h.features.number != Some(Number::Plural)
        },
        NumeralComponentClass::UnitPaucal => (h.features.case == Some(Case::Genitive) && h.features.number != Some(
            Number::Plural,
        )) || oblique,
        _ => (h.features.case == Some(Case::Genitive) && h.features.number != Some(Number::Singular)) || oblique,
    }
}

/// The quantity check of a numeral of class `c` with readings `num` and a
/// noun with readings `noun`.
pub fn numeral_noun_agreement_check(
    c: NumeralComponentClass,
    num: &Vec<MorphAnalysis>,
    noun: &Vec<MorphAnalysis>,
) -> (r: QuantityAgreementCheck)
    ensures
        r.compatibility == spec_quantity_compatibility(c, num@, noun@),
        r.numeral_class == c,
{
    if num.len() == 0 || noun.len() == 0 || !c.can_select_governed_nominal_form() {
        return QuantityAgreementCheck { compatibility: MorphCompatibility::Unknown, numeral_class: c };
    }
    let mut i: usize = 0;
    while i < num.len()
        invariant
            spec_can_select(c),
            noun@.len() > 0,
            i <= num@.len(),
            forall|x: int, y: int|
                0 <= x < i && 0 <= y < noun@.len() ==> !quantity_pair_fits(c, #[trigger] num@[x], #[trigger] noun@[y]),
        decreases num@.len() - i,
    {
        let mut j: usize = 0;
        while j < noun.len()
            invariant
                spec_can_select(c),
                i < num@.len(),
                j <= noun@.len(),
                forall|x: int, y: int|
                    0 <= x < i && 0 <= y < noun@.len() ==> !quantity_pair_fits(c, #[trigger] num@[x], #[trigger] noun@[y]),
                forall|y: int| 0 <= y < j ==> !quantity_pair_fits(c, num@[i as int], #[trigger] noun@[y]),
            decreases noun@.len() - j,
        {
            if pair_fits(c, &num[i], &noun[j]) {
                assert(quantity_pair_fits(c, num@[i as int], noun@[j as int]));
                assert(some_quantity_pair(c, num@, noun@));
                assert(spec_can_select(c));
                return QuantityAgreementCheck { compatibility: MorphCompatibility::Compatible, numeral_class: c };
            }
            j = j + 1;
        }
        i = i + 1;
    }
    assert(!some_quantity_pair(c, num@, noun@));
    let mut k: usize = 0;
    while k < noun.len()
        invariant
            spec_can_select(c),
            num@.len() > 0,
            noun@.len() > 0,
            !some_quantity_pair(c, num@, noun@),
            k <= noun@.len(),
            forall|y: int| 0 <= y < k ==> (#[trigger] noun@[y]).features.case is Some && noun@[y].features.number is Some,
        decreases noun@.len() - k,
    {
        if noun[k].features.case.is_none() || noun[k].features.number.is_none() {
            assert(!all_cased(noun@));
            return QuantityAgreementCheck { compatibility: MorphCompatibility::Unknown, numeral_class: c };
        }
        k = k + 1;
    }
    QuantityAgreementCheck { compatibility: MorphCompatibility::Incompatible, numeral_class: c }
}

/// Whether the governing preposition allows a case of the governed noun.
#[derive(Debug, Clone, Copy, PartialEq, Eq, Structural)]
pub struct GovernmentCheck {
    pub compatibility: MorphCompatibility,
}

/// What a morphosyntactic relation checks of its terms' readings.
#[derive(Debug, Clone, Copy, PartialEq, Eq, Structural)]
pub enum MorphosyntacticConstraint {
    Agreement(AgreementCheck),
    Government(GovernmentCheck),
    Quantity(QuantityAgreementCheck),
}

/// The compatibility a constraint found.
pub open spec fn constraint_compatibility(c: MorphosyntacticConstraint) -> MorphCompatibility {
    match c {
        MorphosyntacticConstraint::Agreement(a) => a.compatibility,
        MorphosyntacticConstraint::Government(g) => g.compatibility,
        MorphosyntacticConstraint::Quantity(q) => q.compatibility,
    }
}

/// The label of a constraint: its kind, marked as a conflict when the
/// readings cannot meet it.
pub open spec fn constraint_label(c: MorphosyntacticConstraint) -> Seq<char> {
    let conflict = constraint_compatibility(c) == MorphCompatibility::Incompatible;
    match c {
        MorphosyntacticConstraint::Agreement(_) => if conflict { "agreement-conflict"@ } else { "agreement"@ },
        MorphosyntacticConstraint::Government(_) => if conflict { "government-conflict"@ } else { "government"@ },
        MorphosyntacticConstraint::Quantity(_) => if conflict { "quantity-conflict"@ } else { "quantity"@ },
    }
}

impl MorphosyntacticConstraint {
    pub fn compatibility(&self) -> (r: MorphCompatibility)
        ensures
            r == constraint_compatibility(*self),
    {
        match self {
            MorphosyntacticConstraint::Agreement(a) => a.compatibility,
            MorphosyntacticConstraint::Government(g) => g.compatibility,
            MorphosyntacticConstraint::Quantity(q) => q.compatibility,
        }
    }

    /// The readings are known well enough to say they cannot meet it.
    pub fn is_confident_rejection(&self) -> (r: bool)
        ensures
            r == (constraint_compatibility(*self) == MorphCompatibility::Incompatible),
    {
        self.compatibility() == MorphCompatibility::Incompatible
    }

    pub fn explanation_label(&self) -> (r: &'static str)
        ensures
            r@ == constraint_label(*self),
    {
        let conflict = self.is_confident_rejection();
        match self {
            MorphosyntacticConstraint::Agreement(_) => if conflict { "agreement-conflict" } else { "agreement" },
            MorphosyntacticConstraint::Government(_) => if conflict { "government-conflict" } else { "government" },
            MorphosyntacticConstraint::Quantity(_) => if conflict { "quantity-conflict" } else { "quantity" },
        }
    }
}

#[derive(Debug, Clone, Copy, PartialEq, Eq, Structural, PartialOrd, Ord, Hash)]
pub enum MorphosyntacticRelationKind {
    AttributiveAgreement,
    SubjectPredicateAgreement,
    PrepositionCaseGovernment,
    NumeralCaseNumberGovernment,
}

/// A governor and a dependent token, with what their readings are checked
/// for.
#[derive(Debug, Clone, PartialEq, Eq)]
pub struct MorphosyntacticRelation {
    pub kind: MorphosyntacticRelationKind,
    pub governor_index: usize,
    pub governor: Token,
    pub governor_role: MorphosyntacticRole,
    pub governor_analyses: Vec<MorphAnalysis>,
    pub dependent_index: usize,
    pub dependent: Token,
    pub dependent_role: MorphosyntacticRole,
    pub dependent_analyses: Vec<MorphAnalysis>,
    pub span: Span,
    pub confidence: SyntaxConfidence,
    pub blockers: Vec<SyntaxRelationBlocker>,
    pub constraint: MorphosyntacticConstraint,
}

pub struct MorphosyntacticRelationView {
    pub kind: MorphosyntacticRelationKind,
    pub governor_index: usize,
    pub governor: Token,
    pub governor_role: MorphosyntacticRole,
    pub governor_analyses: Seq<MorphAnalysis>,
    pub dependent_index: usize,
    pub dependent: Token,
    pub dependent_role: MorphosyntacticRole,
    pub dependent_analyses: Seq<MorphAnalysis>,
    pub span: Span,
    pub confidence: SyntaxConfidence,
    pub blockers: Seq<SyntaxRelationBlocker>,
    pub constraint: MorphosyntacticConstraint,
}

impl View for MorphosyntacticRelation {
    type V = MorphosyntacticRelationView;

    open spec fn view(&self) -> MorphosyntacticRelationView {
        MorphosyntacticRelationView {
            kind: self.kind,
            governor_index: self.governor_index,
            governor: self.governor,
            governor_role: self.governor_role,
            governor_analyses: self.governor_analyses@,
            dependent_index: self.dependent_index,
            dependent: self.dependent,
            dependent_role: self.dependent_role,
            dependent_analyses: self.dependent_analyses@,
            span: self.span,
            confidence: self.confidence,
            blockers: self.blockers@,
            constraint: self.constraint,
        }
    }
}

impl MorphosyntacticRelation {
    /// Trusted, with nothing blocking it.
    pub fn is_actionable(&self) -> (r: bool)
        ensures
            r == (spec_confidence_actionable(self.confidence) && self.blockers@.len() == 0),
    {
        self.confidence.is_actionable() && self.blockers.len() == 0
    }

    /// Actionable, and its readings cannot meet the constraint.
    pub fn is_confident_rejection(&self) -> (r: bool)
        ensures
            r == (spec_confidence_actionable(self.confidence) && self.blockers@.len() == 0
                && constraint_compatibility(self.constraint) == MorphCompatibility::Incompatible),
    {
        self.is_actionable() && self.constraint.is_confident_rejection()
    }
}

pub open spec fn morphosyntactic_views(v: Seq<MorphosyntacticRelation>) -> Seq<MorphosyntacticRelationView> {
    v.map_values(|r: MorphosyntacticRelation| r@)
}

/// A trusted relation is weakened when its check cannot tell.
pub open spec fn downgraded(c: SyntaxConfidence, m: MorphCompatibility) -> SyntaxConfidence {
    if m == MorphCompatibility::Unknown && spec_confidence_actionable(c) {
        SyntaxConfidence::Weak
    } else {
        c
    }
}

/// The quantity relation between numeral token `gi` and noun token `di`.
pub open spec fn quantity_relation(
    rs: Seq<Vec<MorphAnalysis>>,
    gi: int,
    gtok: Token,
    di: int,
    dtok: Token,
    span: Span,
    confidence: SyntaxConfidence,
    blockers: Seq<SyntaxRelationBlocker>,
) -> MorphosyntacticRelationView {
    let c = spec_numeral_class(lower_seq(gtok.text@));
    let m = spec_quantity_compatibility(c, rs[gi]@, rs[di]@);
    MorphosyntacticRelationView {
        kind: MorphosyntacticRelationKind::NumeralCaseNumberGovernment,
        governor_index: gi as usize,
        governor: gtok,
        governor_role: MorphosyntacticRole::Quantifier,
        governor_analyses: rs[gi]@,
        dependent_index: di as usize,
        dependent: dtok,
        dependent_role: MorphosyntacticRole::QuantifiedHead,
        dependent_analyses: rs[di]@,
        span,
        confidence: downgraded(confidence, m),
        blockers,
        constraint: MorphosyntacticConstraint::Quantity(QuantityAgreementCheck { compatibility: m, numeral_class: c }),
    }
}

pub open spec fn quantified_actionable(q: QuantifiedView) -> bool {
    spec_confidence_actionable(q.confidence) && q.blockers.len() == 0 && phrase_actionable(q.numeral_phrase)
        && group_actionable(q.group)
}

/// The governing component of a compound candidate, when it has one.
pub open spec fn governing_of(q: QuantifiedView) -> Option<int> {
    last_governing(q.numeral_phrase.components, q.numeral_phrase.components.len() as int)
}

/// An actionable compound candidate covers the pair of its governing
/// component and its group's head.
pub open spec fn subsumed_pair(cq: Seq<QuantifiedView>, l: int, r: int) -> bool {
    exists|k: int|
        0 <= k < cq.len() && quantified_actionable(#[trigger] cq[k]) && (governing_of(cq[k]) matches Some(c)
            && cq[k].numeral_phrase.components[c].token_index == l) && cq[k].group.end_token == r
}

/// Another actionable compound with more components covers the candidate's
/// numeral phrase and ends at the same head.
pub open spec fn subsumed_by_longer(q: QuantifiedView, cq: Seq<QuantifiedView>) -> bool {
    exists|k: int|
        0 <= k < cq.len() && quantified_actionable(#[trigger] cq[k]) && cq[k].numeral_phrase.components.len()
            > q.numeral_phrase.components.len() && cq[k].numeral_phrase.start_token <= q.numeral_phrase.start_token
            && cq[k].numeral_phrase.end_token >= q.numeral_phrase.end_token && cq[k].group.end_token
            == q.group.end_token
}

/// Index of the first token from `k` on with the span.
pub open spec fn token_by_span(toks: Seq<Token>, span: Span, k: int) -> Option<int>
    decreases toks.len() - k,
{
    if k < 0 || k >= toks.len() {
        None
    } else if toks[k].span == span {
        Some(k)
    } else {
        token_by_span(toks, span, k + 1)
    }
}

pub proof fn lemma_token_by_span(toks: Seq<Token>, span: Span, k: int)
    ensures
        token_by_span(toks, span, k) matches Some(j) ==> 0 <= j < toks.len() && j >= k,
    decreases toks.len() - k,
{
    if 0 <= k < toks.len() && toks[k].span != span {
        lemma_token_by_span(toks, span, k + 1);
    }
}

/// The relations of the first `k` simple numeral-group candidates whose
/// pair no actionable compound covers.
pub open spec fn simple_relations(
    toks: Seq<Token>,
    rs: Seq<Vec<MorphAnalysis>>,
    cq: Seq<QuantifiedView>,
    simple: Seq<RelationView>,
    k: int,
) -> Seq<MorphosyntacticRelationView>
    decreases k,
{
    if k <= 0 || k > simple.len() {
        Seq::empty()
    } else {
        let prev = simple_relations(toks, rs, cq, simple, k - 1);
        let c = simple[k - 1];
        match (token_by_span(toks, c.left.span, 0), token_by_span(toks, c.right.span, 0)) {
            (Some(l), Some(r)) => if subsumed_pair(cq, l, r) {
                prev
            } else {
                prev.push(quantity_relation(rs, l, c.left, r, c.right, c.span, c.confidence, c.blockers))
            },
            _ => prev,
        }
    }
}

/// The relations of the first `k` compound candidates that are actionable,
/// not covered by a longer one, and have a governing component.
pub open spec fn compound_relations(toks: Seq<Token>, rs: Seq<Vec<MorphAnalysis>>, cq: Seq<QuantifiedView>, k: int) -> Seq<
    MorphosyntacticRelationView,
>
    decreases k,
{
    if k <= 0 || k > cq.len() {
        Seq::empty()
    } else {
        let prev = compound_relations(toks, rs, cq, k - 1);
        let q = cq[k - 1];
        if !quantified_actionable(q) || subsumed_by_longer(q, cq) {
            prev
        } else {
            match governing_of(q) {
                Some(c) => if q.numeral_phrase.components[c].token_index < rs.len() && q.group.end_token < rs.len() {
                    prev.push(
                    quantity_relation(
                        rs,
                        q.numeral_phrase.components[c].token_index as int,
                        q.numeral_phrase.components[c].token,
                        q.group.end_token as int,
                        q.group.head,
                        q.span,
                        q.confidence,
                        q.blockers,
                    ),
                    )
                } else {
                    prev
                },
                None => prev,
            }
        }
    }
}

pub(crate) fn token_index_by_span(tokens: &[Token], span: Span) -> (r: Option<usize>)
    ensures
        r == (match token_by_span(tokens@, span, 0) {
            Some(j) => Some(j as usize),
            None => None,
        }),
{
    let mut k: usize = 0;
    while k < tokens.len() && tokens[k].span != span
        invariant
            k <= tokens@.len(),
            token_by_span(tokens@, span, 0) == token_by_span(tokens@, span, k as int),
        decreases tokens@.len() - k,
    {
        k = k + 1;
    }
    if k < tokens.len() {
        Some(k)
    } else {
        None
    }
}

fn is_subsumed_pair(cands: &Vec<QuantifiedNominalGroupCandidate>, l: usize, r: usize) -> (b: bool)
    ensures
        b == subsumed_pair(quantified_views(cands@), l as int, r as int),
{
    let ghost cq = quantified_views(cands@);
    let mut k: usize = 0;
    while k < cands.len()
        invariant
            cq == quantified_views(cands@),
            k <= cands@.len(),
            forall|j: int|
                0 <= j < k ==> !(quantified_actionable(#[trigger] cq[j]) && (governing_of(cq[j]) matches Some(c)
                    && cq[j].numeral_phrase.components[c].token_index == l) && cq[j].group.end_token == r),
        decreases cands@.len() - k,
    {
        let c = &cands[k];
        assert(cq[k as int] == c@);
        if c.is_actionable() && c.group.end_token == r {
            match c.numeral_phrase.governing_component() {
                Some(g) => {
                    if g.token_index == l {
                        return true;
                    }
                },
                None => {},
            }
        }
        k = k + 1;
    }
    false
}

fn is_subsumed_by_longer(q: &QuantifiedNominalGroupCandidate, cands: &Vec<QuantifiedNominalGroupCandidate>) -> (b: bool)
    ensures
        b == subsumed_by_longer(q@, quantified_views(cands@)),
{
    let ghost cq = quantified_views(cands@);
    let mut k: usize = 0;
    while k < cands.len()
        invariant
            cq == quantified_views(cands@),
            k <= cands@.len(),
            forall|j: int|
                0 <= j < k ==> !(quantified_actionable(#[trigger] cq[j]) && cq[j].numeral_phrase.components.len()
                    > q@.numeral_phrase.components.len() && cq[j].numeral_phrase.start_token
                    <= q@.numeral_phrase.start_token && cq[j].numeral_phrase.end_token >= q@.numeral_phrase.end_token
                    && cq[j].group.end_token == q@.group.end_token),
        decreases cands@.len() - k,
    {
        let o = &cands[k];
        assert(cq[k as int] == o@);
        if o.is_actionable() && o.numeral_phrase.components.len() > q.numeral_phrase.components.len()
            && o.numeral_phrase.start_token <= q.numeral_phrase.start_token && o.numeral_phrase.end_token
            >= q.numeral_phrase.end_token && o.group.end_token == q.group.end_token {
            return true;
        }
        k = k + 1;
    }
    false
}

pub(crate) fn copy_relation_blockers(v: &Vec<SyntaxRelationBlocker>) -> (r: Vec<SyntaxRelationBlocker>)
    ensures
        r@ == v@,
{
    let mut out: Vec<SyntaxRelationBlocker> = Vec::new();
    let mut i: usize = 0;
    while i < v.len()
        invariant
            i <= v@.len(),
            out@ == v@.take(i as int),
        decreases v@.len() - i,
    {
        out.push(v[i]);
        i = i + 1;
    }
    assert(v@.take(v@.len() as int) =~= v@);
    out
}

fn make_relation(
    analyses: &[Vec<MorphAnalysis>],
    gi: usize,
    gtok: &Token,
    di: usize,
    dtok: &Token,
    span: Span,
    confidence: SyntaxConfidence,
    blockers: &Vec<SyntaxRelationBlocker>,
) -> (r: MorphosyntacticRelation)
    requires
        gi < analyses@.len(),
        di < analyses@.len(),
    ensures
        r@ == quantity_relation(
            analyses@,
            gi as int,
            *gtok,
            di as int,
            *dtok,
            span,
            confidence,
            blockers@,
        ),
{
    let left = copy_analyses(analyses[gi].as_slice());
    let right = copy_analyses(analyses[di].as_slice());
    let class = numeral_component_class_for_surface(gtok.text.as_str());
    let check = numeral_noun_agreement_check(class, &left, &right);
    let conf = if check.compatibility == MorphCompatibility::Unknown && confidence.is_actionable() {
        SyntaxConfidence::Weak
    } else {
        confidence
    };
    MorphosyntacticRelation {
        kind: MorphosyntacticRelationKind::NumeralCaseNumberGovernment,
        governor_index: gi,
        governor: gtok.duplicate(),
        governor_role: MorphosyntacticRole::Quantifier,
        governor_analyses: left,
        dependent_index: di,
        dependent: dtok.duplicate(),
        dependent_role: MorphosyntacticRole::QuantifiedHead,
        dependent_analyses: right,
        span,
        confidence: conf,
        blockers: copy_relation_blockers(blockers),
        constraint: MorphosyntacticConstraint::Quantity(check),
    }
}

/// The compound numeral candidates of the text, with up to three numeral
/// words and three modifiers.
pub open spec fn spec_compound_of(toks: Seq<Token>) -> Seq<QuantifiedView> {
    spec_compound(toks, 3, 3, toks.len() as int)
}

/// The simple numeral-group candidates of the text.
pub open spec fn spec_simple_of(toks: Seq<Token>) -> Seq<RelationView> {
    spec_governed(toks, NominalGroupGovernorKind::Numeral, None, 3, toks.len() as int).map_values(
        |g: GovernedView| relation_of_governed(SyntaxRelationKind::NumeralNominalGroup, g),
    )
}

/// The numeral-noun relations of the text `toks` with readings `rs`: those
/// of the simple candidates that no actionable compound covers, then those
/// of the actionable compounds that no longer compound covers.
pub open spec fn spec_numeral_government_relations(toks: Seq<Token>, rs: Seq<Vec<MorphAnalysis>>) -> Seq<
    MorphosyntacticRelationView,
> {
    simple_relations(toks, rs, spec_compound_of(toks), spec_simple_of(toks), spec_simple_of(toks).len() as int)
        + compound_relations(toks, rs, spec_compound_of(toks), spec_compound_of(toks).len() as int)
}

/// Numeral-noun relations: one for each simple numeral-group candidate
/// whose pair no actionable compound covers, then one for each actionable
/// compound that no longer compound covers, between its governing component
/// and its head; each carries the quantity check of the readings.
pub fn numeral_government_relations(tokens: &[Token], analyses: &[Vec<MorphAnalysis>]) -> (r: Vec<
    MorphosyntacticRelation,
>)
    requires
        analyses@.len() == tokens@.len(),
    ensures
        morphosyntactic_views(r@) == spec_numeral_government_relations(tokens@, analyses@),
{
    let compound = compound_numeral_nominal_group_candidates(tokens, 3, 3);
    let ghost cq = quantified_views(compound@);
    let simple = numeral_nominal_group_candidates(tokens);
    let ghost sv = relation_views(simple@);
    let mut out: Vec<MorphosyntacticRelation> = Vec::new();
    let ntok = tokens.len();
    let mut i: usize = 0;
    while i < simple.len()
        invariant
            ntok == tokens@.len(),
            cq == quantified_views(compound@),
            sv == relation_views(simple@),
            analyses@.len() == tokens@.len(),
            i <= simple@.len(),
            morphosyntactic_views(out@) == simple_relations(tokens@, analyses@, cq, sv, i as int),
        decreases simple@.len() - i,
    {
        let c = &simple[i];
        assert(sv[i as int] == c@);
        assert(sv.len() == simple@.len());
        let ghost o = morphosyntactic_views(out@);
        let ghost prev = simple_relations(tokens@, analyses@, cq, sv, i as int);
        assert(o == prev);
        let li = token_index_by_span(tokens, c.left.span);
        let ri = token_index_by_span(tokens, c.right.span);
        proof {
            lemma_token_by_span(tokens@, c.left.span, 0);
            lemma_token_by_span(tokens@, c.right.span, 0);
            match token_by_span(tokens@, c.left.span, 0) {
                Some(j) => assert(li == Some(j as usize)),
                None => assert(li is None),
            }
            match token_by_span(tokens@, c.right.span, 0) {
                Some(j) => assert(ri == Some(j as usize)),
                None => assert(ri is None),
            }
        }
        match (li, ri) {
            (Some(l), Some(r)) => {
                proof {
                    assert(sv[i as int].left == c.left && sv[i as int].right == c.right);
                    assert(token_by_span(tokens@, sv[i as int].left.span, 0) == Some(l as int));
                    assert(token_by_span(tokens@, sv[i as int].right.span, 0) == Some(r as int));
                }
                if !is_subsumed_pair(&compound, l, r) {
                    let rel = make_relation(analyses, l, &c.left, r, &c.right, c.span, c.confidence, &c.blockers);
                    out.push(rel);
                    assert(morphosyntactic_views(out@) =~= o.push(rel@));
                    assert(rel@ == quantity_relation(analyses@, l as int, sv[i as int].left, r as int, sv[i as int].right, sv[i as int].span, sv[i as int].confidence, sv[i as int].blockers));
                    assert(simple_relations(tokens@, analyses@, cq, sv, i as int + 1) == prev.push(rel@));
                } else {
                    assert(simple_relations(tokens@, analyses@, cq, sv, i as int + 1) == prev);
                }
            },
            _ => {
                assert(simple_relations(tokens@, analyses@, cq, sv, i as int + 1) == prev);
            },
        }
        i = i + 1;
    }
    let ghost first = morphosyntactic_views(out@);
    let mut k: usize = 0;
    while k < compound.len()
        invariant
            cq == quantified_views(compound@),
            analyses@.len() == tokens@.len(),
            k <= compound@.len(),
            first == simple_relations(tokens@, analyses@, cq, sv, sv.len() as int),
            morphosyntactic_views(out@) == first + compound_relations(tokens@, analyses@, cq, k as int),
        decreases compound@.len() - k,
    {
        let q = &compound[k];
        assert(cq[k as int] == q@);
        let ghost o = morphosyntactic_views(out@);
        if q.is_actionable() && !is_subsumed_by_longer(q, &compound) {
            match q.numeral_phrase.governing_component() {
                Some(g) => if g.token_index < analyses.len() && q.group.end_token < analyses.len() {
                    let rel = make_relation(
                        analyses,
                        g.token_index,
                        &g.token,
                        q.group.end_token,
                        &q.group.head,
                        q.span,
                        q.confidence,
                        &q.blockers,
                    );
                    out.push(rel);
                    assert(morphosyntactic_views(out@) =~= o.push(rel@));
                },
                None => {},
            }
        }
        k = k + 1;
    }
    out
}

} // verus!
