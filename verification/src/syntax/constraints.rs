use vstd::prelude::*;
use crate::text::{lower_ru, lower_seq, Token, TokenKind};
use crate::readings::{
    can_agree_as_adj_noun, copy_analyses, is_complete_for_adj_noun, spec_can_agree_as_adj_noun,
    spec_can_modify_noun, spec_complete_for_adj_noun, AdjectiveForm, Case, MorphAnalysis, MorphFeatures, Number,
    PartOfSpeech, VerbForm,
};
use crate::syntax::punctuation::join_text;
use crate::syntax::coordination::{first_non_ws, lemma_first_non_ws};
use crate::unicode::{chars_eq, str_chars};
use crate::syntax::disambiguation::{DisambiguationConstraint, DisambiguationTrace, ReadingElimination};

verus! {

broadcast use vstd::seq_lib::group_seq_properties;

/// A preposition and the cases it governs.
#[derive(Debug, Clone, PartialEq, Eq)]
pub struct PrepositionGovernmentEntry {
    pub preposition: String,
    pub allowed_cases: Vec<Case>,
}

pub open spec fn case_tag(c: Case) -> Seq<char> {
    match c {
        Case::Nominative => "nom"@,
        Case::Genitive => "gen"@,
        Case::Dative => "dat"@,
        Case::Accusative => "acc"@,
        Case::Instrumental => "ins"@,
        Case::Prepositional => "loc"@,
    }
}

fn case_tag_str(c: Case) -> (r: &'static str)
    ensures
        r@ == case_tag(c),
{
    match c {
        Case::Nominative => "nom",
        Case::Genitive => "gen",
        Case::Dative => "dat",
        Case::Accusative => "acc",
        Case::Instrumental => "ins",
        Case::Prepositional => "loc",
    }
}

pub open spec fn number_tag(n: Number) -> Seq<char> {
    match n {
        Number::Singular => "sing"@,
        Number::Plural => "plur"@,
    }
}

fn number_tag_str(n: Number) -> (r: &'static str)
    ensures
        r@ == number_tag(n),
{
    match n {
        Number::Singular => "sing",
        Number::Plural => "plur",
    }
}

/// The `key=value` tags of the features that are known, in the order
/// case, number, verb form, adjective form.
pub open spec fn feature_tag_list(f: MorphFeatures) -> Seq<Seq<char>> {
    let t0 = match f.case {
        Some(c) => seq!["case="@ + case_tag(c)],
        None => Seq::empty(),
    };
    let t1 = match f.number {
        Some(n) => t0.push("number="@ + number_tag(n)),
        None => t0,
    };
    let t2 = match f.verb_form {
        Some(VerbForm::Finite) => t1.push("verb_form=finite"@),
        Some(VerbForm::Infinitive) => t1.push("verb_form=inf"@),
        None => t1,
    };
    match f.adjective_form {
        Some(AdjectiveForm::Full) => t2.push("adj_form=full"@),
        Some(AdjectiveForm::Short) => t2.push("adj_form=short"@),
        None => t2,
    }
}

/// The tags joined by `|`.
pub open spec fn joined_tags(tags: Seq<Seq<char>>) -> Seq<char>
    decreases tags.len(),
{
    if tags.len() == 0 {
        Seq::empty()
    } else if tags.len() == 1 {
        tags[0]
    } else {
        joined_tags(tags.drop_last()) + "|"@ + tags.last()
    }
}

/// The compact `key=value|...` rendering of the features.
pub open spec fn spec_feature_tags(f: MorphFeatures) -> Seq<char> {
    joined_tags(feature_tag_list(f))
}

fn push_tag(acc: String, tags: Ghost<Seq<Seq<char>>>, tag: &str, first: bool) -> (r: String)
    requires
        acc@ == joined_tags(tags@),
        first == (tags@.len() == 0),
    ensures
        r@ == joined_tags(tags@.push(tag@)),
{
    let ghost t = tags@.push(tag@);
    assert(t.drop_last() =~= tags@);
    if first {
        tag.to_owned()
    } else {
        let with_bar = join_text(acc.as_str(), "|");
        join_text(with_bar.as_str(), tag)
    }
}

/// Renders the known features as `key=value` tags joined by `|`.
pub fn feature_tags(f: &MorphFeatures) -> (r: String)
    ensures
        r@ == spec_feature_tags(*f),
{
    let ghost mut tags: Seq<Seq<char>> = Seq::empty();
    let mut out = String::new();
    let mut first = true;
    assert(out@ =~= joined_tags(tags));
    match f.case {
        Some(c) => {
            let tag = join_text("case=", case_tag_str(c));
            out = push_tag(out, Ghost(tags), tag.as_str(), first);
            first = false;
            proof {
                tags = tags.push(tag@);
            }
        },
        None => {},
    }
    match f.number {
        Some(n) => {
            let tag = join_text("number=", number_tag_str(n));
            out = push_tag(out, Ghost(tags), tag.as_str(), first);
            first = false;
            proof {
                tags = tags.push(tag@);
            }
        },
        None => {},
    }
    match f.verb_form {
        Some(VerbForm::Finite) => {
            out = push_tag(out, Ghost(tags), "verb_form=finite", first);
            first = false;
            proof {
                tags = tags.push("verb_form=finite"@);
            }
        },
        Some(VerbForm::Infinitive) => {
            out = push_tag(out, Ghost(tags), "verb_form=inf", first);
            first = false;
            proof {
                tags = tags.push("verb_form=inf"@);
            }
        },
        None => {},
    }
    match f.adjective_form {
        Some(AdjectiveForm::Full) => {
            out = push_tag(out, Ghost(tags), "adj_form=full", first);
            first = false;
            proof {
                tags = tags.push("adj_form=full"@);
            }
        },
        Some(AdjectiveForm::Short) => {
            out = push_tag(out, Ghost(tags), "adj_form=short", first);
            first = false;
            proof {
                tags = tags.push("adj_form=short"@);
            }
        },
        None => {},
    }
    assert(tags =~= feature_tag_list(*f));
    out
}

/// `a` is `b` with some items left out: `f` gives, in increasing order,
/// the position in `b` of each item of `a`.
pub open spec fn subseq_by(a: Seq<MorphAnalysis>, b: Seq<MorphAnalysis>, f: Seq<int>) -> bool {
    &&& f.len() == a.len()
    &&& forall|k: int| 0 <= k < f.len() ==> 0 <= #[trigger] f[k] < b.len() && a[k] == b[f[k]]
    &&& forall|k: int, l: int| 0 <= k < l < f.len() ==> #[trigger] f[k] < #[trigger] f[l]
}

pub open spec fn is_subsequence(a: Seq<MorphAnalysis>, b: Seq<MorphAnalysis>) -> bool {
    exists|f: Seq<int>| subseq_by(a, b, f)
}

pub proof fn lemma_subsequence_refl(a: Seq<MorphAnalysis>)
    ensures
        is_subsequence(a, a),
{
    let f = Seq::new(a.len(), |k: int| k);
    assert(subseq_by(a, a, f));
}

pub proof fn lemma_subsequence_trans(a: Seq<MorphAnalysis>, b: Seq<MorphAnalysis>, c: Seq<MorphAnalysis>)
    requires
        is_subsequence(a, b),
        is_subsequence(b, c),
    ensures
        is_subsequence(a, c),
{
    let f = choose|f: Seq<int>| subseq_by(a, b, f);
    let g = choose|g: Seq<int>| subseq_by(b, c, g);
    let h = Seq::new(a.len(), |k: int| g[f[k]]);
    assert forall|k: int, l: int| 0 <= k < l < h.len() implies #[trigger] h[k] < #[trigger] h[l] by {
        assert(f[k] < f[l]);
    }
    assert(subseq_by(a, c, h));
}

/// The number of readings over all tokens.
pub open spec fn total_readings(rs: Seq<Vec<MorphAnalysis>>) -> int
    decreases rs.len(),
{
    if rs.len() == 0 {
        0
    } else {
        total_readings(rs.drop_last()) + rs.last()@.len()
    }
}

pub proof fn lemma_total_update(rs: Seq<Vec<MorphAnalysis>>, i: int, v: Vec<MorphAnalysis>)
    requires
        0 <= i < rs.len(),
    ensures
        total_readings(rs.update(i, v)) == total_readings(rs) - rs[i]@.len() + v@.len(),
    decreases rs.len(),
{
    let u = rs.update(i, v);
    if i < rs.len() - 1 {
        assert(u.drop_last() =~= rs.drop_last().update(i, v));
        lemma_total_update(rs.drop_last(), i, v);
    } else {
        assert(u.drop_last() =~= rs.drop_last());
    }
}

/// The elimination names tokens of the text and carries their forms.
pub open spec fn elimination_ok(toks: Seq<Token>, e: ReadingElimination) -> bool {
    &&& e.token_index < toks.len()
    &&& e.evidence_token_index < toks.len()
    &&& e.form@ == toks[e.token_index as int].text@
    &&& e.evidence_form@ == toks[e.evidence_token_index as int].text@
}

/// From `r0`, `t0` to `r1`, `t1`: each token keeps a subsequence of its
/// readings and never loses its last one, the trace only grows, by one
/// well-formed elimination per removed reading.
pub open spec fn progress(
    toks: Seq<Token>,
    r0: Seq<Vec<MorphAnalysis>>,
    r1: Seq<Vec<MorphAnalysis>>,
    t0: Seq<ReadingElimination>,
    t1: Seq<ReadingElimination>,
) -> bool {
    &&& r1.len() == r0.len()
    &&& forall|i: int| 0 <= i < r0.len() ==> is_subsequence(#[trigger] r1[i]@, r0[i]@)
    &&& forall|i: int| 0 <= i < r0.len() && r0[i]@.len() > 0 ==> (#[trigger] r1[i])@.len() > 0
    &&& t0.len() <= t1.len()
    &&& t1.take(t0.len() as int) == t0
    &&& total_readings(r0) - total_readings(r1) == t1.len() - t0.len()
    &&& forall|k: int| t0.len() <= k < t1.len() ==> elimination_ok(toks, #[trigger] t1[k])
}

pub proof fn lemma_progress_refl(toks: Seq<Token>, r: Seq<Vec<MorphAnalysis>>, t: Seq<ReadingElimination>)
    ensures
        progress(toks, r, r, t, t),
{
    assert forall|i: int| 0 <= i < r.len() implies is_subsequence(#[trigger] r[i]@, r[i]@) by {
        lemma_subsequence_refl(r[i]@);
    }
    assert(t.take(t.len() as int) =~= t);
}

pub proof fn lemma_progress_trans(
    toks: Seq<Token>,
    r0: Seq<Vec<MorphAnalysis>>,
    r1: Seq<Vec<MorphAnalysis>>,
    r2: Seq<Vec<MorphAnalysis>>,
    t0: Seq<ReadingElimination>,
    t1: Seq<ReadingElimination>,
    t2: Seq<ReadingElimination>,
)
    requires
        progress(toks, r0, r1, t0, t1),
        progress(toks, r1, r2, t1, t2),
    ensures
        progress(toks, r0, r2, t0, t2),
{
    assert forall|i: int| 0 <= i < r0.len() implies is_subsequence(#[trigger] r2[i]@, r0[i]@) by {
        lemma_subsequence_trans(r2[i]@, r1[i]@, r0[i]@);
    }
    assert(t2.take(t0.len() as int) =~= t2.take(t1.len() as int).take(t0.len() as int));
    assert forall|k: int| t0.len() <= k < t2.len() implies elimination_ok(toks, #[trigger] t2[k]) by {
        if k < t1.len() {
            assert(t2[k] == t2.take(t1.len() as int)[k]);
        }
    }
}

/// What a constraint removes from the readings of one token.
enum RemovalRule {
    /// Finite verb and gerund readings.
    VerbOrGerund,
    /// Readings in a case the preposition does not govern.
    CaseNotIn { allowed: Vec<Case>, preposition: String },
    /// Complete noun readings that agree with none of the modifier's.
    NounWithoutPartner { partners: Vec<MorphAnalysis> },
    /// Complete modifier readings that agree with none of the noun's.
    ModifierWithoutPartner { partners: Vec<MorphAnalysis> },
}

/// What a removal rule rejects, over plain values.
pub enum RuleSpec {
    VerbOrGerund,
    CaseNotIn(Seq<Case>),
    NounWithoutPartner(Seq<MorphAnalysis>),
    ModifierWithoutPartner(Seq<MorphAnalysis>),
}

/// The rule rejects reading `a`.
pub open spec fn rejects(rule: RuleSpec, a: MorphAnalysis) -> bool {
    match rule {
        RuleSpec::VerbOrGerund => a.pos == PartOfSpeech::Verb || a.pos == PartOfSpeech::Gerund,
        RuleSpec::CaseNotIn(allowed) => a.features.case matches Some(c) && !allowed.contains(c),
        RuleSpec::NounWithoutPartner(partners) => a.pos == PartOfSpeech::Noun && spec_complete_for_adj_noun(a)
            && !modifier_partner_exists(partners, a),
        RuleSpec::ModifierWithoutPartner(partners) => full_modifier(a) && spec_complete_for_adj_noun(a)
            && !noun_partner_exists(a, partners),
    }
}

/// The first `k` readings of `b` that the rule does not reject.
pub open spec fn kept_by(b: Seq<MorphAnalysis>, rule: RuleSpec, k: int) -> Seq<MorphAnalysis>
    decreases k,
{
    if k <= 0 {
        Seq::empty()
    } else if !rejects(rule, b[k - 1]) {
        kept_by(b, rule, k - 1).push(b[k - 1])
    } else {
        kept_by(b, rule, k - 1)
    }
}

/// The readings `b` after the rule: those it does not reject, unless it
/// rejects none or all of them.
pub open spec fn after_rule(b: Seq<MorphAnalysis>, rule: RuleSpec) -> Seq<MorphAnalysis> {
    let kept = kept_by(b, rule, b.len() as int);
    if kept.len() == 0 || kept.len() == b.len() {
        b
    } else {
        kept
    }
}

/// The readings of each token as plain sequences.
pub open spec fn reading_views(rs: Seq<Vec<MorphAnalysis>>) -> Seq<Seq<MorphAnalysis>> {
    rs.map_values(|v: Vec<MorphAnalysis>| v@)
}

/// A reading that modifies a noun in its full form.
pub open spec fn full_modifier(a: MorphAnalysis) -> bool {
    spec_can_modify_noun(a.pos) && a.features.adjective_form != Some(AdjectiveForm::Short)
}

/// Some modifier reading agrees with the noun reading.
pub open spec fn modifier_partner_exists(mods: Seq<MorphAnalysis>, noun: MorphAnalysis) -> bool {
    exists|k: int| 0 <= k < mods.len() && spec_can_agree_as_adj_noun(#[trigger] mods[k], noun)
}

/// Some noun reading agrees with the modifier reading.
pub open spec fn noun_partner_exists(adj: MorphAnalysis, nouns: Seq<MorphAnalysis>) -> bool {
    exists|k: int| 0 <= k < nouns.len() && spec_can_agree_as_adj_noun(adj, #[trigger] nouns[k])
}

fn any_modifier_partner(mods: &Vec<MorphAnalysis>, noun: &MorphAnalysis) -> (r: bool)
    ensures
        r == modifier_partner_exists(mods@, *noun),
{
    let mut k: usize = 0;
    while k < mods.len()
        invariant
            k <= mods@.len(),
            forall|j: int| 0 <= j < k ==> !spec_can_agree_as_adj_noun(#[trigger] mods@[j], *noun),
        decreases mods@.len() - k,
    {
        if can_agree_as_adj_noun(&mods[k], noun) {
            return true;
        }
        k = k + 1;
    }
    false
}

fn any_noun_partner(adj: &MorphAnalysis, nouns: &Vec<MorphAnalysis>) -> (r: bool)
    ensures
        r == noun_partner_exists(*adj, nouns@),
{
    let mut k: usize = 0;
    while k < nouns.len()
        invariant
            k <= nouns@.len(),
            forall|j: int| 0 <= j < k ==> !spec_can_agree_as_adj_noun(*adj, #[trigger] nouns@[j]),
        decreases nouns@.len() - k,
    {
        if can_agree_as_adj_noun(adj, &nouns[k]) {
            return true;
        }
        k = k + 1;
    }
    false
}

spec fn should_remove(rule: RemovalRule, a: MorphAnalysis) -> bool {
    match rule {
        RemovalRule::VerbOrGerund => a.pos == PartOfSpeech::Verb || a.pos == PartOfSpeech::Gerund,
        RemovalRule::CaseNotIn { allowed, preposition } => a.features.case matches Some(c) && !allowed@.contains(c),
        RemovalRule::NounWithoutPartner { partners } => a.pos == PartOfSpeech::Noun && spec_complete_for_adj_noun(a)
            && !modifier_partner_exists(partners@, a),
        RemovalRule::ModifierWithoutPartner { partners } => full_modifier(a) && spec_complete_for_adj_noun(a)
            && !noun_partner_exists(a, partners@),
    }
}

fn is_full_modifier(a: &MorphAnalysis) -> (r: bool)
    ensures
        r == full_modifier(*a),
{
    a.pos.can_modify_noun() && a.features.adjective_form != Some(AdjectiveForm::Short)
}

fn contains_case(v: &Vec<Case>, c: Case) -> (r: bool)
    ensures
        r == v@.contains(c),
{
    let mut i: usize = 0;
    while i < v.len()
        invariant
            i <= v@.len(),
            forall|k: int| 0 <= k < i ==> v@[k] != c,
        decreases v@.len() - i,
    {
        if v[i] == c {
            return true;
        }
        i = i + 1;
    }
    false
}

fn removes(rule: &RemovalRule, a: &MorphAnalysis) -> (r: bool)
    ensures
        r == should_remove(*rule, *a),
{
    match rule {
        RemovalRule::VerbOrGerund => a.pos == PartOfSpeech::Verb || a.pos == PartOfSpeech::Gerund,
        RemovalRule::CaseNotIn { allowed, preposition } => match a.features.case {
            Some(c) => !contains_case(allowed, c),
            None => false,
        },
        RemovalRule::NounWithoutPartner { partners } => a.pos == PartOfSpeech::Noun && is_complete_for_adj_noun(a)
            && !any_modifier_partner(partners, a),
        RemovalRule::ModifierWithoutPartner { partners } => is_full_modifier(a) && is_complete_for_adj_noun(a)
            && !any_noun_partner(a, partners),
    }
}

/// Positions among the first `k` readings of those the rule keeps.
spec fn keep_idx(b: Seq<MorphAnalysis>, rule: RemovalRule, k: int) -> Seq<int>
    decreases k,
{
    if k <= 0 {
        Seq::empty()
    } else if !should_remove(rule, b[k - 1]) {
        keep_idx(b, rule, k - 1).push(k - 1)
    } else {
        keep_idx(b, rule, k - 1)
    }
}

proof fn lemma_keep_idx(b: Seq<MorphAnalysis>, rule: RemovalRule, k: int)
    requires
        0 <= k <= b.len(),
    ensures
        forall|j: int| 0 <= j < keep_idx(b, rule, k).len() ==> 0 <= #[trigger] keep_idx(b, rule, k)[j] < k,
        forall|j: int, l: int|
            0 <= j < l < keep_idx(b, rule, k).len() ==> #[trigger] keep_idx(b, rule, k)[j]
                < #[trigger] keep_idx(b, rule, k)[l],
        keep_idx(b, rule, k).len() <= k,
    decreases k,
{
    if k > 0 {
        lemma_keep_idx(b, rule, k - 1);
    }
}

/// The explanation recorded when the rule removes the reading.
spec fn rule_spec(rule: RemovalRule) -> RuleSpec {
    match rule {
        RemovalRule::VerbOrGerund => RuleSpec::VerbOrGerund,
        RemovalRule::CaseNotIn { allowed, preposition } => RuleSpec::CaseNotIn(allowed@),
        RemovalRule::NounWithoutPartner { partners } => RuleSpec::NounWithoutPartner(partners@),
        RemovalRule::ModifierWithoutPartner { partners } => RuleSpec::ModifierWithoutPartner(partners@),
    }
}

proof fn lemma_kept_by(b: Seq<MorphAnalysis>, rule: RemovalRule, k: int)
    requires
        0 <= k <= b.len(),
    ensures
        keep_idx(b, rule, k).map_values(|j: int| b[j]) == kept_by(b, rule_spec(rule), k),
        keep_idx(b, rule, k).len() == kept_by(b, rule_spec(rule), k).len(),
    decreases k,
{
    if k > 0 {
        lemma_kept_by(b, rule, k - 1);
        assert(should_remove(rule, b[k - 1]) == rejects(rule_spec(rule), b[k - 1]));
        if !should_remove(rule, b[k - 1]) {
            assert(keep_idx(b, rule, k).map_values(|j: int| b[j]) =~= keep_idx(b, rule, k - 1).map_values(
                |j: int| b[j],
            ).push(b[k - 1]));
        }
    } else {
        assert(keep_idx(b, rule, k).map_values(|j: int| b[j]) =~= Seq::<MorphAnalysis>::empty());
    }
}

spec fn rule_explanation_ok(rule: RemovalRule, a: MorphAnalysis, text: Seq<char>) -> bool {
    match rule {
        RemovalRule::VerbOrGerund => text == "finite verb or gerund reading directly after a preposition"@,
        RemovalRule::CaseNotIn { allowed, preposition } => text == "case "@ + case_debug(a.features.case)
            + " is not governed by preposition «"@ + preposition@ + "»"@,
        RemovalRule::NounWithoutPartner { partners } => text
            == "noun reading agrees with no reading of the adjacent modifier"@,
        RemovalRule::ModifierWithoutPartner { partners } => text
            == "modifier reading agrees with no reading of the adjacent noun"@,
    }
}

pub open spec fn case_name(c: Case) -> Seq<char> {
    match c {
        Case::Nominative => "Nominative"@,
        Case::Genitive => "Genitive"@,
        Case::Dative => "Dative"@,
        Case::Accusative => "Accusative"@,
        Case::Instrumental => "Instrumental"@,
        Case::Prepositional => "Prepositional"@,
    }
}

/// The debug rendering of an optional case.
pub open spec fn case_debug(c: Option<Case>) -> Seq<char> {
    match c {
        Some(x) => "Some("@ + case_name(x) + ")"@,
        None => "None"@,
    }
}

fn case_debug_string(c: Option<Case>) -> (r: String)
    ensures
        r@ == case_debug(c),
{
    match c {
        Some(x) => {
            let name = match x {
                Case::Nominative => "Nominative",
                Case::Genitive => "Genitive",
                Case::Dative => "Dative",
                Case::Accusative => "Accusative",
                Case::Instrumental => "Instrumental",
                Case::Prepositional => "Prepositional",
            };
            let a = join_text("Some(", name);
            join_text(a.as_str(), ")")
        },
        None => "None".to_owned(),
    }
}

fn rule_explanation(rule: &RemovalRule, a: &MorphAnalysis) -> (r: String)
    ensures
        rule_explanation_ok(*rule, *a, r@),
{
    match rule {
        RemovalRule::VerbOrGerund => "finite verb or gerund reading directly after a preposition".to_owned(),
        RemovalRule::CaseNotIn { allowed, preposition } => {
            let d = case_debug_string(a.features.case);
            let p1 = join_text("case ", d.as_str());
            let p2 = join_text(p1.as_str(), " is not governed by preposition «");
            let p3 = join_text(p2.as_str(), preposition.as_str());
            let r = join_text(p3.as_str(), "»");
            assert(r@ =~= "case "@ + case_debug(a.features.case) + " is not governed by preposition «"@
                + preposition@ + "»"@);
            r
        },
        RemovalRule::NounWithoutPartner { partners } => "noun reading agrees with no reading of the adjacent modifier".to_owned(),
        RemovalRule::ModifierWithoutPartner { partners } => "modifier reading agrees with no reading of the adjacent noun".to_owned(),
    }
}

/// The elimination recorded for removing `a` from token `t` on the
/// evidence of token `ev`.
spec fn elimination_of(
    toks: Seq<Token>,
    t: int,
    ev: int,
    constraint: DisambiguationConstraint,
    rule: RemovalRule,
    a: MorphAnalysis,
    e: ReadingElimination,
) -> bool {
    &&& e.token_index == t
    &&& e.evidence_token_index == ev
    &&& e.form@ == toks[t].text@
    &&& e.evidence_form@ == toks[ev].text@
    &&& e.eliminated_lemma@ == a.lemma@
    &&& e.eliminated_pos == a.pos
    &&& e.eliminated_features@ == spec_feature_tags(a.features)
    &&& e.constraint == constraint
    &&& rule_explanation_ok(rule, a, e.explanation@)
}

/// `e` records removing one of the readings `b` that the rule rejects.
spec fn elimination_from(
    toks: Seq<Token>,
    t: int,
    ev: int,
    constraint: DisambiguationConstraint,
    rule: RemovalRule,
    b: Seq<MorphAnalysis>,
    e: ReadingElimination,
) -> bool {
    exists|a: MorphAnalysis| b.contains(a) && should_remove(rule, a) && elimination_of(toks, t, ev, constraint, rule, a, e)
}

/// Removes the readings of token `token_index` that the rule rejects, unless
/// it rejects none or all of them, recording one elimination per removed
/// reading.
fn remove_readings(
    readings: &mut Vec<Vec<MorphAnalysis>>,
    token_index: usize,
    tokens: &[Token],
    trace: &mut DisambiguationTrace,
    constraint: DisambiguationConstraint,
    evidence_token_index: usize,
    rule: &RemovalRule,
)
    requires
        token_index < old(readings)@.len(),
        token_index < tokens@.len(),
        evidence_token_index < tokens@.len(),
    ensures
        progress(tokens@, old(readings)@, final(readings)@, old(trace).eliminations@, final(trace).eliminations@),
        final(trace).passes == old(trace).passes,
        forall|j: int| 0 <= j < old(readings)@.len() && j != token_index ==> #[trigger] final(readings)@[j] == old(
            readings,
        )@[j],
        reading_views(final(readings)@) == reading_views(old(readings)@).update(
            token_index as int,
            after_rule(old(readings)@[token_index as int]@, rule_spec(*rule)),
        ),
        ({
            let b = old(readings)@[token_index as int]@;
            let kept = keep_idx(b, *rule, b.len() as int);
            if kept.len() == 0 || kept.len() == b.len() {
                final(readings)@ == old(readings)@ && final(trace).eliminations@ == old(trace).eliminations@
            } else {
                final(readings)@[token_index as int]@ == kept.map_values(|j: int| b[j])
            }
        }),
        forall|k: int|
            old(trace).eliminations@.len() <= k < final(trace).eliminations@.len() ==> elimination_from(
                tokens@,
                token_index as int,
                evidence_token_index as int,
                constraint,
                *rule,
                old(readings)@[token_index as int]@,
                #[trigger] final(trace).eliminations@[k],
            ),
{
    let ghost r0 = readings@;
    let ghost t0 = trace.eliminations@;
    let ghost b = readings@[token_index as int]@;
    let mut kept: Vec<MorphAnalysis> = Vec::new();
    let mut removed: Vec<MorphAnalysis> = Vec::new();
    let mut i: usize = 0;
    let n = readings[token_index].len();
    while i < n
        invariant
            r0 == readings@,
            b == readings@[token_index as int]@,
            token_index < readings@.len(),
            n == b.len(),
            i <= n,
            kept@ == keep_idx(b, *rule, i as int).map_values(|j: int| b[j]),
            kept@.len() + removed@.len() == i,
            forall|k: int| 0 <= k < removed@.len() ==> b.contains(#[trigger] removed@[k]) && should_remove(*rule, removed@[k]),
        decreases n - i,
    {
        let a = readings[token_index][i].duplicate();
        if removes(rule, &a) {
            removed.push(a);
            assert(b.contains(b[i as int]));
        } else {
            let ghost o = kept@;
            kept.push(a);
            assert(kept@ =~= keep_idx(b, *rule, i as int + 1).map_values(|j: int| b[j]));
        }
        i = i + 1;
    }
    proof {
        lemma_keep_idx(b, *rule, b.len() as int);
        lemma_kept_by(b, *rule, b.len() as int);
    }
    if removed.len() == 0 || kept.len() == 0 {
        proof {
            lemma_progress_refl(tokens@, r0, t0);
            assert(reading_views(r0).update(token_index as int, b) =~= reading_views(r0));
        }
        return;
    }
    let mut k: usize = 0;
    while k < removed.len()
        invariant
            r0 == readings@,
            token_index < tokens@.len(),
            evidence_token_index < tokens@.len(),
            k <= removed@.len(),
            trace.eliminations@.len() == t0.len() + k,
            trace.eliminations@.take(t0.len() as int) == t0,
            trace.passes == old(trace).passes,
            t0 == old(trace).eliminations@,
            forall|m: int| 0 <= m < removed@.len() ==> b.contains(#[trigger] removed@[m]) && should_remove(*rule, removed@[m]),
            forall|m: int|
                t0.len() <= m < trace.eliminations@.len() ==> elimination_from(
                    tokens@,
                    token_index as int,
                    evidence_token_index as int,
                    constraint,
                    *rule,
                    b,
                    #[trigger] trace.eliminations@[m],
                ),
        decreases removed@.len() - k,
    {
        let a = &removed[k];
        let e = ReadingElimination {
            token_index,
            form: tokens[token_index].text.clone(),
            eliminated_lemma: a.lemma.clone(),
            eliminated_pos: a.pos,
            eliminated_features: feature_tags(&a.features),
            constraint,
            evidence_token_index,
            evidence_form: tokens[evidence_token_index].text.clone(),
            explanation: rule_explanation(rule, a),
        };
        assert(elimination_of(
            tokens@,
            token_index as int,
            evidence_token_index as int,
            constraint,
            *rule,
            removed@[k as int],
            e,
        ));
        let ghost before = trace.eliminations@;
        trace.eliminations.push(e);
        proof {
            assert(trace.eliminations@.take(t0.len() as int) =~= before.take(t0.len() as int));
            assert forall|m: int| t0.len() <= m < trace.eliminations@.len() implies elimination_from(
                tokens@,
                token_index as int,
                evidence_token_index as int,
                constraint,
                *rule,
                b,
                #[trigger] trace.eliminations@[m],
            ) by {
                if m < before.len() {
                    assert(trace.eliminations@[m] == before[m]);
                } else {
                    assert(trace.eliminations@[m] == e);
                    assert(b.contains(removed@[k as int]) && should_remove(*rule, removed@[k as int]));
                }
            }
        }
        k = k + 1;
    }
    let ghost kept_v = kept;
    readings.set(token_index, kept);
    proof {
        let r1 = readings@;
        assert(r1 =~= r0.update(token_index as int, kept_v));
        assert(reading_views(r1) =~= reading_views(r0).update(token_index as int, kept_v@));
        lemma_total_update(r0, token_index as int, kept_v);
        let f = keep_idx(b, *rule, b.len() as int);
        assert(subseq_by(r1[token_index as int]@, b, f));
        assert forall|j: int| 0 <= j < r0.len() implies is_subsequence(#[trigger] r1[j]@, r0[j]@) by {
            if j == token_index {
                assert(subseq_by(r1[j]@, r0[j]@, f));
            } else {
                lemma_subsequence_refl(r0[j]@);
            }
        }
        assert forall|m: int| t0.len() <= m < trace.eliminations@.len() implies elimination_ok(
            tokens@,
            #[trigger] trace.eliminations@[m],
        ) by {
            let a = choose|a: MorphAnalysis|
                b.contains(a) && should_remove(*rule, a) && elimination_of(
                    tokens@,
                    token_index as int,
                    evidence_token_index as int,
                    constraint,
                    *rule,
                    a,
                    trace.eliminations@[m],
                );
        }
    }
}

/// The next token that is not white space after `from`, when it is a
/// word: punctuation breaks the local context.
pub open spec fn spec_adjacent_word_index(toks: Seq<Token>, from: int) -> Option<int> {
    match first_non_ws(toks, from + 1, toks.len() - 1) {
        Some(j) => if toks[j].kind == TokenKind::Word {
            Some(j)
        } else {
            None
        },
        None => None,
    }
}

pub fn adjacent_word_index(tokens: &[Token], from: usize) -> (r: Option<usize>)
    requires
        from < tokens@.len(),
    ensures
        r == (match spec_adjacent_word_index(tokens@, from as int) {
            Some(j) => Some(j as usize),
            None => None,
        }),
        r matches Some(j) ==> from < j < tokens@.len(),
        spec_adjacent_word_index(tokens@, from as int) matches Some(j) ==> from < j < tokens@.len(),
{
    assert(from < tokens.len());
    let mut i = from + 1;
    while i < tokens.len() && tokens[i].kind == TokenKind::Whitespace
        invariant
            from < i <= tokens@.len(),
            first_non_ws(tokens@, from + 1, tokens@.len() - 1) == first_non_ws(tokens@, i as int, tokens@.len() - 1),
        decreases tokens@.len() - i,
    {
        i = i + 1;
    }
    proof {
        lemma_first_non_ws(tokens@, i as int, tokens@.len() - 1);
    }
    if i < tokens.len() && tokens[i].kind == TokenKind::Word {
        Some(i)
    } else {
        None
    }
}

/// A word whose readings are all prepositions, and there is at least one.
pub open spec fn reliable_preposition(toks: Seq<Token>, rs: Seq<Vec<MorphAnalysis>>, idx: int) -> bool {
    &&& toks[idx].kind == TokenKind::Word
    &&& rs[idx]@.len() > 0
    &&& forall|k: int| 0 <= k < rs[idx]@.len() ==> (#[trigger] rs[idx]@[k]).pos == PartOfSpeech::Preposition
}

fn is_reliable_preposition(tokens: &[Token], readings: &Vec<Vec<MorphAnalysis>>, idx: usize) -> (r: bool)
    requires
        idx < tokens@.len(),
        idx < readings@.len(),
    ensures
        r == reliable_preposition(tokens@, readings@, idx as int),
{
    if tokens[idx].kind != TokenKind::Word || readings[idx].len() == 0 {
        return false;
    }
    let mut k: usize = 0;
    while k < readings[idx].len()
        invariant
            idx < readings@.len(),
            k <= readings@[idx as int]@.len(),
            forall|j: int| 0 <= j < k ==> (#[trigger] readings@[idx as int]@[j]).pos == PartOfSpeech::Preposition,
        decreases readings@[idx as int]@.len() - k,
    {
        if readings[idx][k].pos != PartOfSpeech::Preposition {
            return false;
        }
        k = k + 1;
    }
    true
}

/// Every reading is a complete full modifier, and there is at least one.
pub open spec fn reliable_modifier(v: Seq<MorphAnalysis>) -> bool {
    v.len() > 0 && forall|k: int| 0 <= k < v.len() ==> full_modifier(#[trigger] v[k]) && spec_complete_for_adj_noun(v[k])
}

/// Every reading is a complete noun, and there is at least one.
pub open spec fn reliable_noun(v: Seq<MorphAnalysis>) -> bool {
    v.len() > 0 && forall|k: int|
        0 <= k < v.len() ==> (#[trigger] v[k]).pos == PartOfSpeech::Noun && spec_complete_for_adj_noun(v[k])
}

fn is_reliable_modifier(v: &Vec<MorphAnalysis>) -> (r: bool)
    ensures
        r == reliable_modifier(v@),
{
    if v.len() == 0 {
        return false;
    }
    let mut k: usize = 0;
    while k < v.len()
        invariant
            k <= v@.len(),
            forall|j: int| 0 <= j < k ==> full_modifier(#[trigger] v@[j]) && spec_complete_for_adj_noun(v@[j]),
        decreases v@.len() - k,
    {
        if !(is_full_modifier(&v[k]) && is_complete_for_adj_noun(&v[k])) {
            return false;
        }
        k = k + 1;
    }
    true
}

fn is_reliable_noun(v: &Vec<MorphAnalysis>) -> (r: bool)
    ensures
        r == reliable_noun(v@),
{
    if v.len() == 0 {
        return false;
    }
    let mut k: usize = 0;
    while k < v.len()
        invariant
            k <= v@.len(),
            forall|j: int| 0 <= j < k ==> (#[trigger] v@[j]).pos == PartOfSpeech::Noun && spec_complete_for_adj_noun(v@[j]),
        decreases v@.len() - k,
    {
        if !(v[k].pos == PartOfSpeech::Noun && is_complete_for_adj_noun(&v[k])) {
            return false;
        }
        k = k + 1;
    }
    true
}

/// Some full modifier reading on the left agrees with some noun reading on
/// the right.
pub open spec fn agreeing_pair(left: Seq<MorphAnalysis>, right: Seq<MorphAnalysis>) -> bool {
    exists|i: int, j: int|
        0 <= i < left.len() && 0 <= j < right.len() && full_modifier(#[trigger] left[i]) && (#[trigger] right[j]).pos
            == PartOfSpeech::Noun && spec_can_agree_as_adj_noun(left[i], right[j])
}

fn has_agreeing_pair(left: &Vec<MorphAnalysis>, right: &Vec<MorphAnalysis>) -> (r: bool)
    ensures
        r == agreeing_pair(left@, right@),
{
    let mut i: usize = 0;
    while i < left.len()
        invariant
            i <= left@.len(),
            forall|x: int, y: int|
                0 <= x < i && 0 <= y < right@.len() ==> !(full_modifier(#[trigger] left@[x]) && (
                #[trigger] right@[y]).pos == PartOfSpeech::Noun && spec_can_agree_as_adj_noun(left@[x], right@[y])),
        decreases left@.len() - i,
    {
        let mut j: usize = 0;
        while j < right.len()
            invariant
                i < left@.len(),
                j <= right@.len(),
                forall|x: int, y: int|
                    0 <= x < i && 0 <= y < right@.len() ==> !(full_modifier(#[trigger] left@[x]) && (
                    #[trigger] right@[y]).pos == PartOfSpeech::Noun && spec_can_agree_as_adj_noun(left@[x], right@[y])),
                forall|y: int|
                    0 <= y < j ==> !(full_modifier(left@[i as int]) && (#[trigger] right@[y]).pos == PartOfSpeech::Noun
                        && spec_can_agree_as_adj_noun(left@[i as int], right@[y])),
            decreases right@.len() - j,
        {
            if is_full_modifier(&left[i]) && right[j].pos == PartOfSpeech::Noun && can_agree_as_adj_noun(
                &left[i],
                &right[j],
            ) {
                return true;
            }
            j = j + 1;
        }
        i = i + 1;
    }
    false
}

pub(crate) fn str_eq(a: &str, b: &str) -> (r: bool)
    ensures
        r == (a@ == b@),
{
    let x = str_chars(a);
    let y = str_chars(b);
    chars_eq(x.as_slice(), y.as_slice())
}

/// The cases allowed by the first `k` entries for the preposition, in order.
pub open spec fn allowed_seq(entries: Seq<PrepositionGovernmentEntry>, key: Seq<char>, k: int) -> Seq<Case>
    decreases k,
{
    if k <= 0 {
        Seq::empty()
    } else if entries[k - 1].preposition@ == key {
        allowed_seq(entries, key, k - 1) + entries[k - 1].allowed_cases@
    } else {
        allowed_seq(entries, key, k - 1)
    }
}

/// The cases the entries for the preposition allow, together.
pub fn allowed_cases(entries: &[PrepositionGovernmentEntry], key: &str) -> (r: Vec<Case>)
    ensures
        r@ == allowed_seq(entries@, key@, entries@.len() as int),
{
    let mut out: Vec<Case> = Vec::new();
    let mut k: usize = 0;
    while k < entries.len()
        invariant
            k <= entries@.len(),
            out@ == allowed_seq(entries@, key@, k as int),
        decreases entries@.len() - k,
    {
        let ghost o = out@;
        if str_eq(entries[k].preposition.as_str(), key) {
            let mut m: usize = 0;
            while m < entries[k].allowed_cases.len()
                invariant
                    k < entries@.len(),
                    m <= entries@[k as int].allowed_cases@.len(),
                    out@ == o + entries@[k as int].allowed_cases@.take(m as int),
                decreases entries@[k as int].allowed_cases@.len() - m,
            {
                out.push(entries[k].allowed_cases[m]);
                assert(out@ =~= o + entries@[k as int].allowed_cases@.take(m as int + 1));
                m = m + 1;
            }
            assert(entries@[k as int].allowed_cases@.take(entries@[k as int].allowed_cases@.len() as int)
                =~= entries@[k as int].allowed_cases@);
        }
        k = k + 1;
    }
    out
}

/// The preposition rule at token `p`, over readings `rs`: a reliable
/// preposition removes the finite verb and gerund readings of the next word,
/// then those in a case its entries do not allow.
pub open spec fn preposition_step(
    toks: Seq<Token>,
    rs: Seq<Seq<MorphAnalysis>>,
    preps: Seq<PrepositionGovernmentEntry>,
    p: int,
) -> Seq<Seq<MorphAnalysis>> {
    let reliable = toks[p].kind == TokenKind::Word && rs[p].len() > 0 && forall|k: int|
        0 <= k < rs[p].len() ==> (#[trigger] rs[p][k]).pos == PartOfSpeech::Preposition;
    match spec_adjacent_word_index(toks, p) {
        Some(n) => if reliable {
            let rs1 = rs.update(n, after_rule(rs[n], RuleSpec::VerbOrGerund));
            let allowed = allowed_seq(preps, lower_seq(toks[p].text@), preps.len() as int);
            if allowed.len() > 0 {
                rs1.update(n, after_rule(rs1[n], RuleSpec::CaseNotIn(allowed)))
            } else {
                rs1
            }
        } else {
            rs
        },
        None => rs,
    }
}

/// The preposition rule applied at the first `k` tokens in order.
pub open spec fn preposition_pass(
    toks: Seq<Token>,
    rs: Seq<Seq<MorphAnalysis>>,
    preps: Seq<PrepositionGovernmentEntry>,
    k: int,
) -> Seq<Seq<MorphAnalysis>>
    decreases k,
{
    if k <= 0 {
        rs
    } else {
        preposition_step(toks, preposition_pass(toks, rs, preps, k - 1), preps, k - 1)
    }
}

/// The agreement rule between token `l` and the next word, over readings
/// `rs`: when one side is reliable and some pair agrees, a reliable
/// modifier removes the noun readings that agree with none of its own, then
/// a reliable noun removes the modifier readings that agree with none of
/// its own.
pub open spec fn agreement_step(toks: Seq<Token>, rs: Seq<Seq<MorphAnalysis>>, l: int) -> Seq<Seq<MorphAnalysis>> {
    match spec_adjacent_word_index(toks, l) {
        Some(r) => {
            let mr = reliable_modifier(rs[l]);
            let hr = reliable_noun(rs[r]);
            if toks[l].kind == TokenKind::Word && (mr || hr) && agreeing_pair(rs[l], rs[r]) {
                let rs1 = if mr {
                    rs.update(r, after_rule(rs[r], RuleSpec::NounWithoutPartner(rs[l])))
                } else {
                    rs
                };
                if hr {
                    rs1.update(l, after_rule(rs1[l], RuleSpec::ModifierWithoutPartner(rs1[r])))
                } else {
                    rs1
                }
            } else {
                rs
            }
        },
        None => rs,
    }
}

/// The agreement rule applied at the first `k` tokens in order.
pub open spec fn agreement_pass(toks: Seq<Token>, rs: Seq<Seq<MorphAnalysis>>, k: int) -> Seq<Seq<MorphAnalysis>>
    decreases k,
{
    if k <= 0 {
        rs
    } else {
        agreement_step(toks, agreement_pass(toks, rs, k - 1), k - 1)
    }
}

/// One pass: the preposition rule over all tokens, then the agreement rule.
pub open spec fn one_pass(
    toks: Seq<Token>,
    rs: Seq<Seq<MorphAnalysis>>,
    preps: Seq<PrepositionGovernmentEntry>,
) -> Seq<Seq<MorphAnalysis>> {
    agreement_pass(toks, preposition_pass(toks, rs, preps, toks.len() as int), toks.len() as int)
}

/// The number of readings over all tokens.
pub open spec fn reading_count(rs: Seq<Seq<MorphAnalysis>>) -> int
    decreases rs.len(),
{
    if rs.len() == 0 {
        0
    } else {
        reading_count(rs.drop_last()) + rs.last().len()
    }
}

/// The readings after passes run from pass `done + 1` on: each pass runs
/// on the readings the one before left, until a pass removes nothing or
/// the third has run.
pub open spec fn passes_from(
    toks: Seq<Token>,
    rs: Seq<Seq<MorphAnalysis>>,
    preps: Seq<PrepositionGovernmentEntry>,
    done: nat,
) -> Seq<Seq<MorphAnalysis>>
    decreases 3 - done,
{
    let r1 = one_pass(toks, rs, preps);
    if reading_count(r1) == reading_count(rs) || done + 1 >= 3 {
        r1
    } else {
        passes_from(toks, r1, preps, done + 1)
    }
}

/// How many passes run from pass `done + 1` on, counted with `done`.
pub open spec fn pass_count(
    toks: Seq<Token>,
    rs: Seq<Seq<MorphAnalysis>>,
    preps: Seq<PrepositionGovernmentEntry>,
    done: nat,
) -> nat
    decreases 3 - done,
{
    let r1 = one_pass(toks, rs, preps);
    if reading_count(r1) == reading_count(rs) || done + 1 >= 3 {
        done + 1
    } else {
        pass_count(toks, r1, preps, done + 1)
    }
}

proof fn lemma_reading_count(rs: Seq<Vec<MorphAnalysis>>)
    ensures
        reading_count(reading_views(rs)) == total_readings(rs),
    decreases rs.len(),
{
    if rs.len() > 0 {
        lemma_reading_count(rs.drop_last());
        assert(reading_views(rs).drop_last() =~= reading_views(rs.drop_last()));
    }
}

/// Each reliable preposition removes the finite verb and gerund readings of
/// the next word, and those in a case it does not govern.
fn apply_preposition_constraints(
    tokens: &[Token],
    readings: &mut Vec<Vec<MorphAnalysis>>,
    prepositions: &[PrepositionGovernmentEntry],
    trace: &mut DisambiguationTrace,
)
    requires
        old(readings)@.len() >= tokens@.len(),
    ensures
        progress(tokens@, old(readings)@, final(readings)@, old(trace).eliminations@, final(trace).eliminations@),
        final(trace).passes == old(trace).passes,
        reading_views(final(readings)@) == preposition_pass(
            tokens@,
            reading_views(old(readings)@),
            prepositions@,
            tokens@.len() as int,
        ),
{
    let ghost r0 = readings@;
    let ghost t0 = trace.eliminations@;
    proof {
        lemma_progress_refl(tokens@, r0, t0);
    }
    let mut prep_idx: usize = 0;
    while prep_idx < tokens.len()
        invariant
            readings@.len() == r0.len(),
            r0.len() >= tokens@.len(),
            progress(tokens@, r0, readings@, t0, trace.eliminations@),
            trace.passes == old(trace).passes,
            prep_idx <= tokens@.len(),
            reading_views(readings@) == preposition_pass(tokens@, reading_views(r0), prepositions@, prep_idx as int),
        decreases tokens@.len() - prep_idx,
    {
        let ghost v = reading_views(readings@);
        assert(v[prep_idx as int] == readings@[prep_idx as int]@);
        let reliable = is_reliable_preposition(tokens, readings, prep_idx);
        assert(reliable == (tokens@[prep_idx as int].kind == TokenKind::Word && v[prep_idx as int].len() > 0
            && forall|k: int| 0 <= k < v[prep_idx as int].len() ==> (#[trigger] v[prep_idx as int][k]).pos
                == PartOfSpeech::Preposition));
        if reliable {
            match adjacent_word_index(tokens, prep_idx) {
                Some(next_idx) => {
                    let ghost r1 = readings@;
                    let ghost t1 = trace.eliminations@;
                    remove_readings(
                        readings,
                        next_idx,
                        tokens,
                        trace,
                        DisambiguationConstraint::PrepositionVerbExclusion,
                        prep_idx,
                        &RemovalRule::VerbOrGerund,
                    );
                    proof {
                        lemma_progress_trans(tokens@, r0, r1, readings@, t0, t1, trace.eliminations@);
                        assert(r1[next_idx as int]@ == v[next_idx as int]);
                    }
                    let ghost v1 = reading_views(readings@);
                    assert(v1 == v.update(next_idx as int, after_rule(v[next_idx as int], RuleSpec::VerbOrGerund)));
                    let prep_key = lower_ru(tokens[prep_idx].text.as_str());
                    let allowed = allowed_cases(prepositions, prep_key.as_str());
                    assert(prep_key@ == lower_seq(tokens@[prep_idx as int].text@));
                    assert(spec_adjacent_word_index(tokens@, prep_idx as int) == Some(next_idx as int));
                    if allowed.len() > 0 {
                        let ghost r2 = readings@;
                        let ghost t2 = trace.eliminations@;
                        let rule = RemovalRule::CaseNotIn { allowed, preposition: prep_key };
                        remove_readings(
                            readings,
                            next_idx,
                            tokens,
                            trace,
                            DisambiguationConstraint::PrepositionCaseGovernment,
                            prep_idx,
                            &rule,
                        );
                        proof {
                            lemma_progress_trans(tokens@, r0, r2, readings@, t0, t2, trace.eliminations@);
                            assert(v1[next_idx as int] == r2[next_idx as int]@);
                            assert(reading_views(readings@) == v1.update(
                                next_idx as int,
                                after_rule(
                                    v1[next_idx as int],
                                    RuleSpec::CaseNotIn(
                                        allowed_seq(prepositions@, lower_seq(tokens@[prep_idx as int].text@), prepositions@.len() as int),
                                    ),
                                ),
                            ));
                        }
                    }
                    assert(reading_views(readings@) == preposition_step(tokens@, v, prepositions@, prep_idx as int));
                },
                None => {},
            }
        }
        proof {
            assert(reading_views(readings@) == preposition_step(tokens@, v, prepositions@, prep_idx as int));
        }
        prep_idx = prep_idx + 1;
    }
}

/// Between a word and the next, when one side's readings are reliable and
/// some pair of readings agrees: the other side keeps only readings that
/// agree with some reading of the reliable side.
fn apply_modifier_head_agreement(
    tokens: &[Token],
    readings: &mut Vec<Vec<MorphAnalysis>>,
    trace: &mut DisambiguationTrace,
)
    requires
        old(readings)@.len() >= tokens@.len(),
    ensures
        progress(tokens@, old(readings)@, final(readings)@, old(trace).eliminations@, final(trace).eliminations@),
        final(trace).passes == old(trace).passes,
        reading_views(final(readings)@) == agreement_pass(tokens@, reading_views(old(readings)@), tokens@.len() as int),
{
    let ghost r0 = readings@;
    let ghost t0 = trace.eliminations@;
    proof {
        lemma_progress_refl(tokens@, r0, t0);
    }
    let mut left_idx: usize = 0;
    while left_idx < tokens.len()
        invariant
            readings@.len() == r0.len(),
            r0.len() >= tokens@.len(),
            progress(tokens@, r0, readings@, t0, trace.eliminations@),
            trace.passes == old(trace).passes,
            left_idx <= tokens@.len(),
            reading_views(readings@) == agreement_pass(tokens@, reading_views(r0), left_idx as int),
        decreases tokens@.len() - left_idx,
    {
        let ghost v = reading_views(readings@);
        match adjacent_word_index(tokens, left_idx) {
            Some(right_idx) => {
                assert(spec_adjacent_word_index(tokens@, left_idx as int) == Some(right_idx as int));
                assert(v[left_idx as int] == readings@[left_idx as int]@);
                assert(v[right_idx as int] == readings@[right_idx as int]@);
                if tokens[left_idx].kind == TokenKind::Word {
                    let modifier_reliable = is_reliable_modifier(&readings[left_idx]);
                    let head_reliable = is_reliable_noun(&readings[right_idx]);
                    if (modifier_reliable || head_reliable) && has_agreeing_pair(&readings[left_idx], &readings[right_idx]) {
                        if modifier_reliable {
                            let modifiers = copy_analyses(readings[left_idx].as_slice());
                            let ghost r1 = readings@;
                            let ghost t1 = trace.eliminations@;
                            let rule = RemovalRule::NounWithoutPartner { partners: modifiers };
                            remove_readings(
                                readings,
                                right_idx,
                                tokens,
                                trace,
                                DisambiguationConstraint::ModifierHeadAgreement,
                                left_idx,
                                &rule,
                            );
                            proof {
                                lemma_progress_trans(tokens@, r0, r1, readings@, t0, t1, trace.eliminations@);
                            }
                        }
                        let ghost v1 = reading_views(readings@);
                        assert(v1 == if modifier_reliable {
                            v.update(
                                right_idx as int,
                                after_rule(v[right_idx as int], RuleSpec::NounWithoutPartner(v[left_idx as int])),
                            )
                        } else {
                            v
                        });
                        if head_reliable {
                            let heads = copy_analyses(readings[right_idx].as_slice());
                            let ghost r2 = readings@;
                            let ghost t2 = trace.eliminations@;
                            assert(r2[right_idx as int]@ == v1[right_idx as int]);
                            assert(r2[left_idx as int]@ == v1[left_idx as int]);
                            let rule = RemovalRule::ModifierWithoutPartner { partners: heads };
                            remove_readings(
                                readings,
                                left_idx,
                                tokens,
                                trace,
                                DisambiguationConstraint::ModifierHeadAgreement,
                                right_idx,
                                &rule,
                            );
                            proof {
                                lemma_progress_trans(tokens@, r0, r2, readings@, t0, t2, trace.eliminations@);
                            }
                        }
                    }
                }
                assert(reading_views(readings@) == agreement_step(tokens@, v, left_idx as int));
            },
            None => {},
        }
        left_idx = left_idx + 1;
    }
}

/// Runs the preposition and agreement constraints over the readings of
/// each token (indexed by token index), pass after pass until a pass
/// removes nothing or three passes have run. Each token keeps a
/// subsequence of its readings, never loses its last one, and every
/// removed reading is recorded in the trace with the forms of its token
/// and of the token that licensed the removal.
pub fn disambiguate_readings(
    tokens: &[Token],
    readings: &mut Vec<Vec<MorphAnalysis>>,
    prepositions: &[PrepositionGovernmentEntry],
) -> (r: DisambiguationTrace)
    requires
        old(readings)@.len() >= tokens@.len(),
    ensures
        final(readings)@.len() == old(readings)@.len(),
        forall|i: int| 0 <= i < old(readings)@.len() ==> is_subsequence(#[trigger] final(readings)@[i]@, old(readings)@[i]@),
        forall|i: int|
            0 <= i < old(readings)@.len() && old(readings)@[i]@.len() > 0 ==> (#[trigger] final(readings)@[i])@.len() > 0,
        total_readings(old(readings)@) - total_readings(final(readings)@) == r.eliminations@.len(),
        1 <= r.passes <= 3,
        forall|k: int| 0 <= k < r.eliminations@.len() ==> elimination_ok(tokens@, #[trigger] r.eliminations@[k]),
        reading_views(final(readings)@) == passes_from(tokens@, reading_views(old(readings)@), prepositions@, 0),
        r.passes == pass_count(tokens@, reading_views(old(readings)@), prepositions@, 0),
{
    let ghost r0 = readings@;
    let mut trace = DisambiguationTrace { eliminations: Vec::new(), passes: 0 };
    let ghost t0 = trace.eliminations@;
    proof {
        lemma_progress_refl(tokens@, r0, t0);
    }
    loop
        invariant_except_break
            trace.passes < 3,
            passes_from(tokens@, reading_views(r0), prepositions@, 0) == passes_from(
                tokens@,
                reading_views(readings@),
                prepositions@,
                trace.passes as nat,
            ),
            pass_count(tokens@, reading_views(r0), prepositions@, 0) == pass_count(
                tokens@,
                reading_views(readings@),
                prepositions@,
                trace.passes as nat,
            ),
        invariant
            readings@.len() == r0.len(),
            r0.len() >= tokens@.len(),
            t0 == Seq::<ReadingElimination>::empty(),
            progress(tokens@, r0, readings@, t0, trace.eliminations@),
            trace.passes <= 3,
        ensures
            progress(tokens@, r0, readings@, t0, trace.eliminations@),
            1 <= trace.passes <= 3,
            reading_views(readings@) == passes_from(tokens@, reading_views(r0), prepositions@, 0),
            trace.passes == pass_count(tokens@, reading_views(r0), prepositions@, 0),
        decreases 3 - trace.passes,
    {
        let before = trace.eliminations.len();
        let ghost d = trace.passes as nat;
        let ghost vd = reading_views(readings@);
        let ghost rd = readings@;
        trace.passes = trace.passes + 1;
        let ghost r1 = readings@;
        let ghost t1 = trace.eliminations@;
        apply_preposition_constraints(tokens, readings, prepositions, &mut trace);
        proof {
            lemma_progress_trans(tokens@, r0, r1, readings@, t0, t1, trace.eliminations@);
        }
        let ghost r2 = readings@;
        let ghost t2 = trace.eliminations@;
        apply_modifier_head_agreement(tokens, readings, &mut trace);
        proof {
            lemma_progress_trans(tokens@, r0, r2, readings@, t0, t2, trace.eliminations@);
            lemma_progress_trans(tokens@, r1, r2, readings@, t1, t2, trace.eliminations@);
            lemma_reading_count(r1);
            lemma_reading_count(readings@);
            assert(reading_views(readings@) == one_pass(tokens@, vd, prepositions@));
            assert((trace.eliminations@.len() == before) == (reading_count(reading_views(readings@)) == reading_count(vd)));
        }
        if trace.eliminations.len() == before || trace.passes >= 3 {
            break;
        }
        proof {
            assert(trace.passes as nat == d + 1);
            assert(passes_from(tokens@, vd, prepositions@, d) == passes_from(
                tokens@,
                reading_views(readings@),
                prepositions@,
                d + 1,
            ));
            assert(pass_count(tokens@, vd, prepositions@, d) == pass_count(
                tokens@,
                reading_views(readings@),
                prepositions@,
                d + 1,
            ));
        }
    }
    assert(trace.eliminations@.take(0) =~= t0);
    trace
}

} // verus!
