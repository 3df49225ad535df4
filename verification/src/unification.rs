use vstd::prelude::*;
use crate::readings::{spec_can_agree_as_adj_noun, Case, Gender, MorphAnalysis, Number};
use crate::syntax::government::MorphCompatibility;

verus! {

/// A feature on which a modifier and its noun must agree.
#[derive(Debug, Clone, Copy, PartialEq, Eq, Structural, PartialOrd, Ord, Hash)]
pub enum AgreementFeatureKind {
    Case,
    Number,
    Gender,
}

/// What one feature contributes: the two sides share a value, share none,
/// or one side does not say.
#[derive(Debug, Clone, Copy, PartialEq, Eq, Structural, PartialOrd, Ord, Hash)]
pub enum FeatureUnificationStatus {
    Shared,
    Conflict,
    Unknown,
}

/// The values each side allows for one feature, over all its readings,
/// and the values both allow, each list in the feature's own order.
#[derive(Debug, Clone, PartialEq, Eq)]
pub struct FeatureUnificationStep {
    pub feature: AgreementFeatureKind,
    pub left: Vec<String>,
    pub right: Vec<String>,
    pub intersection: Vec<String>,
    pub status: FeatureUnificationStatus,
}

/// Feature-by-feature unification of a modifier's readings with a noun's.
#[derive(Debug, Clone, PartialEq, Eq)]
pub struct FeatureUnification {
    pub steps: Vec<FeatureUnificationStep>,
}

/// The features in the order the steps take them.
pub open spec fn feature_at(i: int) -> AgreementFeatureKind {
    if i == 0 {
        AgreementFeatureKind::Case
    } else if i == 1 {
        AgreementFeatureKind::Number
    } else {
        AgreementFeatureKind::Gender
    }
}

/// How many values the feature has.
pub open spec fn value_count(f: AgreementFeatureKind) -> int {
    match f {
        AgreementFeatureKind::Case => 6,
        AgreementFeatureKind::Number => 2,
        AgreementFeatureKind::Gender => 3,
    }
}

pub open spec fn case_index(c: Case) -> int {
    match c {
        Case::Nominative => 0,
        Case::Genitive => 1,
        Case::Dative => 2,
        Case::Accusative => 3,
        Case::Instrumental => 4,
        Case::Prepositional => 5,
    }
}

pub open spec fn number_index(n: Number) -> int {
    match n {
        Number::Singular => 0,
        Number::Plural => 1,
    }
}

pub open spec fn gender_index(g: Gender) -> int {
    match g {
        Gender::Masculine => 0,
        Gender::Feminine => 1,
        Gender::Neuter => 2,
    }
}

/// The name of the `k`-th value of the feature.
pub open spec fn value_name(f: AgreementFeatureKind, k: int) -> Seq<char> {
    match f {
        AgreementFeatureKind::Case => if k == 0 {
            "Nominative"@
        } else if k == 1 {
            "Genitive"@
        } else if k == 2 {
            "Dative"@
        } else if k == 3 {
            "Accusative"@
        } else if k == 4 {
            "Instrumental"@
        } else {
            "Prepositional"@
        },
        AgreementFeatureKind::Number => if k == 0 {
            "Singular"@
        } else {
            "Plural"@
        },
        AgreementFeatureKind::Gender => if k == 0 {
            "Masculine"@
        } else if k == 1 {
            "Feminine"@
        } else {
            "Neuter"@
        },
    }
}

/// The reading has the `k`-th value of the feature.
pub open spec fn reading_has(f: AgreementFeatureKind, a: MorphAnalysis, k: int) -> bool {
    match f {
        AgreementFeatureKind::Case => a.features.case matches Some(c) && case_index(c) == k,
        AgreementFeatureKind::Number => a.features.number matches Some(n) && number_index(n) == k,
        AgreementFeatureKind::Gender => a.features.gender matches Some(g) && gender_index(g) == k,
    }
}

/// Some reading has the `k`-th value of the feature.
pub open spec fn some_reading_has(f: AgreementFeatureKind, v: Seq<MorphAnalysis>, k: int) -> bool {
    exists|j: int| 0 <= j < v.len() && reading_has(f, #[trigger] v[j], k)
}

/// The names of the first `k` values of the feature that some reading of
/// each side has, in the feature's order.
pub open spec fn shared_upto(f: AgreementFeatureKind, a: Seq<MorphAnalysis>, b: Seq<MorphAnalysis>, k: int) -> Seq<
    Seq<char>,
>
    decreases k,
{
    if k <= 0 {
        Seq::empty()
    } else if some_reading_has(f, a, k - 1) && some_reading_has(f, b, k - 1) {
        shared_upto(f, a, b, k - 1).push(value_name(f, k - 1))
    } else {
        shared_upto(f, a, b, k - 1)
    }
}

/// The names of the values of the feature allowed by both sides.
pub open spec fn shared_values(f: AgreementFeatureKind, a: Seq<MorphAnalysis>, b: Seq<MorphAnalysis>) -> Seq<
    Seq<char>,
> {
    shared_upto(f, a, b, value_count(f))
}

/// Unknown when a side gives no value; a conflict when both give values
/// and none is shared; shared otherwise.
pub open spec fn spec_step_status(f: AgreementFeatureKind, a: Seq<MorphAnalysis>, b: Seq<MorphAnalysis>) -> FeatureUnificationStatus {
    if shared_values(f, a, a).len() == 0 || shared_values(f, b, b).len() == 0 {
        FeatureUnificationStatus::Unknown
    } else if shared_values(f, a, b).len() == 0 {
        FeatureUnificationStatus::Conflict
    } else {
        FeatureUnificationStatus::Shared
    }
}

/// The names held by a list of strings.
pub open spec fn names_of(v: Seq<String>) -> Seq<Seq<char>> {
    v.map_values(|s: String| s@)
}

/// The step is the unification of feature `f` over the two sides.
pub open spec fn step_is(s: FeatureUnificationStep, f: AgreementFeatureKind, a: Seq<MorphAnalysis>, b: Seq<MorphAnalysis>) -> bool {
    &&& s.feature == f
    &&& names_of(s.left@) == shared_values(f, a, a)
    &&& names_of(s.right@) == shared_values(f, b, b)
    &&& names_of(s.intersection@) == shared_values(f, a, b)
    &&& s.status == spec_step_status(f, a, b)
}

/// Incompatible when some feature conflicts; compatible when none does and
/// some feature is shared; unknown when no side says anything.
pub open spec fn spec_unification_compatibility(steps: Seq<FeatureUnificationStep>) -> MorphCompatibility {
    if exists|i: int| 0 <= i < steps.len() && (#[trigger] steps[i]).status == FeatureUnificationStatus::Conflict {
        MorphCompatibility::Incompatible
    } else if exists|i: int| 0 <= i < steps.len() && (#[trigger] steps[i]).status == FeatureUnificationStatus::Shared {
        MorphCompatibility::Compatible
    } else {
        MorphCompatibility::Unknown
    }
}

impl FeatureUnification {
    /// Whether the two sides can agree, as the steps decide it.
    pub fn compatibility(&self) -> (r: MorphCompatibility)
        ensures
            r == spec_unification_compatibility(self.steps@),
    {
        let mut i: usize = 0;
        let mut shared = false;
        while i < self.steps.len()
            invariant
                i <= self.steps@.len(),
                forall|j: int| 0 <= j < i ==> (#[trigger] self.steps@[j]).status != FeatureUnificationStatus::Conflict,
                shared == exists|j: int|
                    0 <= j < i && (#[trigger] self.steps@[j]).status == FeatureUnificationStatus::Shared,
            decreases self.steps@.len() - i,
        {
            if self.steps[i].status == FeatureUnificationStatus::Conflict {
                return MorphCompatibility::Incompatible;
            }
            if self.steps[i].status == FeatureUnificationStatus::Shared {
                shared = true;
            }
            i += 1;
        }
        if shared {
            MorphCompatibility::Compatible
        } else {
            MorphCompatibility::Unknown
        }
    }
}

fn value_count_of(f: AgreementFeatureKind) -> (r: usize)
    ensures
        r == value_count(f),
{
    match f {
        AgreementFeatureKind::Case => 6,
        AgreementFeatureKind::Number => 2,
        AgreementFeatureKind::Gender => 3,
    }
}

fn value_name_str(f: AgreementFeatureKind, k: usize) -> (r: &'static str)
    ensures
        r@ == value_name(f, k as int),
{
    match f {
        AgreementFeatureKind::Case => if k == 0 {
            "Nominative"
        } else if k == 1 {
            "Genitive"
        } else if k == 2 {
            "Dative"
        } else if k == 3 {
            "Accusative"
        } else if k == 4 {
            "Instrumental"
        } else {
            "Prepositional"
        },
        AgreementFeatureKind::Number => if k == 0 {
            "Singular"
        } else {
            "Plural"
        },
        AgreementFeatureKind::Gender => if k == 0 {
            "Masculine"
        } else if k == 1 {
            "Feminine"
        } else {
            "Neuter"
        },
    }
}

fn reading_has_value(f: AgreementFeatureKind, a: &MorphAnalysis, k: usize) -> (r: bool)
    ensures
        r == reading_has(f, *a, k as int),
{
    match f {
        AgreementFeatureKind::Case => match a.features.case {
            Some(c) => {
                let idx: usize = match c {
                    Case::Nominative => 0,
                    Case::Genitive => 1,
                    Case::Dative => 2,
                    Case::Accusative => 3,
                    Case::Instrumental => 4,
                    Case::Prepositional => 5,
                };
                idx == k
            },
            None => false,
        },
        AgreementFeatureKind::Number => match a.features.number {
            Some(n) => {
                let idx: usize = match n {
                    Number::Singular => 0,
                    Number::Plural => 1,
                };
                idx == k
            },
            None => false,
        },
        AgreementFeatureKind::Gender => match a.features.gender {
            Some(g) => {
                let idx: usize = match g {
                    Gender::Masculine => 0,
                    Gender::Feminine => 1,
                    Gender::Neuter => 2,
                };
                idx == k
            },
            None => false,
        },
    }
}

fn any_reading_has(f: AgreementFeatureKind, v: &[MorphAnalysis], k: usize) -> (r: bool)
    ensures
        r == some_reading_has(f, v@, k as int),
{
    let mut j: usize = 0;
    while j < v.len()
        invariant
            j <= v@.len(),
            forall|i: int| 0 <= i < j ==> !reading_has(f, #[trigger] v@[i], k as int),
        decreases v@.len() - j,
    {
        if reading_has_value(f, &v[j], k) {
            return true;
        }
        j += 1;
    }
    false
}

fn shared_names(f: AgreementFeatureKind, a: &[MorphAnalysis], b: &[MorphAnalysis]) -> (r: Vec<String>)
    ensures
        names_of(r@) == shared_values(f, a@, b@),
{
    let n = value_count_of(f);
    let mut out: Vec<String> = Vec::new();
    let mut k: usize = 0;
    while k < n
        invariant
            k <= n,
            n == value_count(f),
            names_of(out@) == shared_upto(f, a@, b@, k as int),
        decreases n - k,
    {
        if any_reading_has(f, a, k) && any_reading_has(f, b, k) {
            let name = value_name_str(f, k).to_owned();
            let ghost before = out@;
            out.push(name);
            proof {
                assert(names_of(out@) =~= names_of(before).push(name@));
            }
        }
        k += 1;
    }
    out
}

fn unification_step(f: AgreementFeatureKind, a: &[MorphAnalysis], b: &[MorphAnalysis]) -> (r: FeatureUnificationStep)
    ensures
        step_is(r, f, a@, b@),
{
    let left = shared_names(f, a, a);
    let right = shared_names(f, b, b);
    let intersection = shared_names(f, a, b);
    let status = if left.len() == 0 || right.len() == 0 {
        FeatureUnificationStatus::Unknown
    } else if intersection.len() == 0 {
        FeatureUnificationStatus::Conflict
    } else {
        FeatureUnificationStatus::Shared
    };
    FeatureUnificationStep { feature: f, left, right, intersection, status }
}

/// Unifies a modifier's readings with a noun's over case, number and
/// gender: for each feature the values each side allows, the values both
/// allow, and whether they share one, conflict, or cannot tell.
pub fn adjective_noun_feature_unification(adjective: &[MorphAnalysis], noun: &[MorphAnalysis]) -> (r: FeatureUnification)
    ensures
        unification_of(r, adjective@, noun@),
{
    let mut steps: Vec<FeatureUnificationStep> = Vec::new();
    steps.push(unification_step(AgreementFeatureKind::Case, adjective, noun));
    steps.push(unification_step(AgreementFeatureKind::Number, adjective, noun));
    steps.push(unification_step(AgreementFeatureKind::Gender, adjective, noun));
    FeatureUnification { steps }
}

/// `u` is what unification gives for these two sides.
pub open spec fn unification_of(u: FeatureUnification, a: Seq<MorphAnalysis>, b: Seq<MorphAnalysis>) -> bool {
    &&& u.steps@.len() == 3
    &&& forall|i: int| 0 <= i < 3 ==> step_is(#[trigger] u.steps@[i], feature_at(i), a, b)
}

/// The position of the reading's value of the feature, when it has one.
pub open spec fn value_index(f: AgreementFeatureKind, a: MorphAnalysis) -> Option<int> {
    match f {
        AgreementFeatureKind::Case => match a.features.case {
            Some(c) => Some(case_index(c)),
            None => None,
        },
        AgreementFeatureKind::Number => match a.features.number {
            Some(n) => Some(number_index(n)),
            None => None,
        },
        AgreementFeatureKind::Gender => match a.features.gender {
            Some(g) => Some(gender_index(g)),
            None => None,
        },
    }
}

proof fn lemma_value_index(f: AgreementFeatureKind, a: MorphAnalysis, k: int)
    ensures
        reading_has(f, a, k) <==> value_index(f, a) == Some(k),
        value_index(f, a) matches Some(j) ==> 0 <= j < value_count(f),
{
}

proof fn lemma_shared_upto_empty(f: AgreementFeatureKind, x: Seq<MorphAnalysis>, y: Seq<MorphAnalysis>, k: int)
    ensures
        shared_upto(f, x, y, k).len() == 0 <==> forall|j: int|
            0 <= j < k ==> !(#[trigger] some_reading_has(f, x, j) && some_reading_has(f, y, j)),
    decreases k,
{
    if k > 0 {
        lemma_shared_upto_empty(f, x, y, k - 1);
    }
}

proof fn lemma_single_has(f: AgreementFeatureKind, a: MorphAnalysis, j: int)
    ensures
        some_reading_has(f, seq![a], j) <==> value_index(f, a) == Some(j),
{
    let s = seq![a];
    assert(s[0] == a);
    lemma_value_index(f, a, j);
    if some_reading_has(f, s, j) {
        let i = choose|i: int| 0 <= i < s.len() && reading_has(f, #[trigger] s[i], j);
        assert(i == 0);
    }
}

/// The two readings both have a value of the feature, and the values differ.
pub open spec fn values_clash(f: AgreementFeatureKind, a: MorphAnalysis, b: MorphAnalysis) -> bool {
    value_index(f, a) is Some && value_index(f, b) is Some && value_index(f, a) != value_index(f, b)
}

proof fn lemma_single_step_conflict(f: AgreementFeatureKind, a: MorphAnalysis, b: MorphAnalysis)
    ensures
        spec_step_status(f, seq![a], seq![b]) == FeatureUnificationStatus::Conflict <==> values_clash(f, a, b),
{
    let n = value_count(f);
    lemma_shared_upto_empty(f, seq![a], seq![a], n);
    lemma_shared_upto_empty(f, seq![b], seq![b], n);
    lemma_shared_upto_empty(f, seq![a], seq![b], n);
    lemma_value_index(f, a, 0);
    lemma_value_index(f, b, 0);
    match value_index(f, a) {
        Some(ja) => {
            lemma_single_has(f, a, ja);
            match value_index(f, b) {
                Some(jb) => {
                    lemma_single_has(f, b, jb);
                    lemma_value_index(f, b, jb);
                    lemma_value_index(f, a, ja);
                    if ja == jb {
                        assert(some_reading_has(f, seq![a], ja) && some_reading_has(f, seq![b], ja));
                    } else {
                        assert forall|j: int| 0 <= j < n implies !(#[trigger] some_reading_has(f, seq![a], j)
                            && some_reading_has(f, seq![b], j)) by {
                            lemma_single_has(f, a, j);
                            lemma_single_has(f, b, j);
                        }
                    }
                },
                None => {
                    assert forall|j: int| 0 <= j < n implies !(#[trigger] some_reading_has(f, seq![b], j)
                        && some_reading_has(f, seq![b], j)) by {
                        lemma_single_has(f, b, j);
                    }
                },
            }
        },
        None => {
            assert forall|j: int| 0 <= j < n implies !(#[trigger] some_reading_has(f, seq![a], j)
                && some_reading_has(f, seq![a], j)) by {
                lemma_single_has(f, a, j);
            }
        },
    }
}

/// For one modifier reading and one noun reading, unification rejects the
/// pair exactly when the readings cannot agree in case, number and gender.
pub proof fn law_unification_rejects_exactly_disagreeing_pairs(a: MorphAnalysis, n: MorphAnalysis, u: FeatureUnification)
    requires
        unification_of(u, seq![a], seq![n]),
    ensures
        (spec_unification_compatibility(u.steps@) == MorphCompatibility::Incompatible) <==> !spec_can_agree_as_adj_noun(
            a,
            n,
        ),
{
    lemma_single_step_conflict(AgreementFeatureKind::Case, a, n);
    lemma_single_step_conflict(AgreementFeatureKind::Number, a, n);
    lemma_single_step_conflict(AgreementFeatureKind::Gender, a, n);
    assert(step_is(u.steps@[0], feature_at(0), seq![a], seq![n]));
    assert(step_is(u.steps@[1], feature_at(1), seq![a], seq![n]));
    assert(step_is(u.steps@[2], feature_at(2), seq![a], seq![n]));
}

} // verus!
