use vstd::prelude::*;
use crate::text::{Token, TokenKind};
use crate::readings::{MorphAnalysis, MorphAnalyzer, PartOfSpeech};
use crate::syntax::diagnostics::SuppressionReason;

verus! {

broadcast use vstd::seq_lib::group_seq_properties;

#[derive(Debug, Clone, Copy, PartialEq, Eq, Structural, PartialOrd, Ord, Hash)]
pub enum AmbiguityClass {
    Unanalyzed,
    Unambiguous,
    AmbiguousSamePartOfSpeech,
    AmbiguousMultiplePartsOfSpeech,
}

pub open spec fn spec_is_ambiguous(c: AmbiguityClass) -> bool {
    c == AmbiguityClass::AmbiguousSamePartOfSpeech || c == AmbiguityClass::AmbiguousMultiplePartsOfSpeech
}

impl AmbiguityClass {
    pub fn is_ambiguous(self) -> (r: bool)
        ensures
            r == spec_is_ambiguous(self),
    {
        match self {
            AmbiguityClass::AmbiguousSamePartOfSpeech | AmbiguityClass::AmbiguousMultiplePartsOfSpeech => true,
            _ => false,
        }
    }
}

/// All readings share one part of speech.
pub open spec fn same_pos(v: Seq<MorphAnalysis>) -> bool {
    forall|i: int| 0 <= i < v.len() ==> (#[trigger] v[i]).pos == v[0].pos
}

/// No readings, one reading, or several of one or of several parts of
/// speech.
pub open spec fn spec_classify(v: Seq<MorphAnalysis>) -> AmbiguityClass {
    if v.len() == 0 {
        AmbiguityClass::Unanalyzed
    } else if v.len() == 1 {
        AmbiguityClass::Unambiguous
    } else if same_pos(v) {
        AmbiguityClass::AmbiguousSamePartOfSpeech
    } else {
        AmbiguityClass::AmbiguousMultiplePartsOfSpeech
    }
}

pub fn classify_analyses(analyses: &[MorphAnalysis]) -> (r: AmbiguityClass)
    ensures
        r == spec_classify(analyses@),
{
    if analyses.len() == 0 {
        return AmbiguityClass::Unanalyzed;
    }
    if analyses.len() == 1 {
        return AmbiguityClass::Unambiguous;
    }
    let first = analyses[0].pos;
    let mut i: usize = 1;
    while i < analyses.len() && analyses[i].pos == first
        invariant
            1 <= i <= analyses@.len(),
            first == analyses@[0].pos,
            forall|j: int| 0 <= j < i ==> (#[trigger] analyses@[j]).pos == first,
        decreases analyses@.len() - i,
    {
        i = i + 1;
    }
    if i < analyses.len() {
        assert(analyses@[i as int].pos != analyses@[0].pos);
        AmbiguityClass::AmbiguousMultiplePartsOfSpeech
    } else {
        AmbiguityClass::AmbiguousSamePartOfSpeech
    }
}

/// Unknown morphology blocks an unanalyzed token, ambiguous morphology an
/// ambiguous one.
pub open spec fn class_blockers(c: AmbiguityClass) -> Seq<SuppressionReason> {
    match c {
        AmbiguityClass::Unanalyzed => seq![SuppressionReason::UnknownMorphology],
        AmbiguityClass::Unambiguous => Seq::empty(),
        _ => seq![SuppressionReason::AmbiguousMorphology],
    }
}

/// The readings of one word or number token and how ambiguous they are.
#[derive(Debug, Clone, PartialEq, Eq)]
pub struct TokenAmbiguity {
    pub token_index: usize,
    pub token: Token,
    pub analyses: Vec<MorphAnalysis>,
    pub class: AmbiguityClass,
    pub blockers: Vec<SuppressionReason>,
}

pub open spec fn ambiguity_safe(t: TokenAmbiguity) -> bool {
    t.class == AmbiguityClass::Unambiguous && t.blockers@.len() == 0
}

impl TokenAmbiguity {
    pub fn is_safe_for_confident_diagnostic(&self) -> (r: bool)
        ensures
            r == ambiguity_safe(*self),
    {
        self.class == AmbiguityClass::Unambiguous && self.blockers.len() == 0
    }

    pub fn has_pos(&self, pos: PartOfSpeech) -> (r: bool)
        ensures
            r == exists|i: int| 0 <= i < self.analyses@.len() && (#[trigger] self.analyses@[i]).pos == pos,
    {
        let mut i: usize = 0;
        while i < self.analyses.len()
            invariant
                i <= self.analyses@.len(),
                forall|j: int| 0 <= j < i ==> (#[trigger] self.analyses@[j]).pos != pos,
            decreases self.analyses@.len() - i,
        {
            if self.analyses[i].pos == pos {
                return true;
            }
            i = i + 1;
        }
        false
    }
}

fn token_ambiguity(token_index: usize, token: &Token, analyses: Vec<MorphAnalysis>) -> (r: TokenAmbiguity)
    ensures
        r.token_index == token_index,
        r.token == *token,
        r.analyses == analyses,
        r.class == spec_classify(analyses@),
        r.blockers@ == class_blockers(r.class),
{
    let class = classify_analyses(analyses.as_slice());
    let mut blockers: Vec<SuppressionReason> = Vec::new();
    match class {
        AmbiguityClass::Unanalyzed => blockers.push(SuppressionReason::UnknownMorphology),
        AmbiguityClass::AmbiguousSamePartOfSpeech | AmbiguityClass::AmbiguousMultiplePartsOfSpeech => blockers.push(
            SuppressionReason::AmbiguousMorphology,
        ),
        AmbiguityClass::Unambiguous => {},
    }
    assert(blockers@ =~= class_blockers(class));
    TokenAmbiguity { token_index, token: token.duplicate(), analyses, class, blockers }
}

/// Word and number tokens are analysed.
pub open spec fn analyzable(t: Token) -> bool {
    t.kind == TokenKind::Word || t.kind == TokenKind::Number
}

/// Indices of the analysable tokens before `k`.
pub open spec fn analyzable_indices(toks: Seq<Token>, k: int) -> Seq<int>
    decreases k,
{
    if k <= 0 || k > toks.len() {
        Seq::empty()
    } else if analyzable(toks[k - 1]) {
        analyzable_indices(toks, k - 1).push(k - 1)
    } else {
        analyzable_indices(toks, k - 1)
    }
}

pub proof fn lemma_analyzable_indices(toks: Seq<Token>, k: int)
    ensures
        forall|j: int|
            0 <= j < analyzable_indices(toks, k).len() ==> 0 <= #[trigger] analyzable_indices(toks, k)[j] < k
                && analyzable_indices(toks, k)[j] < toks.len() && analyzable(toks[analyzable_indices(toks, k)[j]]),
        forall|i: int, j: int|
            0 <= i < j < analyzable_indices(toks, k).len() ==> #[trigger] analyzable_indices(toks, k)[i]
                < #[trigger] analyzable_indices(toks, k)[j],
    decreases k,
{
    if k > 0 && k <= toks.len() {
        lemma_analyzable_indices(toks, k - 1);
        let prev = analyzable_indices(toks, k - 1);
        let cur = analyzable_indices(toks, k);
        if analyzable(toks[k - 1]) {
            assert(cur == prev.push(k - 1));
            assert forall|j: int| 0 <= j < cur.len() implies 0 <= #[trigger] cur[j] < k && cur[j] < toks.len()
                && analyzable(toks[cur[j]]) by {
                if j < prev.len() {
                    assert(cur[j] == prev[j]);
                }
            }
            assert forall|i: int, j: int| 0 <= i < j < cur.len() implies #[trigger] cur[i] < #[trigger] cur[j] by {
                assert(cur[i] == prev[i]);
                if j < prev.len() {
                    assert(cur[j] == prev[j]);
                }
            }
        }
    }
}

/// `item` is the ambiguity of token `idx`, its readings being what the
/// reading source gave for it.
pub open spec fn ambiguity_of<F: Fn(usize) -> Vec<MorphAnalysis>>(toks: Seq<Token>, f: F, idx: int, item: TokenAmbiguity) -> bool {
    &&& item.token_index == idx
    &&& item.token == toks[idx]
    &&& call_ensures(f, (idx as usize,), item.analyses)
    &&& item.class == spec_classify(item.analyses@)
    &&& item.blockers@ == class_blockers(item.class)
}

/// The readings of every word and number token of a text.
#[derive(Debug, Clone, PartialEq, Eq)]
pub struct AmbiguityModel {
    token_ambiguities: Vec<TokenAmbiguity>,
}

impl AmbiguityModel {
    pub closed spec fn items(&self) -> Seq<TokenAmbiguity> {
        self.token_ambiguities@
    }

    /// Asks the analyzer for the readings of each word and number token, in
    /// order.
    pub fn from_tokens(tokens: &[Token], morph: &dyn MorphAnalyzer) -> (r: Self)
        ensures
            r.items().len() == analyzable_indices(tokens@, tokens@.len() as int).len(),
            forall|j: int|
                0 <= j < r.items().len() ==> ({
                    let item = #[trigger] r.items()[j];
                    let idx = analyzable_indices(tokens@, tokens@.len() as int)[j];
                    &&& item.token_index == idx
                    &&& item.token == tokens@[idx]
                    &&& item.class == spec_classify(item.analyses@)
                    &&& item.blockers@ == class_blockers(item.class)
                }),
    {
        let mut items: Vec<TokenAmbiguity> = Vec::new();
        let mut k: usize = 0;
        while k < tokens.len()
            invariant
                k <= tokens@.len(),
                items@.len() == analyzable_indices(tokens@, k as int).len(),
                forall|j: int|
                    0 <= j < items@.len() ==> ({
                        let item = #[trigger] items@[j];
                        let idx = analyzable_indices(tokens@, k as int)[j];
                        &&& item.token_index == idx
                        &&& item.token == tokens@[idx]
                        &&& item.class == spec_classify(item.analyses@)
                        &&& item.blockers@ == class_blockers(item.class)
                    }),
            decreases tokens@.len() - k,
        {
            if tokens[k].kind == TokenKind::Word || tokens[k].kind == TokenKind::Number {
                let analyses = morph.analyze(tokens[k].text.as_str());
                let item = token_ambiguity(k, &tokens[k], analyses);
                let ghost o = items@;
                items.push(item);
                proof {
                    let prev = analyzable_indices(tokens@, k as int);
                    let cur = analyzable_indices(tokens@, k as int + 1);
                    assert(cur == prev.push(k as int));
                    assert forall|j: int| 0 <= j < items@.len() implies ({
                        let item = #[trigger] items@[j];
                        let idx = cur[j];
                        &&& item.token_index == idx
                        &&& item.token == tokens@[idx]
                        &&& item.class == spec_classify(item.analyses@)
                        &&& item.blockers@ == class_blockers(item.class)
                    }) by {
                        if j < o.len() {
                            assert(items@[j] == o[j]);
                            assert(cur[j] == prev[j]);
                        }
                    }
                }
            }
            k = k + 1;
        }
        AmbiguityModel { token_ambiguities: items }
    }

    /// Asks `analyses_for_token` for the readings of each word and number
    /// token, in order.
    pub fn from_tokens_with_analyses<F: Fn(usize) -> Vec<MorphAnalysis>>(tokens: &[Token], analyses_for_token: F) -> (r: Self)
        requires
            forall|i: usize| i < tokens@.len() ==> call_requires(analyses_for_token, (i,)),
        ensures
            r.items().len() == analyzable_indices(tokens@, tokens@.len() as int).len(),
            forall|j: int|
                0 <= j < r.items().len() ==> ambiguity_of(
                    tokens@,
                    analyses_for_token,
                    analyzable_indices(tokens@, tokens@.len() as int)[j],
                    #[trigger] r.items()[j],
                ),
    {
        let mut items: Vec<TokenAmbiguity> = Vec::new();
        let mut k: usize = 0;
        while k < tokens.len()
            invariant
                k <= tokens@.len(),
                forall|i: usize| i < tokens@.len() ==> call_requires(analyses_for_token, (i,)),
                items@.len() == analyzable_indices(tokens@, k as int).len(),
                forall|j: int|
                    0 <= j < items@.len() ==> ambiguity_of(
                        tokens@,
                        analyses_for_token,
                        analyzable_indices(tokens@, k as int)[j],
                        #[trigger] items@[j],
                    ),
            decreases tokens@.len() - k,
        {
            if tokens[k].kind == TokenKind::Word || tokens[k].kind == TokenKind::Number {
                let analyses = analyses_for_token(k);
                let item = token_ambiguity(k, &tokens[k], analyses);
                let ghost o = items@;
                items.push(item);
                proof {
                    let prev = analyzable_indices(tokens@, k as int);
                    let cur = analyzable_indices(tokens@, k as int + 1);
                    assert(cur == prev.push(k as int));
                    assert forall|j: int| 0 <= j < items@.len() implies ambiguity_of(
                        tokens@,
                        analyses_for_token,
                        cur[j],
                        #[trigger] items@[j],
                    ) by {
                        if j < o.len() {
                            assert(items@[j] == o[j]);
                            assert(cur[j] == prev[j]);
                        }
                    }
                }
            }
            k = k + 1;
        }
        AmbiguityModel { token_ambiguities: items }
    }

    pub fn token_ambiguities(&self) -> (r: &[TokenAmbiguity])
        ensures
            r@ == self.items(),
    {
        self.token_ambiguities.as_slice()
    }

    /// The first item of the token, if it was analysed.
    pub fn for_token_index(&self, token_index: usize) -> (r: Option<&TokenAmbiguity>)
        ensures
            r matches Some(t) ==> item_for(self.items(), token_index, 0) matches Some(k) && *t == self.items()[k],
            r is None ==> item_for(self.items(), token_index, 0) is None,
    {
        let mut k: usize = 0;
        while k < self.token_ambiguities.len() && self.token_ambiguities[k].token_index != token_index
            invariant
                k <= self.token_ambiguities@.len(),
                item_for(self.token_ambiguities@, token_index, 0) == item_for(
                    self.token_ambiguities@,
                    token_index,
                    k as int,
                ),
            decreases self.token_ambiguities@.len() - k,
        {
            k = k + 1;
        }
        if k < self.token_ambiguities.len() {
            Some(&self.token_ambiguities[k])
        } else {
            None
        }
    }

    /// The readings of the token, none when it was not analysed.
    pub fn analyses_for_token(&self, token_index: usize) -> (r: &[MorphAnalysis])
        ensures
            r@ == spec_analyses_for(self.items(), token_index),
    {
        match self.for_token_index(token_index) {
            Some(item) => item.analyses.as_slice(),
            None => {
                let empty: &[MorphAnalysis] = &[];
                assert(empty@ =~= Seq::<MorphAnalysis>::empty());
                empty
            },
        }
    }
}

/// Index of the first item of token `t` from `k` on.
pub open spec fn item_for(items: Seq<TokenAmbiguity>, t: usize, k: int) -> Option<int>
    decreases items.len() - k,
{
    if k < 0 || k >= items.len() {
        None
    } else if items[k].token_index == t {
        Some(k)
    } else {
        item_for(items, t, k + 1)
    }
}

pub open spec fn spec_analyses_for(items: Seq<TokenAmbiguity>, t: usize) -> Seq<MorphAnalysis> {
    match item_for(items, t, 0) {
        Some(k) => items[k].analyses@,
        None => Seq::empty(),
    }
}

pub proof fn lemma_item_for(items: Seq<TokenAmbiguity>, t: usize, k: int)
    ensures
        item_for(items, t, k) matches Some(i) ==> 0 <= k <= i < items.len() && items[i].token_index == t,
    decreases items.len() - k,
{
    if 0 <= k < items.len() && items[k].token_index != t {
        lemma_item_for(items, t, k + 1);
    }
}

} // verus!
