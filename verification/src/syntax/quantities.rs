use vstd::prelude::*;
use crate::text::{lower_chars, lower_seq, Span, Token, TokenKind};
use crate::unicode::{chars_eq_str, str_chars};
use crate::syntax::model::{spec_confidence_actionable, SyntaxConfidence};
use crate::syntax::relations::{
    confidence_for, confidence_from_blockers, merge_blockers, sorted_blockers, SyntaxRelationBlocker,
};
use crate::syntax::nominal_groups::{
    copy_blockers, following_word, following_word_after_plain_gap, gap_blockers, gap_blockers_after,
    group_actionable, lemma_no_long_group, nominal_group_from_start, opt_group_view,
    spec_nominal_group, NominalGroupCandidate, NominalGroupView,
};

verus! {

broadcast use vstd::seq_lib::group_seq_properties;

#[derive(Debug, Clone, Copy, PartialEq, Eq, Structural, PartialOrd, Ord, Hash)]
pub enum NumeralComponentClass {
    UnitOne,
    UnitPaucal,
    UnitMany,
    Teen,
    Decade,
    Hundred,
    Thousand,
    Collective,
    Ordinal,
    Unknown,
}

pub open spec fn spec_can_select(c: NumeralComponentClass) -> bool {
    !(c == NumeralComponentClass::Ordinal || c == NumeralComponentClass::Unknown)
}

impl NumeralComponentClass {
    /// Whether a component of this class decides the form of the counted
    /// noun.
    pub fn can_select_governed_nominal_form(self) -> (r: bool)
        ensures
            r == spec_can_select(self),
    {
        match self {
            NumeralComponentClass::Ordinal | NumeralComponentClass::Unknown => false,
            _ => true,
        }
    }
}

/// The class of a lowercased numeral word.
pub open spec fn spec_numeral_class(w: Seq<char>) -> NumeralComponentClass {
    if w == "один"@ || w == "одна"@ || w == "одно"@ || w == "одни"@ {
        NumeralComponentClass::UnitOne
    } else if w == "два"@ || w == "две"@ || w == "три"@ || w == "четыре"@ {
        NumeralComponentClass::UnitPaucal
    } else if w == "пять"@ || w == "шесть"@ || w == "семь"@ || w == "восемь"@ || w == "девять"@ {
        NumeralComponentClass::UnitMany
    } else if w == "десять"@ || w == "одиннадцать"@ || w == "двенадцать"@ || w == "тринадцать"@
        || w == "четырнадцать"@ || w == "пятнадцать"@ || w == "шестнадцать"@ || w == "семнадцать"@
        || w == "восемнадцать"@ || w == "девятнадцать"@ {
        NumeralComponentClass::Teen
    } else if w == "двадцать"@ || w == "тридцать"@ || w == "сорок"@ || w == "пятьдесят"@
        || w == "шестьдесят"@ || w == "семьдесят"@ || w == "восемьдесят"@ || w == "девяносто"@ {
        NumeralComponentClass::Decade
    } else if w == "сто"@ || w == "двести"@ || w == "триста"@ || w == "четыреста"@ || w == "пятьсот"@
        || w == "шестьсот"@ || w == "семьсот"@ || w == "восемьсот"@ || w == "девятьсот"@ {
        NumeralComponentClass::Hundred
    } else if w == "тысяча"@ || w == "тысячи"@ || w == "тысяч"@ {
        NumeralComponentClass::Thousand
    } else if w == "оба"@ || w == "обе"@ || w == "двое"@ || w == "трое"@ || w == "четверо"@
        || w == "пятеро"@ || w == "шестеро"@ || w == "семеро"@ {
        NumeralComponentClass::Collective
    } else {
        NumeralComponentClass::Unknown
    }
}

fn numeral_class_of(w: &[char]) -> (r: NumeralComponentClass)
    ensures
        r == spec_numeral_class(w@),
{
    if chars_eq_str(w, "один") || chars_eq_str(w, "одна") || chars_eq_str(w, "одно") || chars_eq_str(w, "одни") {
        NumeralComponentClass::UnitOne
    } else if chars_eq_str(w, "два") || chars_eq_str(w, "две") || chars_eq_str(w, "три") || chars_eq_str(
        w,
        "четыре",
    ) {
        NumeralComponentClass::UnitPaucal
    } else if chars_eq_str(w, "пять") || chars_eq_str(w, "шесть") || chars_eq_str(w, "семь") || chars_eq_str(
        w,
        "восемь",
    ) || chars_eq_str(w, "девять") {
        NumeralComponentClass::UnitMany
    } else if chars_eq_str(w, "десять") || chars_eq_str(w, "одиннадцать") || chars_eq_str(w, "двенадцать")
        || chars_eq_str(w, "тринадцать") || chars_eq_str(w, "четырнадцать") || chars_eq_str(w, "пятнадцать")
        || chars_eq_str(w, "шестнадцать") || chars_eq_str(w, "семнадцать") || chars_eq_str(w, "восемнадцать")
        || chars_eq_str(w, "девятнадцать") {
        NumeralComponentClass::Teen
    } else if chars_eq_str(w, "двадцать") || chars_eq_str(w, "тридцать") || chars_eq_str(w, "сорок")
        || chars_eq_str(w, "пятьдесят") || chars_eq_str(w, "шестьдесят") || chars_eq_str(w, "семьдесят")
        || chars_eq_str(w, "восемьдесят") || chars_eq_str(w, "девяносто") {
        NumeralComponentClass::Decade
    } else if chars_eq_str(w, "сто") || chars_eq_str(w, "двести") || chars_eq_str(w, "триста")
        || chars_eq_str(w, "четыреста") || chars_eq_str(w, "пятьсот") || chars_eq_str(w, "шестьсот")
        || chars_eq_str(w, "семьсот") || chars_eq_str(w, "восемьсот") || chars_eq_str(w, "девятьсот") {
        NumeralComponentClass::Hundred
    } else if chars_eq_str(w, "тысяча") || chars_eq_str(w, "тысячи") || chars_eq_str(w, "тысяч") {
        NumeralComponentClass::Thousand
    } else if chars_eq_str(w, "оба") || chars_eq_str(w, "обе") || chars_eq_str(w, "двое") || chars_eq_str(
        w,
        "трое",
    ) || chars_eq_str(w, "четверо") || chars_eq_str(w, "пятеро") || chars_eq_str(w, "шестеро")
        || chars_eq_str(w, "семеро") {
        NumeralComponentClass::Collective
    } else {
        NumeralComponentClass::Unknown
    }
}

/// The class of a numeral word, after lowercasing it.
pub fn numeral_component_class_for_surface(surface: &str) -> (r: NumeralComponentClass)
    ensures
        r == spec_numeral_class(lower_seq(surface@)),
{
    let c = str_chars(surface);
    let l = lower_chars(c.as_slice());
    numeral_class_of(l.as_slice())
}

pub struct SlotView {
    pub token_index: usize,
    pub token: Token,
    pub component_class: NumeralComponentClass,
    pub span: Span,
    pub confidence: SyntaxConfidence,
    pub blockers: Seq<SyntaxRelationBlocker>,
}

/// One word of a numeral phrase with its class.
#[derive(Debug, Clone, PartialEq, Eq)]
pub struct NumeralComponentSlot {
    pub token_index: usize,
    pub token: Token,
    pub component_class: NumeralComponentClass,
    pub span: Span,
    pub confidence: SyntaxConfidence,
    pub blockers: Vec<SyntaxRelationBlocker>,
}

impl View for NumeralComponentSlot {
    type V = SlotView;

    open spec fn view(&self) -> SlotView {
        SlotView {
            token_index: self.token_index,
            token: self.token,
            component_class: self.component_class,
            span: self.span,
            confidence: self.confidence,
            blockers: self.blockers@,
        }
    }
}

pub open spec fn slot_views(v: Seq<NumeralComponentSlot>) -> Seq<SlotView> {
    v.map_values(|s: NumeralComponentSlot| s@)
}

impl NumeralComponentSlot {
    pub fn is_actionable(&self) -> (r: bool)
        ensures
            r == (spec_confidence_actionable(self.confidence) && self.blockers@.len() == 0),
    {
        self.confidence.is_actionable() && self.blockers.len() == 0
    }

    pub fn duplicate(&self) -> (r: Self)
        ensures
            r@ == self@,
    {
        NumeralComponentSlot {
            token_index: self.token_index,
            token: self.token.duplicate(),
            component_class: self.component_class,
            span: self.span,
            confidence: self.confidence,
            blockers: copy_blockers(&self.blockers),
        }
    }
}

/// The slot of token `i`, with the blockers of the gap before it.
pub open spec fn slot_of(toks: Seq<Token>, i: int, bs: Seq<SyntaxRelationBlocker>) -> SlotView {
    SlotView {
        token_index: i as usize,
        token: toks[i],
        component_class: spec_numeral_class(lower_seq(toks[i].text@)),
        span: toks[i].span,
        confidence: confidence_for(bs),
        blockers: bs,
    }
}

/// Walking `remaining` numeral words from `current`: the words, their
/// slots, the blockers of the gaps between them and the last index.
pub open spec fn phrase_walk(toks: Seq<Token>, current: int, first: bool, remaining: int) -> Option<
    (Seq<Token>, Seq<SlotView>, Seq<SyntaxRelationBlocker>, int),
>
    decreases remaining,
{
    if remaining <= 0 || !(0 <= current < toks.len()) || toks[current].kind != TokenKind::Word {
        None
    } else {
        let cb = if first {
            Seq::empty()
        } else {
            gap_blockers(toks, current - 2)
        };
        let slot = slot_of(toks, current, cb);
        if remaining == 1 {
            Some((seq![toks[current]], seq![slot], Seq::empty(), current))
        } else {
            match following_word(toks, current) {
                None => None,
                Some(nx) => match phrase_walk(toks, nx, false, remaining - 1) {
                    None => None,
                    Some(r) => Some(
                        (seq![toks[current]] + r.0, seq![slot] + r.1, gap_blockers(toks, current) + r.2, r.3),
                    ),
                },
            }
        }
    }
}

pub proof fn lemma_phrase_walk_end(toks: Seq<Token>, current: int, first: bool, remaining: int)
    requires
        phrase_walk(toks, current, first, remaining) is Some,
    ensures
        phrase_walk(toks, current, first, remaining).unwrap().3 == current + 2 * (remaining - 1),
        0 <= current <= phrase_walk(toks, current, first, remaining).unwrap().3 < toks.len(),
        phrase_walk(toks, current, first, remaining).unwrap().0.len() == remaining,
    decreases remaining,
{
    if remaining > 1 {
        let nx = following_word(toks, current).unwrap();
        lemma_phrase_walk_end(toks, nx, false, remaining - 1);
    }
}

pub struct PhraseView {
    pub start_token: usize,
    pub end_token: usize,
    pub tokens: Seq<Token>,
    pub components: Seq<SlotView>,
    pub span: Span,
    pub confidence: SyntaxConfidence,
    pub blockers: Seq<SyntaxRelationBlocker>,
}

/// The phrase of `word_count` numeral words from token `start`, each pair
/// separated by white space only.
pub open spec fn spec_numeral_phrase(toks: Seq<Token>, start: int, word_count: int) -> Option<PhraseView> {
    match phrase_walk(toks, start, true, word_count) {
        None => None,
        Some(w) => if 0 <= start < toks.len() && 0 <= w.3 < toks.len() {
            Some(
                PhraseView {
                    start_token: start as usize,
                    end_token: w.3 as usize,
                    tokens: w.0,
                    components: w.1,
                    span: Span { start: toks[start].span.start, end: toks[w.3].span.end },
                    confidence: confidence_for(w.2),
                    blockers: w.2,
                },
            )
        } else {
            None
        },
    }
}

/// Two or more numeral words read as one number.
#[derive(Debug, Clone, PartialEq, Eq)]
pub struct NumeralPhraseCandidate {
    pub start_token: usize,
    pub end_token: usize,
    pub tokens: Vec<Token>,
    pub components: Vec<NumeralComponentSlot>,
    pub span: Span,
    pub confidence: SyntaxConfidence,
    pub blockers: Vec<SyntaxRelationBlocker>,
}

impl View for NumeralPhraseCandidate {
    type V = PhraseView;

    open spec fn view(&self) -> PhraseView {
        PhraseView {
            start_token: self.start_token,
            end_token: self.end_token,
            tokens: self.tokens@,
            components: slot_views(self.components@),
            span: self.span,
            confidence: self.confidence,
            blockers: self.blockers@,
        }
    }
}

pub open spec fn phrase_actionable(p: PhraseView) -> bool {
    spec_confidence_actionable(p.confidence) && p.blockers.len() == 0
}

/// Index of the last component before `k` that can select the noun form.
pub open spec fn last_governing(cs: Seq<SlotView>, k: int) -> Option<int>
    decreases k,
{
    if k <= 0 || k > cs.len() {
        None
    } else if spec_can_select(cs[k - 1].component_class) {
        Some(k - 1)
    } else {
        last_governing(cs, k - 1)
    }
}

impl NumeralPhraseCandidate {
    pub fn is_actionable(&self) -> (r: bool)
        ensures
            r == phrase_actionable(self@),
    {
        self.confidence.is_actionable() && self.blockers.len() == 0
    }

    /// The last component whose class decides the form of the counted noun.
    pub fn governing_component(&self) -> (r: Option<&NumeralComponentSlot>)
        ensures
            r matches Some(c) ==> last_governing(self@.components, self@.components.len() as int) matches Some(
                k,
            ) && c@ == self@.components[k],
            r is None ==> last_governing(self@.components, self@.components.len() as int) is None,
    {
        let ghost cs = self@.components;
        let mut k: usize = self.components.len();
        while k > 0 && !self.components[k - 1].component_class.can_select_governed_nominal_form()
            invariant
                k <= self.components@.len(),
                cs == slot_views(self.components@),
                last_governing(cs, cs.len() as int) == last_governing(cs, k as int),
            decreases k,
        {
            k = k - 1;
        }
        if k > 0 {
            Some(&self.components[k - 1])
        } else {
            None
        }
    }

    pub fn duplicate(&self) -> (r: Self)
        ensures
            r@ == self@,
    {
        let mut tokens: Vec<Token> = Vec::new();
        let mut i: usize = 0;
        while i < self.tokens.len()
            invariant
                i <= self.tokens@.len(),
                tokens@ == self.tokens@.take(i as int),
            decreases self.tokens@.len() - i,
        {
            tokens.push(self.tokens[i].duplicate());
            i = i + 1;
        }
        let mut components: Vec<NumeralComponentSlot> = Vec::new();
        let mut j: usize = 0;
        while j < self.components.len()
            invariant
                j <= self.components@.len(),
                slot_views(components@) == slot_views(self.components@.take(j as int)),
            decreases self.components@.len() - j,
        {
            let ghost o = components@;
            components.push(self.components[j].duplicate());
            proof {
                assert(self.components@.take(j as int + 1) =~= self.components@.take(j as int).push(
                    self.components@[j as int],
                ));
                assert(slot_views(components@) =~= slot_views(o).push(self.components@[j as int]@));
            }
            j = j + 1;
        }
        assert(self.tokens@.take(self.tokens@.len() as int) =~= self.tokens@);
        assert(self.components@.take(self.components@.len() as int) =~= self.components@);
        NumeralPhraseCandidate {
            start_token: self.start_token,
            end_token: self.end_token,
            tokens,
            components,
            span: self.span,
            confidence: self.confidence,
            blockers: copy_blockers(&self.blockers),
        }
    }
}

pub open spec fn opt_phrase_view(p: Option<NumeralPhraseCandidate>) -> Option<PhraseView> {
    match p {
        None => None,
        Some(x) => Some(x@),
    }
}

pub open spec fn walk_join(
    ts: Seq<Token>,
    ss: Seq<SlotView>,
    bs: Seq<SyntaxRelationBlocker>,
    w: Option<(Seq<Token>, Seq<SlotView>, Seq<SyntaxRelationBlocker>, int)>,
) -> Option<(Seq<Token>, Seq<SlotView>, Seq<SyntaxRelationBlocker>, int)> {
    match w {
        None => None,
        Some(r) => Some((ts + r.0, ss + r.1, bs + r.2, r.3)),
    }
}

pub fn numeral_phrase_from_start(tokens: &[Token], start: usize, word_count: usize) -> (r: Option<NumeralPhraseCandidate>)
    ensures
        opt_phrase_view(r) == spec_numeral_phrase(tokens@, start as int, word_count as int),
{
    let ghost toks = tokens@;
    if word_count == 0 {
        return None;
    }
    let mut phrase_tokens: Vec<Token> = Vec::new();
    let mut components: Vec<NumeralComponentSlot> = Vec::new();
    let mut blockers: Vec<SyntaxRelationBlocker> = Vec::new();
    let mut current = start;
    let mut position: usize = 0;
    loop
        invariant
            toks == tokens@,
            0 < word_count,
            position < word_count,
            position > 0 ==> current >= 2,
            phrase_walk(toks, start as int, true, word_count as int) == walk_join(
                phrase_tokens@,
                slot_views(components@),
                blockers@,
                phrase_walk(toks, current as int, position == 0, word_count - position),
            ),
        decreases word_count - position,
    {
        if current >= tokens.len() || tokens[current].kind != TokenKind::Word {
            return None;
        }
        let component_blockers = if position == 0 {
            Vec::new()
        } else {
            gap_blockers_after(tokens, current - 2)
        };
        let class = numeral_component_class_for_surface(tokens[current].text.as_str());
        let confidence = confidence_from_blockers(component_blockers.as_slice());
        let slot = NumeralComponentSlot {
            token_index: current,
            token: tokens[current].duplicate(),
            component_class: class,
            span: tokens[current].span,
            confidence,
            blockers: component_blockers,
        };
        let ghost t0 = phrase_tokens@;
        let ghost s0 = slot_views(components@);
        let ghost b0 = blockers@;
        assert(slot@ == slot_of(toks, current as int, slot@.blockers));
        phrase_tokens.push(tokens[current].duplicate());
        components.push(slot);
        assert(slot_views(components@) =~= s0.push(slot@));
        if position + 1 >= word_count {
            proof {
                assert(t0 + seq![toks[current as int]] =~= phrase_tokens@);
                assert(s0 + seq![slot@] =~= slot_views(components@));
                assert(b0 + Seq::<SyntaxRelationBlocker>::empty() =~= blockers@);
            }
            let end = current;
            let confidence = confidence_from_blockers(blockers.as_slice());
            if start >= tokens.len() {
                return None;
            }
            return Some(NumeralPhraseCandidate {
                start_token: start,
                end_token: end,
                span: Span::new(tokens[start].span.start, tokens[end].span.end),
                tokens: phrase_tokens,
                components,
                confidence,
                blockers,
            });
        }
        let gap = gap_blockers_after(tokens, current);
        let nx = match following_word_after_plain_gap(tokens, current) {
            None => {
                return None;
            },
            Some(j) => j,
        };
        let ghost tail = phrase_walk(toks, nx as int, false, word_count - position - 1);
        let mut gap = gap;
        blockers.append(&mut gap);
        proof {
            match tail {
                None => {},
                Some(rt) => {
                    assert(t0 + (seq![toks[current as int]] + rt.0) =~= phrase_tokens@ + rt.0);
                    assert(s0 + (seq![slot@] + rt.1) =~= slot_views(components@) + rt.1);
                    assert(b0 + (gap_blockers(toks, current as int) + rt.2) =~= blockers@ + rt.2);
                },
            }
        }
        current = nx;
        position = position + 1;
    }
}

pub proof fn lemma_no_long_phrase(toks: Seq<Token>, start: int, c: int)
    requires
        c > toks.len(),
    ensures
        spec_numeral_phrase(toks, start, c) is None,
{
    if phrase_walk(toks, start, true, c) is Some {
        lemma_phrase_walk_end(toks, start, true, c);
    }
}

pub struct QuantifiedView {
    pub numeral_phrase: PhraseView,
    pub group: NominalGroupView,
    pub span: Span,
    pub confidence: SyntaxConfidence,
    pub blockers: Seq<SyntaxRelationBlocker>,
}

/// A numeral phrase followed by the nominal group it counts.
#[derive(Debug, Clone, PartialEq, Eq)]
pub struct QuantifiedNominalGroupCandidate {
    pub numeral_phrase: NumeralPhraseCandidate,
    pub group: NominalGroupCandidate,
    pub span: Span,
    pub confidence: SyntaxConfidence,
    pub blockers: Vec<SyntaxRelationBlocker>,
}

impl View for QuantifiedNominalGroupCandidate {
    type V = QuantifiedView;

    open spec fn view(&self) -> QuantifiedView {
        QuantifiedView {
            numeral_phrase: self.numeral_phrase@,
            group: self.group@,
            span: self.span,
            confidence: self.confidence,
            blockers: self.blockers@,
        }
    }
}

impl QuantifiedNominalGroupCandidate {
    pub fn is_actionable(&self) -> (r: bool)
        ensures
            r == (spec_confidence_actionable(self.confidence) && self.blockers@.len() == 0 && phrase_actionable(
                self.numeral_phrase@,
            ) && group_actionable(self.group@)),
    {
        self.confidence.is_actionable() && self.blockers.len() == 0 && self.numeral_phrase.is_actionable()
            && self.group.is_actionable()
    }
}

/// The phrase and its group, with the blockers of the phrase, of the gap
/// after it and of the group merged.
pub open spec fn quantified_of(toks: Seq<Token>, ph: PhraseView, g: NominalGroupView) -> QuantifiedView {
    let inner = sorted_blockers(ph.blockers.to_set() + gap_blockers(toks, ph.end_token as int).to_set());
    let bs = sorted_blockers(inner.to_set() + g.blockers.to_set());
    QuantifiedView {
        numeral_phrase: ph,
        group: g,
        span: Span { start: ph.span.start, end: g.span.end },
        confidence: confidence_for(bs),
        blockers: bs,
    }
}

/// Candidates of phrase `ph` with a group at `gs` of 0 to `c - 1` modifiers.
pub open spec fn quantified_upto(toks: Seq<Token>, ph: PhraseView, gs: int, c: int) -> Seq<QuantifiedView>
    decreases c,
{
    if c <= 0 {
        Seq::empty()
    } else {
        let prev = quantified_upto(toks, ph, gs, c - 1);
        match spec_nominal_group(toks, gs, c - 1) {
            Some(g) => prev.push(quantified_of(toks, ph, g)),
            None => prev,
        }
    }
}

pub proof fn lemma_quantified_stable(toks: Seq<Token>, ph: PhraseView, gs: int, c: int)
    requires
        c >= toks.len() + 1,
    ensures
        quantified_upto(toks, ph, gs, c) == quantified_upto(toks, ph, gs, toks.len() as int + 1),
    decreases c,
{
    if c > toks.len() + 1 {
        lemma_no_long_group(toks, gs, c - 1);
        lemma_quantified_stable(toks, ph, gs, c - 1);
    }
}

/// Candidates whose numeral phrase has `nwc` words from token `start`.
pub open spec fn quantified_for_count(toks: Seq<Token>, start: int, nwc: int, maxm: int) -> Seq<QuantifiedView> {
    match spec_numeral_phrase(toks, start, nwc) {
        None => Seq::empty(),
        Some(ph) => match following_word(toks, ph.end_token as int) {
            None => Seq::empty(),
            Some(gs) => quantified_upto(toks, ph, gs, maxm + 1),
        },
    }
}

/// Candidates from token `start` with phrases of 2 to `k` words.
pub open spec fn quantified_counts(toks: Seq<Token>, start: int, k: int, maxm: int) -> Seq<QuantifiedView>
    decreases k,
{
    if k < 2 {
        Seq::empty()
    } else {
        quantified_counts(toks, start, k - 1, maxm) + quantified_for_count(toks, start, k, maxm)
    }
}

pub proof fn lemma_counts_stable(toks: Seq<Token>, start: int, k: int, maxm: int)
    requires
        k >= toks.len(),
    ensures
        quantified_counts(toks, start, k, maxm) == quantified_counts(toks, start, toks.len() as int, maxm),
    decreases k,
{
    if k > toks.len() {
        lemma_no_long_phrase(toks, start, k);
        assert(quantified_for_count(toks, start, k, maxm) =~= Seq::<QuantifiedView>::empty());
        lemma_counts_stable(toks, start, k - 1, maxm);
    }
}

/// Candidates of every start word before `k`, by start.
pub open spec fn spec_compound(toks: Seq<Token>, maxw: int, maxm: int, k: int) -> Seq<QuantifiedView>
    decreases k,
{
    if k <= 0 || k > toks.len() {
        Seq::empty()
    } else {
        spec_compound(toks, maxw, maxm, k - 1) + if toks[k - 1].kind == TokenKind::Word {
            quantified_counts(toks, k - 1, maxw, maxm)
        } else {
            Seq::empty()
        }
    }
}

pub open spec fn quantified_views(v: Seq<QuantifiedNominalGroupCandidate>) -> Seq<QuantifiedView> {
    v.map_values(|q: QuantifiedNominalGroupCandidate| q@)
}

fn push_quantified(
    out: &mut Vec<QuantifiedNominalGroupCandidate>,
    tokens: &[Token],
    phrase: &NumeralPhraseCandidate,
    g: Option<NominalGroupCandidate>,
)
    ensures
        quantified_views(final(out)@) == match opt_group_view(g) {
            Some(v) => quantified_views(old(out)@).push(quantified_of(tokens@, phrase@, v)),
            None => quantified_views(old(out)@),
        },
{
    match g {
        Some(group) => {
            let inner = merge_blockers(copy_blockers(&phrase.blockers), gap_blockers_after(tokens, phrase.end_token));
            let blockers = merge_blockers(inner, copy_blockers(&group.blockers));
            let confidence = confidence_from_blockers(blockers.as_slice());
            let q = QuantifiedNominalGroupCandidate {
                span: Span::new(phrase.span.start, group.span.end),
                numeral_phrase: phrase.duplicate(),
                group,
                confidence,
                blockers,
            };
            let ghost o = out@;
            out.push(q);
            assert(quantified_views(out@) =~= quantified_views(o).push(q@));
        },
        None => {},
    }
}

/// Numeral phrases of 2 to `max_numeral_words` words followed by a group of
/// 0 to `max_modifiers` modifiers, for every start word.
pub fn compound_numeral_nominal_group_candidates(
    tokens: &[Token],
    max_numeral_words: usize,
    max_modifiers: usize,
) -> (r: Vec<QuantifiedNominalGroupCandidate>)
    ensures
        quantified_views(r@) == spec_compound(
            tokens@,
            max_numeral_words as int,
            max_modifiers as int,
            tokens@.len() as int,
        ),
{
    let n = tokens.len();
    let limw = if max_numeral_words < n { max_numeral_words } else { n };
    let limm = if max_modifiers < n { max_modifiers } else { n };
    let mut out: Vec<QuantifiedNominalGroupCandidate> = Vec::new();
    let mut start: usize = 0;
    while start < n
        invariant
            n == tokens@.len(),
            limw == (if max_numeral_words < n { max_numeral_words } else { n }),
            limm == (if max_modifiers < n { max_modifiers } else { n }),
            start <= n,
            quantified_views(out@) == spec_compound(
                tokens@,
                max_numeral_words as int,
                max_modifiers as int,
                start as int,
            ),
        decreases n - start,
    {
        if tokens[start].kind == TokenKind::Word {
            let ghost before = quantified_views(out@);
            let mut k: usize = 1;
            while k < limw
                invariant
                    n == tokens@.len(),
                    limm == (if max_modifiers < n { max_modifiers } else { n }),
                    start < n,
                    1 <= k,
                    k <= limw || k == 1,
                    quantified_views(out@) == before + quantified_counts(
                        tokens@,
                        start as int,
                        k as int,
                        max_modifiers as int,
                    ),
                decreases limw - k,
            {
                let ghost mid = quantified_views(out@);
                match numeral_phrase_from_start(tokens, start, k + 1) {
                    None => {},
                    Some(phrase) => {
                        match following_word_after_plain_gap(tokens, phrase.end_token) {
                            None => {},
                            Some(gs) => {
                                let g0 = nominal_group_from_start(tokens, gs, 0);
                                push_quantified(&mut out, tokens, &phrase, g0);
                                proof {
                                    let u0 = quantified_upto(tokens@, phrase@, gs as int, 0);
                                    assert(u0 =~= Seq::<QuantifiedView>::empty());
                                    assert(quantified_views(out@) =~= mid + quantified_upto(
                                        tokens@,
                                        phrase@,
                                        gs as int,
                                        1,
                                    ));
                                }
                                let mut c: usize = 0;
                                while c < limm
                                    invariant
                                        n == tokens@.len(),
                                        c <= limm,
                                        quantified_views(out@) == mid + quantified_upto(
                                            tokens@,
                                            phrase@,
                                            gs as int,
                                            c as int + 1,
                                        ),
                                    decreases limm - c,
                                {
                                    let g = nominal_group_from_start(tokens, gs, c + 1);
                                    push_quantified(&mut out, tokens, &phrase, g);
                                    c = c + 1;
                                }
                                proof {
                                    if max_modifiers >= n {
                                        lemma_quantified_stable(tokens@, phrase@, gs as int, max_modifiers as int + 1);
                                    }
                                }
                            },
                        }
                    },
                }
                proof {
                    assert(quantified_views(out@) =~= before + quantified_counts(
                        tokens@,
                        start as int,
                        k as int + 1,
                        max_modifiers as int,
                    ));
                }
                k = k + 1;
            }
            proof {
                if max_numeral_words >= n {
                    lemma_counts_stable(tokens@, start as int, max_numeral_words as int, max_modifiers as int);
                }
                if limw <= 1 {
                    assert(quantified_counts(tokens@, start as int, max_numeral_words as int, max_modifiers as int)
                        =~= Seq::<QuantifiedView>::empty()) by {
                        if max_numeral_words >= n {
                            assert(quantified_counts(tokens@, start as int, n as int, max_modifiers as int)
                                =~= Seq::<QuantifiedView>::empty());
                        }
                    }
                }
            }
        }
        start = start + 1;
    }
    out
}

} // verus!
