use vstd::prelude::*;
use crate::text::{Span, Token, TokenKind};
use crate::syntax::model::{spec_confidence_actionable, SyntaxConfidence};
use crate::syntax::relations::{
    confidence_for, confidence_from_blockers, left_passes, merge_blockers, opt_view, sorted_blockers,
    spec_whitespace_blockers, whitespace_blockers, SyntaxRelationBlocker,
};
use crate::syntax::markers::marker_set_contains;
use crate::unicode::str_chars;
use crate::readings::{MorphAnalysis, PartOfSpeech};

verus! {

broadcast use vstd::seq_lib::group_seq_properties;

/// The word two tokens after `index` when a white-space token separates
/// them.
pub open spec fn following_word(toks: Seq<Token>, index: int) -> Option<int> {
    if 0 <= index && index + 2 < toks.len() && toks[index + 1].kind == TokenKind::Whitespace
        && toks[index + 2].kind == TokenKind::Word {
        Some(index + 2)
    } else {
        None
    }
}

/// The blockers of the white-space gap right after token `index`.
pub open spec fn gap_blockers(toks: Seq<Token>, index: int) -> Seq<SyntaxRelationBlocker> {
    if 0 <= index && index + 1 < toks.len() && toks[index + 1].kind == TokenKind::Whitespace {
        spec_whitespace_blockers(toks[index + 1].text@)
    } else {
        Seq::empty()
    }
}

pub fn following_word_after_plain_gap(tokens: &[Token], index: usize) -> (r: Option<usize>)
    ensures
        r matches Some(j) ==> following_word(tokens@, index as int) == Some(j as int),
        r is None ==> following_word(tokens@, index as int) is None,
{
    let n = tokens.len();
    if index < n && n - index > 2 && tokens[index + 1].kind == TokenKind::Whitespace
        && tokens[index + 2].kind == TokenKind::Word {
        Some(index + 2)
    } else {
        None
    }
}

pub fn gap_blockers_after(tokens: &[Token], index: usize) -> (r: Vec<SyntaxRelationBlocker>)
    ensures
        r@ == gap_blockers(tokens@, index as int),
{
    let n = tokens.len();
    if index < n && n - index > 1 && tokens[index + 1].kind == TokenKind::Whitespace {
        whitespace_blockers(tokens[index + 1].text.as_str())
    } else {
        Vec::new()
    }
}

/// Walking `count` modifiers from token `current`: the modifier tokens, the
/// blockers of the gaps after them, and the index reached.
pub open spec fn group_walk(toks: Seq<Token>, current: int, count: int) -> Option<(Seq<Token>, Seq<SyntaxRelationBlocker>, int)>
    decreases count,
{
    if count <= 0 {
        Some((Seq::empty(), Seq::empty(), current))
    } else if !(0 <= current < toks.len()) || toks[current].kind != TokenKind::Word {
        None
    } else {
        match following_word(toks, current) {
            None => None,
            Some(nx) => match group_walk(toks, nx, count - 1) {
                None => None,
                Some(rest) => Some((seq![toks[current]] + rest.0, gap_blockers(toks, current) + rest.1, rest.2)),
            },
        }
    }
}

pub proof fn lemma_group_walk_end(toks: Seq<Token>, current: int, count: int)
    requires
        count >= 0,
        group_walk(toks, current, count) is Some,
    ensures
        group_walk(toks, current, count).unwrap().2 == current + 2 * count,
        group_walk(toks, current, count).unwrap().0.len() == count,
        count > 0 ==> current >= 0,
    decreases count,
{
    if count > 0 {
        let nx = following_word(toks, current).unwrap();
        lemma_group_walk_end(toks, nx, count - 1);
    }
}

pub struct NominalGroupView {
    pub start_token: usize,
    pub end_token: usize,
    pub modifiers: Seq<Token>,
    pub head: Token,
    pub span: Span,
    pub confidence: SyntaxConfidence,
    pub blockers: Seq<SyntaxRelationBlocker>,
}

/// The group of `count` modifiers and a head word that starts at token
/// `start`, each word separated from the next by white space only.
pub open spec fn spec_nominal_group(toks: Seq<Token>, start: int, count: int) -> Option<NominalGroupView> {
    match group_walk(toks, start, count) {
        None => None,
        Some(w) => if 0 <= start < toks.len() && 0 <= w.2 < toks.len() && toks[w.2].kind == TokenKind::Word {
            Some(
                NominalGroupView {
                    start_token: start as usize,
                    end_token: w.2 as usize,
                    modifiers: w.0,
                    head: toks[w.2],
                    span: Span { start: toks[start].span.start, end: toks[w.2].span.end },
                    confidence: confidence_for(w.1),
                    blockers: w.1,
                },
            )
        } else {
            None
        },
    }
}

/// Modifier words followed by a head word.
#[derive(Debug, Clone, PartialEq, Eq)]
pub struct NominalGroupCandidate {
    pub start_token: usize,
    pub end_token: usize,
    pub modifiers: Vec<Token>,
    pub head: Token,
    pub span: Span,
    pub confidence: SyntaxConfidence,
    pub blockers: Vec<SyntaxRelationBlocker>,
}

impl View for NominalGroupCandidate {
    type V = NominalGroupView;

    open spec fn view(&self) -> NominalGroupView {
        NominalGroupView {
            start_token: self.start_token,
            end_token: self.end_token,
            modifiers: self.modifiers@,
            head: self.head,
            span: self.span,
            confidence: self.confidence,
            blockers: self.blockers@,
        }
    }
}

pub open spec fn group_actionable(g: NominalGroupView) -> bool {
    spec_confidence_actionable(g.confidence) && g.blockers.len() == 0
}

impl NominalGroupCandidate {
    pub fn is_actionable(&self) -> (r: bool)
        ensures
            r == group_actionable(self@),
    {
        self.confidence.is_actionable() && self.blockers.len() == 0
    }

    /// A copy of the candidate.
    pub fn duplicate(&self) -> (r: Self)
        ensures
            r@ == self@,
    {
        let mut modifiers: Vec<Token> = Vec::new();
        let mut i: usize = 0;
        while i < self.modifiers.len()
            invariant
                i <= self.modifiers@.len(),
                modifiers@ == self.modifiers@.take(i as int),
            decreases self.modifiers@.len() - i,
        {
            modifiers.push(self.modifiers[i].duplicate());
            i = i + 1;
        }
        assert(self.modifiers@.take(self.modifiers@.len() as int) =~= self.modifiers@);
        NominalGroupCandidate {
            start_token: self.start_token,
            end_token: self.end_token,
            modifiers,
            head: self.head.duplicate(),
            span: self.span,
            confidence: self.confidence,
            blockers: copy_blockers(&self.blockers),
        }
    }
}

pub fn copy_blockers(v: &Vec<SyntaxRelationBlocker>) -> (r: Vec<SyntaxRelationBlocker>)
    ensures
        r@ == v@,
{
    let mut out: Vec<SyntaxRelationBlocker> = Vec::new();
    let mut i: usize = 0;
    while i < v.len()
        invariant
            i <= v@.len(),
            out@ == v@.take(i as int),
        decreases v@.len() - i,
    {
        out.push(v[i]);
        i = i + 1;
    }
    assert(v@.take(v@.len() as int) =~= v@);
    out
}

pub open spec fn opt_group_view(g: Option<NominalGroupCandidate>) -> Option<NominalGroupView> {
    match g {
        None => None,
        Some(x) => Some(x@),
    }
}

pub fn nominal_group_from_start(tokens: &[Token], start: usize, modifier_count: usize) -> (r: Option<NominalGroupCandidate>)
    ensures
        opt_group_view(r) == spec_nominal_group(tokens@, start as int, modifier_count as int),
{
    let ghost toks = tokens@;
    let mut modifiers: Vec<Token> = Vec::new();
    let mut blockers: Vec<SyntaxRelationBlocker> = Vec::new();
    let mut current = start;
    let mut done: usize = 0;
    while done < modifier_count
        invariant
            toks == tokens@,
            done <= modifier_count,
            group_walk(toks, start as int, modifier_count as int) == match group_walk(
                toks,
                current as int,
                modifier_count - done,
            ) {
                None => None,
                Some(rest) => Some((modifiers@ + rest.0, blockers@ + rest.1, rest.2)),
            },
        decreases modifier_count - done,
    {
        if current >= tokens.len() || tokens[current].kind != TokenKind::Word {
            return None;
        }
        let gap = gap_blockers_after(tokens, current);
        let nx = match following_word_after_plain_gap(tokens, current) {
            None => {
                return None;
            },
            Some(j) => j,
        };
        let ghost m0 = modifiers@;
        let ghost b0 = blockers@;
        let ghost tail = group_walk(toks, nx as int, modifier_count - done - 1);
        modifiers.push(tokens[current].duplicate());
        let mut gap = gap;
        blockers.append(&mut gap);
        proof {
            match tail {
                None => {},
                Some(rest) => {
                    assert(m0 + (seq![toks[current as int]] + rest.0) =~= modifiers@ + rest.0);
                    assert(b0 + (gap_blockers(toks, current as int) + rest.1) =~= blockers@ + rest.1);
                },
            }
        }
        current = nx;
        done = done + 1;
    }
    proof {
        assert(modifiers@ + Seq::<Token>::empty() =~= modifiers@);
        assert(blockers@ + Seq::<SyntaxRelationBlocker>::empty() =~= blockers@);
    }
    if start >= tokens.len() || current >= tokens.len() || tokens[current].kind != TokenKind::Word {
        return None;
    }
    let confidence = confidence_from_blockers(blockers.as_slice());
    Some(NominalGroupCandidate {
        start_token: start,
        end_token: current,
        modifiers,
        head: tokens[current].duplicate(),
        span: Span::new(tokens[start].span.start, tokens[current].span.end),
        confidence,
        blockers,
    })
}

/// Groups with 1 to `c` modifiers that start at token `start`.
pub open spec fn groups_for_start(toks: Seq<Token>, start: int, c: int) -> Seq<NominalGroupView>
    decreases c,
{
    if c <= 0 {
        Seq::empty()
    } else {
        let prev = groups_for_start(toks, start, c - 1);
        match spec_nominal_group(toks, start, c) {
            Some(g) => prev.push(g),
            None => prev,
        }
    }
}

pub proof fn lemma_no_long_group(toks: Seq<Token>, start: int, c: int)
    requires
        c >= toks.len(),
    ensures
        spec_nominal_group(toks, start, c) is None,
{
    if group_walk(toks, start, c) is Some {
        lemma_group_walk_end(toks, start, c);
    }
}

pub proof fn lemma_groups_stable(toks: Seq<Token>, start: int, c: int)
    requires
        c >= toks.len(),
    ensures
        groups_for_start(toks, start, c) == groups_for_start(toks, start, toks.len() as int),
    decreases c,
{
    if c > toks.len() {
        lemma_no_long_group(toks, start, c);
        lemma_groups_stable(toks, start, c - 1);
    }
}

/// The groups of every start word, with 1 to `maxm` modifiers, by start.
pub open spec fn spec_short_groups(toks: Seq<Token>, maxm: int, k: int) -> Seq<NominalGroupView>
    decreases k,
{
    if k <= 0 || k > toks.len() {
        Seq::empty()
    } else {
        spec_short_groups(toks, maxm, k - 1) + if toks[k - 1].kind == TokenKind::Word {
            groups_for_start(toks, k - 1, maxm)
        } else {
            Seq::empty()
        }
    }
}

/// Every group that starts at `start` ends two tokens per modifier later,
/// inside the text.
pub proof fn lemma_groups_for_start_fit(toks: Seq<Token>, start: int, c: int)
    requires
        toks.len() <= usize::MAX,
    ensures
        forall|q: int|
            0 <= q < groups_for_start(toks, start, c).len() ==> {
                let g = #[trigger] groups_for_start(toks, start, c)[q];
                g.start_token + 2 * g.modifiers.len() == g.end_token && g.end_token < toks.len()
            },
    decreases c,
{
    if c > 0 {
        lemma_groups_for_start_fit(toks, start, c - 1);
        if group_walk(toks, start, c) is Some {
            lemma_group_walk_end(toks, start, c);
        }
        let prev = groups_for_start(toks, start, c - 1);
        match spec_nominal_group(toks, start, c) {
            Some(g) => {
                assert forall|q: int| 0 <= q < prev.push(g).len() implies {
                    let h = #[trigger] prev.push(g)[q];
                    h.start_token + 2 * h.modifiers.len() == h.end_token && h.end_token < toks.len()
                } by {
                    if q < prev.len() {
                        assert(prev.push(g)[q] == prev[q]);
                    }
                }
            },
            None => {},
        }
    }
}

/// Every short group ends two tokens per modifier after it starts, inside
/// the text.
pub proof fn lemma_short_groups_fit(toks: Seq<Token>, maxm: int, k: int)
    requires
        toks.len() <= usize::MAX,
    ensures
        forall|q: int|
            0 <= q < spec_short_groups(toks, maxm, k).len() ==> {
                let g = #[trigger] spec_short_groups(toks, maxm, k)[q];
                g.start_token + 2 * g.modifiers.len() == g.end_token && g.end_token < toks.len()
            },
    decreases k,
{
    if k > 0 && k <= toks.len() {
        lemma_short_groups_fit(toks, maxm, k - 1);
        lemma_groups_for_start_fit(toks, k - 1, maxm);
        let prev = spec_short_groups(toks, maxm, k - 1);
        let more = if toks[k - 1].kind == TokenKind::Word {
            groups_for_start(toks, k - 1, maxm)
        } else {
            Seq::empty()
        };
        assert forall|q: int| 0 <= q < (prev + more).len() implies {
            let g = #[trigger] (prev + more)[q];
            g.start_token + 2 * g.modifiers.len() == g.end_token && g.end_token < toks.len()
        } by {
            if q >= prev.len() {
                assert((prev + more)[q] == more[q - prev.len()]);
            }
        }
    }
}

pub open spec fn group_views(v: Seq<NominalGroupCandidate>) -> Seq<NominalGroupView> {
    v.map_values(|g: NominalGroupCandidate| g@)
}

fn push_group(out: &mut Vec<NominalGroupCandidate>, g: Option<NominalGroupCandidate>)
    ensures
        group_views(final(out)@) == match opt_group_view(g) {
            Some(v) => group_views(old(out)@).push(v),
            None => group_views(old(out)@),
        },
{
    match g {
        Some(x) => {
            let ghost o = out@;
            out.push(x);
            assert(group_views(out@) =~= group_views(o).push(x@));
        },
        None => {},
    }
}

/// Every word followed by 1 to `max_modifiers` further words, each pair
/// separated by white space only, read as modifiers and a head.
pub fn short_nominal_group_candidates(tokens: &[Token], max_modifiers: usize) -> (r: Vec<NominalGroupCandidate>)
    ensures
        group_views(r@) == spec_short_groups(tokens@, max_modifiers as int, tokens@.len() as int),
{
    let n = tokens.len();
    let lim = if max_modifiers < n { max_modifiers } else { n };
    let mut out: Vec<NominalGroupCandidate> = Vec::new();
    let mut start: usize = 0;
    while start < n
        invariant
            n == tokens@.len(),
            lim == (if max_modifiers < n { max_modifiers } else { n }),
            start <= n,
            group_views(out@) == spec_short_groups(tokens@, max_modifiers as int, start as int),
        decreases n - start,
    {
        if tokens[start].kind == TokenKind::Word {
            let ghost before = group_views(out@);
            let mut c: usize = 0;
            while c < lim
                invariant
                    n == tokens@.len(),
                    start < n,
                    c <= lim,
                    group_views(out@) == before + groups_for_start(tokens@, start as int, c as int),
                decreases lim - c,
            {
                let g = nominal_group_from_start(tokens, start, c + 1);
                push_group(&mut out, g);
                c = c + 1;
            }
            proof {
                if max_modifiers >= n {
                    lemma_groups_stable(tokens@, start as int, max_modifiers as int);
                }
            }
        }
        start = start + 1;
    }
    out
}

#[derive(Debug, Clone, Copy, PartialEq, Eq, Structural)]
pub enum NominalGroupGovernorKind {
    Preposition,
    Numeral,
}

pub struct GovernedView {
    pub kind: NominalGroupGovernorKind,
    pub governor_token: usize,
    pub governor: Token,
    pub group: NominalGroupView,
    pub span: Span,
    pub confidence: SyntaxConfidence,
    pub blockers: Seq<SyntaxRelationBlocker>,
}

/// A nominal group right after a governing word.
#[derive(Debug, Clone, PartialEq, Eq)]
pub struct GovernedNominalGroupCandidate {
    pub kind: NominalGroupGovernorKind,
    pub governor_token: usize,
    pub governor: Token,
    pub group: NominalGroupCandidate,
    pub span: Span,
    pub confidence: SyntaxConfidence,
    pub blockers: Vec<SyntaxRelationBlocker>,
}

impl View for GovernedNominalGroupCandidate {
    type V = GovernedView;

    open spec fn view(&self) -> GovernedView {
        GovernedView {
            kind: self.kind,
            governor_token: self.governor_token,
            governor: self.governor,
            group: self.group@,
            span: self.span,
            confidence: self.confidence,
            blockers: self.blockers@,
        }
    }
}

impl GovernedNominalGroupCandidate {
    pub fn is_actionable(&self) -> (r: bool)
        ensures
            r == (spec_confidence_actionable(self.confidence) && self.blockers@.len() == 0 && group_actionable(
                self.group@,
            )),
    {
        self.confidence.is_actionable() && self.blockers.len() == 0 && self.group.is_actionable()
    }
}

/// The governed group of governor `gi` and group `g`, with the gap after
/// the governor merged into the group's blockers.
pub open spec fn governed_of(toks: Seq<Token>, kind: NominalGroupGovernorKind, gi: int, g: NominalGroupView) -> GovernedView {
    let bs = sorted_blockers(gap_blockers(toks, gi).to_set() + g.blockers.to_set());
    GovernedView {
        kind,
        governor_token: gi as usize,
        governor: toks[gi],
        group: g,
        span: Span { start: toks[gi].span.start, end: g.span.end },
        confidence: confidence_for(bs),
        blockers: bs,
    }
}

/// Governed groups of governor `gi` whose group starts at `gs`, with 0 to
/// `c - 1` modifiers.
pub open spec fn governed_upto(toks: Seq<Token>, kind: NominalGroupGovernorKind, gi: int, gs: int, c: int) -> Seq<GovernedView>
    decreases c,
{
    if c <= 0 {
        Seq::empty()
    } else {
        let prev = governed_upto(toks, kind, gi, gs, c - 1);
        match spec_nominal_group(toks, gs, c - 1) {
            Some(g) => prev.push(governed_of(toks, kind, gi, g)),
            None => prev,
        }
    }
}

pub proof fn lemma_governed_stable(toks: Seq<Token>, kind: NominalGroupGovernorKind, gi: int, gs: int, c: int)
    requires
        c >= toks.len() + 1,
    ensures
        governed_upto(toks, kind, gi, gs, c) == governed_upto(toks, kind, gi, gs, toks.len() as int + 1),
    decreases c,
{
    if c > toks.len() + 1 {
        lemma_no_long_group(toks, gs, c - 1);
        lemma_governed_stable(toks, kind, gi, gs, c - 1);
    }
}

/// The governed groups of token `gi` when it is a word that passes the
/// filter and a word follows it after white space.
pub open spec fn governed_for(toks: Seq<Token>, kind: NominalGroupGovernorKind, preps: Option<Seq<String>>, maxm: int, gi: int) -> Seq<GovernedView> {
    if 0 <= gi < toks.len() && toks[gi].kind == TokenKind::Word && left_passes(toks[gi], preps) {
        match following_word(toks, gi) {
            None => Seq::empty(),
            Some(gs) => governed_upto(toks, kind, gi, gs, maxm + 1),
        }
    } else {
        Seq::empty()
    }
}

pub open spec fn spec_governed(toks: Seq<Token>, kind: NominalGroupGovernorKind, preps: Option<Seq<String>>, maxm: int, k: int) -> Seq<GovernedView>
    decreases k,
{
    if k <= 0 {
        Seq::empty()
    } else {
        spec_governed(toks, kind, preps, maxm, k - 1) + governed_for(toks, kind, preps, maxm, k - 1)
    }
}

pub open spec fn governed_views(v: Seq<GovernedNominalGroupCandidate>) -> Seq<GovernedView> {
    v.map_values(|g: GovernedNominalGroupCandidate| g@)
}

fn push_governed(
    out: &mut Vec<GovernedNominalGroupCandidate>,
    tokens: &[Token],
    kind: NominalGroupGovernorKind,
    gi: usize,
    g: Option<NominalGroupCandidate>,
)
    requires
        gi < tokens@.len(),
    ensures
        governed_views(final(out)@) == match opt_group_view(g) {
            Some(v) => governed_views(old(out)@).push(governed_of(tokens@, kind, gi as int, v)),
            None => governed_views(old(out)@),
        },
{
    match g {
        Some(group) => {
            let blockers = merge_blockers(gap_blockers_after(tokens, gi), copy_blockers(&group.blockers));
            let confidence = confidence_from_blockers(blockers.as_slice());
            let c = GovernedNominalGroupCandidate {
                kind,
                governor_token: gi,
                governor: tokens[gi].duplicate(),
                span: Span::new(tokens[gi].span.start, group.span.end),
                group,
                confidence,
                blockers,
            };
            let ghost o = out@;
            out.push(c);
            assert(governed_views(out@) =~= governed_views(o).push(c@));
        },
        None => {},
    }
}

fn governed_nominal_group_candidates(
    tokens: &[Token],
    kind: NominalGroupGovernorKind,
    preps: Option<&[String]>,
    max_modifiers: usize,
) -> (r: Vec<GovernedNominalGroupCandidate>)
    ensures
        governed_views(r@) == spec_governed(tokens@, kind, opt_view(preps), max_modifiers as int, tokens@.len() as int),
{
    let n = tokens.len();
    let lim = if max_modifiers < n { max_modifiers } else { n };
    let mut out: Vec<GovernedNominalGroupCandidate> = Vec::new();
    let mut gi: usize = 0;
    while gi < n
        invariant
            n == tokens@.len(),
            lim == (if max_modifiers < n { max_modifiers } else { n }),
            gi <= n,
            governed_views(out@) == spec_governed(tokens@, kind, opt_view(preps), max_modifiers as int, gi as int),
        decreases n - gi,
    {
        let passes = match preps {
            None => true,
            Some(p) => {
                let c = str_chars(tokens[gi].text.as_str());
                let l = crate::text::lower_chars(c.as_slice());
                marker_set_contains(p, l.as_slice())
            },
        };
        if tokens[gi].kind == TokenKind::Word && passes {
            match following_word_after_plain_gap(tokens, gi) {
                None => {},
                Some(gs) => {
                    let ghost before = governed_views(out@);
                    let g0 = nominal_group_from_start(tokens, gs, 0);
                    push_governed(&mut out, tokens, kind, gi, g0);
                    proof {
                        let u0 = governed_upto(tokens@, kind, gi as int, gs as int, 0);
                        assert(u0 =~= Seq::<GovernedView>::empty());
                        assert(governed_views(out@) =~= before + governed_upto(
                            tokens@,
                            kind,
                            gi as int,
                            gs as int,
                            1,
                        ));
                    }
                    let mut c: usize = 0;
                    while c < lim
                        invariant
                            n == tokens@.len(),
                            gi < n,
                            c <= lim,
                            governed_views(out@) == before + governed_upto(
                                tokens@,
                                kind,
                                gi as int,
                                gs as int,
                                c as int + 1,
                            ),
                        decreases lim - c,
                    {
                        let g = nominal_group_from_start(tokens, gs, c + 1);
                        push_governed(&mut out, tokens, kind, gi, g);
                        c = c + 1;
                    }
                    proof {
                        if max_modifiers >= n {
                            lemma_governed_stable(tokens@, kind, gi as int, gs as int, max_modifiers as int + 1);
                        }
                    }
                },
            }
        }
        gi = gi + 1;
    }
    out
}

/// Nominal groups of 0 to `max_modifiers` modifiers right after one of the
/// given prepositions.
pub fn preposition_governed_nominal_group_candidates(
    tokens: &[Token],
    prepositions: &[String],
    max_modifiers: usize,
) -> (r: Vec<GovernedNominalGroupCandidate>)
    ensures
        governed_views(r@) == spec_governed(
            tokens@,
            NominalGroupGovernorKind::Preposition,
            Some(prepositions@),
            max_modifiers as int,
            tokens@.len() as int,
        ),
{
    governed_nominal_group_candidates(tokens, NominalGroupGovernorKind::Preposition, Some(prepositions), max_modifiers)
}

/// Nominal groups of 0 to `max_modifiers` modifiers right after any word,
/// read as a numeral.
pub fn numeral_governed_nominal_group_candidates(tokens: &[Token], max_modifiers: usize) -> (r: Vec<GovernedNominalGroupCandidate>)
    ensures
        governed_views(r@) == spec_governed(
            tokens@,
            NominalGroupGovernorKind::Numeral,
            None,
            max_modifiers as int,
            tokens@.len() as int,
        ),
{
    governed_nominal_group_candidates(tokens, NominalGroupGovernorKind::Numeral, None, max_modifiers)
}

/// Every reading is a noun, pronoun or numeral, and there is one.
pub open spec fn can_head_group(v: Seq<MorphAnalysis>) -> bool {
    v.len() > 0 && forall|i: int|
        0 <= i < v.len() ==> ((#[trigger] v[i]).pos == PartOfSpeech::Noun || v[i].pos == PartOfSpeech::Pronoun
            || v[i].pos == PartOfSpeech::Numeral)
}

/// Every reading is an adjective, participle or numeral, and there is one.
pub open spec fn can_modify_group(v: Seq<MorphAnalysis>) -> bool {
    v.len() > 0 && forall|i: int|
        0 <= i < v.len() ==> ((#[trigger] v[i]).pos == PartOfSpeech::Adjective || v[i].pos == PartOfSpeech::Participle
            || v[i].pos == PartOfSpeech::Numeral)
}

pub(crate) fn analyses_can_head_nominal_group(v: &[MorphAnalysis]) -> (r: bool)
    ensures
        r == can_head_group(v@),
{
    if v.len() == 0 {
        return false;
    }
    let mut i: usize = 0;
    while i < v.len()
        invariant
            i <= v@.len(),
            forall|j: int|
                0 <= j < i ==> ((#[trigger] v@[j]).pos == PartOfSpeech::Noun || v@[j].pos == PartOfSpeech::Pronoun
                    || v@[j].pos == PartOfSpeech::Numeral),
        decreases v@.len() - i,
    {
        let p = v[i].pos;
        if !(p == PartOfSpeech::Noun || p == PartOfSpeech::Pronoun || p == PartOfSpeech::Numeral) {
            return false;
        }
        i = i + 1;
    }
    true
}

pub(crate) fn analyses_can_modify_nominal_group(v: &[MorphAnalysis]) -> (r: bool)
    ensures
        r == can_modify_group(v@),
{
    if v.len() == 0 {
        return false;
    }
    let mut i: usize = 0;
    while i < v.len()
        invariant
            i <= v@.len(),
            forall|j: int|
                0 <= j < i ==> ((#[trigger] v@[j]).pos == PartOfSpeech::Adjective || v@[j].pos == PartOfSpeech::Participle
                    || v@[j].pos == PartOfSpeech::Numeral),
        decreases v@.len() - i,
    {
        let p = v[i].pos;
        if !(p == PartOfSpeech::Adjective || p == PartOfSpeech::Participle || p == PartOfSpeech::Numeral) {
            return false;
        }
        i = i + 1;
    }
    true
}

/// Some readings that the source may give for token `idx` can modify (or,
/// when `want` is false, cannot modify) a nominal group.
pub open spec fn modifier_readings<F: Fn(usize) -> Vec<MorphAnalysis>>(f: F, idx: usize, want: bool) -> bool {
    exists|m: Vec<MorphAnalysis>| call_ensures(f, (idx,), m) && can_modify_group(m@) == want
}

/// Some readings that the source may give for token `idx` can head (or,
/// when `want` is false, cannot head) a nominal group.
pub open spec fn head_readings<F: Fn(usize) -> Vec<MorphAnalysis>>(f: F, idx: usize, want: bool) -> bool {
    exists|h: Vec<MorphAnalysis>| call_ensures(f, (idx,), h) && can_head_group(h@) == want
}

/// The head's readings can head a nominal group and every modifier's
/// readings can modify one, as the reading source `analyses_for_token`
/// gives them.
pub fn nominal_group_roles_are_plausible<F: Fn(usize) -> Vec<MorphAnalysis>>(
    group: &NominalGroupCandidate,
    analyses_for_token: &F,
) -> (r: bool)
    requires
        group.start_token + 2 * group.modifiers@.len() <= usize::MAX,
        forall|i: usize| call_requires(*analyses_for_token, (i,)),
    ensures
        r ==> head_readings(*analyses_for_token, group.end_token, true) && forall|o: int|
            0 <= o < group.modifiers@.len() ==> #[trigger] modifier_readings(
                *analyses_for_token,
                (group.start_token + 2 * o) as usize,
                true,
            ),
        !r ==> head_readings(*analyses_for_token, group.end_token, false) || exists|o: int|
            0 <= o < group.modifiers@.len() && #[trigger] modifier_readings(
                *analyses_for_token,
                (group.start_token + 2 * o) as usize,
                false,
            ),
{
    let head = analyses_for_token(group.end_token);
    if !analyses_can_head_nominal_group(head.as_slice()) {
        return false;
    }
    let mut offset: usize = 0;
    while offset < group.modifiers.len()
        invariant
            offset <= group.modifiers@.len(),
            group.start_token + 2 * group.modifiers@.len() <= usize::MAX,
            forall|i: usize| call_requires(*analyses_for_token, (i,)),
            head_readings(*analyses_for_token, group.end_token, true),
            forall|o: int|
                0 <= o < offset ==> #[trigger] modifier_readings(
                    *analyses_for_token,
                    (group.start_token + 2 * o) as usize,
                    true,
                ),
        decreases group.modifiers@.len() - offset,
    {
        let idx = group.start_token + offset * 2;
        let m = analyses_for_token(idx);
        if !analyses_can_modify_nominal_group(m.as_slice()) {
            assert(modifier_readings(*analyses_for_token, (group.start_token + 2 * offset) as usize, false));
            return false;
        }
        assert(modifier_readings(*analyses_for_token, (group.start_token + 2 * offset) as usize, true));
        offset = offset + 1;
    }
    true
}

} // verus!
