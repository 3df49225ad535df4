use vstd::prelude::*;
use crate::text::{lower_chars, lower_seq, Span, Token, TokenKind};
use crate::unicode::{chars_eq, chars_eq_str, is_whitespace, spec_is_whitespace, str_chars};
use crate::syntax::model::{ClauseMarker, ClauseMarkerKind, ClauseMarkerView, SyntaxConfidence, opt_marker_view};
use crate::syntax::sentences::{
    clamp, first_token_from, last_token_before, next_word_token, previous_word_token,
};

verus! {

broadcast use vstd::seq_lib::group_seq_properties;

/// Words found so far and the word being read, after the first `i`
/// characters of `s`.
pub open spec fn split_state(s: Seq<char>, i: int) -> (Seq<Seq<char>>, Seq<char>)
    decreases i,
{
    if i <= 0 {
        (Seq::empty(), Seq::empty())
    } else {
        let (acc, cur) = split_state(s, i - 1);
        if spec_is_whitespace(s[i - 1]) {
            if cur.len() > 0 {
                (acc.push(cur), Seq::empty())
            } else {
                (acc, cur)
            }
        } else {
            (acc, cur.push(s[i - 1]))
        }
    }
}

/// The white-space separated words of `s`, as `str::split_whitespace`
/// yields them.
pub open spec fn split_ws(s: Seq<char>) -> Seq<Seq<char>> {
    let (acc, cur) = split_state(s, s.len() as int);
    if cur.len() > 0 {
        acc.push(cur)
    } else {
        acc
    }
}

pub open spec fn views(v: Seq<Vec<char>>) -> Seq<Seq<char>> {
    v.map_values(|w: Vec<char>| w@)
}

/// The white-space separated words of the characters.
pub fn split_whitespace(s: &[char]) -> (r: Vec<Vec<char>>)
    ensures
        views(r@) == split_ws(s@),
{
    let mut acc: Vec<Vec<char>> = Vec::new();
    let mut cur: Vec<char> = Vec::new();
    let mut i: usize = 0;
    while i < s.len()
        invariant
            i <= s@.len(),
            (views(acc@), cur@) == split_state(s@, i as int),
        decreases s@.len() - i,
    {
        let c = s[i];
        if is_whitespace(c) {
            if cur.len() > 0 {
                acc.push(cur);
                cur = Vec::new();
                assert(views(acc@) =~= split_state(s@, i as int).0.push(split_state(s@, i as int).1));
            }
        } else {
            cur.push(c);
        }
        i = i + 1;
    }
    if cur.len() > 0 {
        acc.push(cur);
        assert(views(acc@) =~= split_state(s@, s@.len() as int).0.push(split_state(s@, s@.len() as int).1));
    }
    acc
}

pub open spec fn has_space(m: Seq<char>) -> bool {
    exists|k: int| 0 <= k < m.len() && m[k] == ' '
}

fn contains_space(m: &[char]) -> (r: bool)
    ensures
        r == has_space(m@),
{
    let mut k: usize = 0;
    while k < m.len()
        invariant
            k <= m@.len(),
            forall|j: int| 0 <= j < k ==> m@[j] != ' ',
        decreases m@.len() - k,
    {
        if m[k] == ' ' {
            return true;
        }
        k = k + 1;
    }
    false
}

pub open spec fn spec_marker_kind(w: Seq<char>) -> ClauseMarkerKind {
    if w == "который"@ || w == "которая"@ || w == "которое"@ || w == "которые"@ {
        ClauseMarkerKind::RelativePronoun
    } else if w == "что"@ || w == "чтобы"@ || w == "если"@ || w == "когда"@ || w == "пока"@ || w
        == "поскольку"@ || w == "хотя"@ {
        ClauseMarkerKind::Subordinator
    } else {
        ClauseMarkerKind::Unknown
    }
}

pub open spec fn spec_marker_confidence(m: Seq<char>) -> SyntaxConfidence {
    if m == "потому что"@ || m == "так как"@ || m == "для того чтобы"@ {
        SyntaxConfidence::Strong
    } else if m == "что"@ || m == "чтобы"@ || m == "если"@ || m == "поскольку"@ || m == "хотя"@ {
        SyntaxConfidence::Strong
    } else if m == "когда"@ || m == "пока"@ || m == "который"@ || m == "которая"@ || m
        == "которое"@ || m == "которые"@ {
        SyntaxConfidence::Weak
    } else if has_space(m) {
        SyntaxConfidence::Weak
    } else {
        SyntaxConfidence::Ambiguous
    }
}

fn marker_kind_for(w: &[char]) -> (r: ClauseMarkerKind)
    ensures
        r == spec_marker_kind(w@),
{
    if chars_eq_str(w, "который") || chars_eq_str(w, "которая") || chars_eq_str(w, "которое")
        || chars_eq_str(w, "которые") {
        ClauseMarkerKind::RelativePronoun
    } else if chars_eq_str(w, "что") || chars_eq_str(w, "чтобы") || chars_eq_str(w, "если")
        || chars_eq_str(w, "когда") || chars_eq_str(w, "пока") || chars_eq_str(w, "поскольку")
        || chars_eq_str(w, "хотя") {
        ClauseMarkerKind::Subordinator
    } else {
        ClauseMarkerKind::Unknown
    }
}

fn marker_confidence_for(m: &[char]) -> (r: SyntaxConfidence)
    ensures
        r == spec_marker_confidence(m@),
{
    if chars_eq_str(m, "потому что") || chars_eq_str(m, "так как") || chars_eq_str(
        m,
        "для того чтобы",
    ) {
        SyntaxConfidence::Strong
    } else if chars_eq_str(m, "что") || chars_eq_str(m, "чтобы") || chars_eq_str(m, "если")
        || chars_eq_str(m, "поскольку") || chars_eq_str(m, "хотя") {
        SyntaxConfidence::Strong
    } else if chars_eq_str(m, "когда") || chars_eq_str(m, "пока") || chars_eq_str(m, "который")
        || chars_eq_str(m, "которая") || chars_eq_str(m, "которое") || chars_eq_str(
        m,
        "которые",
    ) {
        SyntaxConfidence::Weak
    } else if contains_space(m) {
        SyntaxConfidence::Weak
    } else {
        SyntaxConfidence::Ambiguous
    }
}

pub open spec fn default_markers() -> Seq<Seq<char>> {
    seq![
        "что"@,
        "чтобы"@,
        "если"@,
        "когда"@,
        "пока"@,
        "поскольку"@,
        "хотя"@,
        "который"@,
        "которая"@,
        "которое"@,
        "которые"@,
        "потому что"@,
        "так как"@,
        "для того чтобы"@,
    ]
}

pub open spec fn string_views(v: Seq<String>) -> Seq<Seq<char>> {
    v.map_values(|s: String| s@)
}

/// The clause markers used when none are given: subordinators, relative
/// pronouns and the common multiword subordinators.
pub fn default_clause_marker_set() -> (r: Vec<String>)
    ensures
        string_views(r@) == default_markers(),
{
    let mut r: Vec<String> = Vec::new();
    r.push("что".to_owned());
    r.push("чтобы".to_owned());
    r.push("если".to_owned());
    r.push("когда".to_owned());
    r.push("пока".to_owned());
    r.push("поскольку".to_owned());
    r.push("хотя".to_owned());
    r.push("который".to_owned());
    r.push("которая".to_owned());
    r.push("которое".to_owned());
    r.push("которые".to_owned());
    r.push("потому что".to_owned());
    r.push("так как".to_owned());
    r.push("для того чтобы".to_owned());
    assert(string_views(r@) =~= default_markers());
    r
}

pub open spec fn spec_only_ws_between(toks: Seq<Token>, l: int, r: int) -> bool {
    l < r && forall|k: int| l < k < r ==> (#[trigger] toks[k]).kind == TokenKind::Whitespace
}

fn only_whitespace_between(tokens: &[Token], left: usize, right: usize) -> (r: bool)
    requires
        right <= tokens@.len(),
    ensures
        r == spec_only_ws_between(tokens@, left as int, right as int),
{
    if left >= right {
        return false;
    }
    let mut k = left + 1;
    while k < right
        invariant
            left < k <= right <= tokens@.len(),
            forall|j: int| left < j < k ==> (#[trigger] tokens@[j]).kind == TokenKind::Whitespace,
        decreases right - k,
    {
        if tokens[k].kind != TokenKind::Whitespace {
            return false;
        }
        k = k + 1;
    }
    true
}

pub open spec fn lower_text(t: Token) -> Seq<char> {
    lower_seq(t.text@)
}

fn lower_token(t: &Token) -> (r: Vec<char>)
    ensures
        r@ == lower_text(*t),
{
    let c = str_chars(t.text.as_str());
    lower_chars(c.as_slice())
}

/// Matching `parts[j..]` word by word after token `end`, separated by white
/// space only; the index of the last matched token.
pub open spec fn match_parts(toks: Seq<Token>, end: int, parts: Seq<Seq<char>>, j: int) -> Option<int>
    decreases parts.len() - j,
{
    if j < 0 || j >= parts.len() {
        Some(end)
    } else {
        match first_token_from(toks, end + 1, TokenKind::Word, true) {
            None => None,
            Some(nx) => if spec_only_ws_between(toks, end, nx) && lower_text(toks[nx]) == parts[j] {
                match_parts(toks, nx, parts, j + 1)
            } else {
                None
            },
        }
    }
}

/// The last token of multiword marker `m` matched from token `idx`.
pub open spec fn multiword_end(toks: Seq<Token>, idx: int, m: Seq<char>) -> Option<int> {
    let parts = split_ws(m);
    if has_space(m) && parts.len() >= 2 && parts[0] == lower_text(toks[idx]) {
        match_parts(toks, idx, parts, 1)
    } else {
        None
    }
}

/// The longest (by word count, first on ties) multiword marker among the
/// first `k` that matches from token `idx`: its index and last token.
pub open spec fn best_multiword(toks: Seq<Token>, idx: int, ms: Seq<Seq<char>>, k: int) -> Option<(int, int)>
    decreases k,
{
    if k <= 0 {
        None
    } else {
        let prev = best_multiword(toks, idx, ms, k - 1);
        match multiword_end(toks, idx, ms[k - 1]) {
            None => prev,
            Some(e) => match prev {
                None => Some((k - 1, e)),
                Some((bi, be)) => if split_ws(ms[k - 1]).len() > split_ws(ms[bi]).len() {
                    Some((k - 1, e))
                } else {
                    prev
                },
            },
        }
    }
}

fn match_parts_exec(tokens: &[Token], end: usize, parts: &Vec<Vec<char>>, j: usize) -> (r: Option<usize>)
    requires
        end < tokens@.len(),
    ensures
        r == (match match_parts(tokens@, end as int, views(parts@), j as int) {
            Some(e) => Some(e as usize),
            None => None,
        }),
        r matches Some(e) ==> e < tokens@.len(),
        match_parts(tokens@, end as int, views(parts@), j as int) matches Some(e) ==> 0 <= e < tokens@.len(),
    decreases parts@.len() - j,
{
    if j >= parts.len() {
        return Some(end);
    }
    match next_word_token(tokens, end) {
        None => None,
        Some(nx) => {
            let low = lower_token(&tokens[nx]);
            if only_whitespace_between(tokens, end, nx) && chars_eq(low.as_slice(), parts[j].as_slice()) {
                match_parts_exec(tokens, nx, parts, j + 1)
            } else {
                None
            }
        },
    }
}

fn multiword_end_exec(tokens: &[Token], idx: usize, m: &String) -> (r: Option<usize>)
    requires
        idx < tokens@.len(),
    ensures
        r == (match multiword_end(tokens@, idx as int, m@) {
            Some(e) => Some(e as usize),
            None => None,
        }),
        multiword_end(tokens@, idx as int, m@) matches Some(e) ==> 0 <= e < tokens@.len(),
{
    let mc = str_chars(m.as_str());
    if !contains_space(mc.as_slice()) {
        return None;
    }
    let parts = split_whitespace(mc.as_slice());
    if parts.len() < 2 {
        return None;
    }
    let current = lower_token(&tokens[idx]);
    if !chars_eq(parts[0].as_slice(), current.as_slice()) {
        return None;
    }
    match_parts_exec(tokens, idx, &parts, 1)
}

fn word_count(m: &String) -> (r: usize)
    ensures
        r == split_ws(m@).len(),
{
    let mc = str_chars(m.as_str());
    split_whitespace(mc.as_slice()).len()
}

pub open spec fn marker_view(start: int, end: int, span: Span, canonical: Seq<char>, kind: ClauseMarkerKind) -> ClauseMarkerView {
    ClauseMarkerView {
        start_token: start,
        end_token: end,
        span,
        canonical,
        kind,
        confidence: spec_marker_confidence(canonical),
    }
}

/// The multiword marker found at token `idx`.
pub open spec fn spec_multiword_marker(toks: Seq<Token>, idx: int, ms: Seq<Seq<char>>) -> Option<ClauseMarkerView> {
    match best_multiword(toks, idx, ms, ms.len() as int) {
        Some((bi, e)) => Some(marker_view(
            idx,
            e,
            Span { start: toks[idx].span.start, end: toks[e].span.end },
            ms[bi],
            ClauseMarkerKind::MultiwordSubordinator,
        )),
        None => None,
    }
}

fn find_multiword_clause_marker(tokens: &[Token], idx: usize, marker_set: &[String]) -> (r: Option<ClauseMarker>)
    requires
        idx < tokens@.len(),
    ensures
        opt_marker_view(r) == spec_multiword_marker(tokens@, idx as int, string_views(marker_set@)),
{
    let ghost ms = string_views(marker_set@);
    let mut best: Option<(usize, usize)> = None;
    let mut k: usize = 0;
    while k < marker_set.len()
        invariant
            idx < tokens@.len(),
            ms == string_views(marker_set@),
            k <= marker_set@.len(),
            best == (match best_multiword(tokens@, idx as int, ms, k as int) {
                Some((bi, e)) => Some((bi as usize, e as usize)),
                None => None,
            }),
            best_multiword(tokens@, idx as int, ms, k as int) matches Some((bi, e)) ==> 0 <= bi < k
                && 0 <= e < tokens@.len(),
        decreases marker_set@.len() - k,
    {
        match multiword_end_exec(tokens, idx, &marker_set[k]) {
            None => {},
            Some(e) => {
                match best {
                    None => {
                        best = Some((k, e));
                    },
                    Some((bi, _)) => {
                        if word_count(&marker_set[k]) > word_count(&marker_set[bi]) {
                            best = Some((k, e));
                        }
                    },
                }
            },
        }
        k = k + 1;
    }
    match best {
        None => None,
        Some((bi, e)) => {
            let canon = str_chars(marker_set[bi].as_str());
            Some(ClauseMarker {
                start_token: idx,
                end_token: e,
                span: Span { start: tokens[idx].span.start, end: tokens[e].span.end },
                canonical: marker_set[bi].clone(),
                kind: ClauseMarkerKind::MultiwordSubordinator,
                confidence: marker_confidence_for(canon.as_slice()),
            })
        },
    }
}

/// Matching `parts[..j]` backwards, word by word, before token `cursor`.
pub open spec fn match_back(toks: Seq<Token>, cursor: int, parts: Seq<Seq<char>>, j: int) -> bool
    decreases j,
{
    if j <= 0 {
        true
    } else {
        match last_token_before(toks, clamp(cursor, toks.len() as int), TokenKind::Word, true) {
            None => false,
            Some(pv) => spec_only_ws_between(toks, pv, cursor) && lower_text(toks[pv]) == parts[j
                - 1] && match_back(toks, pv, parts, j - 1),
        }
    }
}

/// Token `idx` is a non-initial word of multiword marker `m` whose earlier
/// words precede it.
pub open spec fn non_initial_part(toks: Seq<Token>, idx: int, m: Seq<char>) -> bool {
    let parts = split_ws(m);
    has_space(m) && exists|pi: int|
        1 <= pi < parts.len() && parts[pi] == lower_text(toks[idx]) && #[trigger] match_back(
            toks,
            idx,
            parts,
            pi,
        )
}

fn match_back_exec(tokens: &[Token], cursor: usize, parts: &Vec<Vec<char>>, j: usize) -> (r: bool)
    requires
        j <= parts@.len(),
        cursor <= tokens@.len(),
    ensures
        r == match_back(tokens@, cursor as int, views(parts@), j as int),
    decreases j,
{
    if j == 0 {
        return true;
    }
    match previous_word_token(tokens, cursor) {
        None => false,
        Some(pv) => {
            let low = lower_token(&tokens[pv]);
            only_whitespace_between(tokens, pv, cursor) && chars_eq(low.as_slice(), parts[j - 1].as_slice())
                && match_back_exec(tokens, pv, parts, j - 1)
        },
    }
}

fn non_initial_part_exec(tokens: &[Token], idx: usize, m: &String) -> (r: bool)
    requires
        idx < tokens@.len(),
    ensures
        r == non_initial_part(tokens@, idx as int, m@),
{
    let mc = str_chars(m.as_str());
    if !contains_space(mc.as_slice()) {
        return false;
    }
    assert(has_space(m@));
    let parts = split_whitespace(mc.as_slice());
    let current = lower_token(&tokens[idx]);
    let mut pi: usize = 1;
    while pi < parts.len()
        invariant
            views(parts@) == split_ws(m@),
            has_space(m@),
            current@ == lower_text(tokens@[idx as int]),
            idx < tokens@.len(),
            1 <= pi,
            forall|q: int|
                1 <= q < pi && q < parts@.len() ==> !(views(parts@)[q] == lower_text(tokens@[idx as int])
                    && #[trigger] match_back(tokens@, idx as int, views(parts@), q)),
        decreases parts@.len() - pi,
    {
        if chars_eq(parts[pi].as_slice(), current.as_slice()) && match_back_exec(tokens, idx, &parts, pi) {
            assert(match_back(tokens@, idx as int, views(parts@), pi as int));
            assert(views(parts@)[pi as int] == parts@[pi as int]@);
            let ghost ps = split_ws(m@);
            assert(1 <= pi < ps.len() && ps[pi as int] == lower_text(tokens@[idx as int]) && match_back(tokens@, idx as int, ps, pi as int));
            assert(has_space(m@));
            return true;
        }
        pi = pi + 1;
    }
    false
}

/// Token `idx` continues (rather than starts) some multiword marker.
pub open spec fn spec_non_initial_part_of_any(toks: Seq<Token>, idx: int, ms: Seq<String>) -> bool {
    exists|k: int| 0 <= k < ms.len() && non_initial_part(toks, idx, #[trigger] ms[k]@)
}

fn is_non_initial_part_of_multiword_clause_marker(tokens: &[Token], idx: usize, marker_set: &[String]) -> (r: bool)
    requires
        idx < tokens@.len(),
    ensures
        r == spec_non_initial_part_of_any(tokens@, idx as int, marker_set@),
{
    let mut k: usize = 0;
    while k < marker_set.len()
        invariant
            idx < tokens@.len(),
            k <= marker_set@.len(),
            forall|j: int| 0 <= j < k ==> !non_initial_part(tokens@, idx as int, #[trigger] marker_set@[j]@),
        decreases marker_set@.len() - k,
    {
        if non_initial_part_exec(tokens, idx, &marker_set[k]) {
            return true;
        }
        k = k + 1;
    }
    false
}

pub open spec fn set_contains(ms: Seq<String>, w: Seq<char>) -> bool {
    exists|k: int| 0 <= k < ms.len() && (#[trigger] ms[k])@ == w
}

pub fn marker_set_contains(ms: &[String], w: &[char]) -> (r: bool)
    ensures
        r == set_contains(ms@, w@),
{
    let mut k: usize = 0;
    while k < ms.len()
        invariant
            k <= ms@.len(),
            forall|j: int| 0 <= j < k ==> (#[trigger] ms@[j])@ != w@,
        decreases ms@.len() - k,
    {
        let mc = str_chars(ms[k].as_str());
        if chars_eq(mc.as_slice(), w) {
            return true;
        }
        k = k + 1;
    }
    false
}

/// The clause marker that starts at token `idx`: the longest matching
/// multiword marker, else the lowercased word itself when it is in the set
/// and does not continue a multiword marker.
pub open spec fn spec_find_clause_marker(toks: Seq<Token>, idx: int, ms: Seq<String>) -> Option<ClauseMarkerView> {
    if idx < 0 || idx >= toks.len() || toks[idx].kind != TokenKind::Word {
        None
    } else if best_multiword(toks, idx, string_views(ms), ms.len() as int) is Some {
        spec_multiword_marker(toks, idx, string_views(ms))
    } else if spec_non_initial_part_of_any(toks, idx, ms) {
        None
    } else if set_contains(ms, lower_text(toks[idx])) {
        Some(marker_view(
            idx,
            idx,
            toks[idx].span,
            lower_text(toks[idx]),
            spec_marker_kind(lower_text(toks[idx])),
        ))
    } else {
        None
    }
}

pub fn find_clause_marker(tokens: &[Token], idx: usize, marker_set: &[String]) -> (r: Option<ClauseMarker>)
    ensures
        opt_marker_view(r) == spec_find_clause_marker(tokens@, idx as int, marker_set@),
{
    if idx >= tokens.len() {
        return None;
    }
    if tokens[idx].kind != TokenKind::Word {
        return None;
    }
    let multi = find_multiword_clause_marker(tokens, idx, marker_set);
    if multi.is_some() {
        return multi;
    }
    let current = lower_token(&tokens[idx]);
    if is_non_initial_part_of_multiword_clause_marker(tokens, idx, marker_set) {
        return None;
    }
    if marker_set_contains(marker_set, current.as_slice()) {
        let canonical = crate::unicode::string_from_chars(current.as_slice(), 0, current.len());
        proof {
            assert(current@.subrange(0, current@.len() as int) =~= current@);
        }
        return Some(ClauseMarker {
            start_token: idx,
            end_token: idx,
            span: tokens[idx].span,
            canonical,
            kind: marker_kind_for(current.as_slice()),
            confidence: marker_confidence_for(current.as_slice()),
        });
    }
    None
}

pub open spec fn spec_is_coordinating_or_discourse(w: Seq<char>) -> bool {
    w == "и"@ || w == "а"@ || w == "но"@ || w == "или"@ || w == "либо"@ || w == "да"@ || w == "ну"@
}

fn is_coordinating_or_discourse_marker(w: &[char]) -> (r: bool)
    ensures
        r == spec_is_coordinating_or_discourse(w@),
{
    chars_eq_str(w, "и") || chars_eq_str(w, "а") || chars_eq_str(w, "но") || chars_eq_str(w, "или")
        || chars_eq_str(w, "либо") || chars_eq_str(w, "да") || chars_eq_str(w, "ну")
}

/// The word before token `idx` is a coordinating conjunction or discourse
/// particle.
pub open spec fn spec_prev_word_coordinating(toks: Seq<Token>, idx: int) -> bool {
    match last_token_before(toks, clamp(idx, toks.len() as int), TokenKind::Word, true) {
        Some(p) => spec_is_coordinating_or_discourse(lower_text(toks[p])),
        None => false,
    }
}

pub fn previous_word_is_coordinating_or_discourse_marker(tokens: &[Token], idx: usize) -> (r: bool)
    ensures
        r == spec_prev_word_coordinating(tokens@, idx as int),
{
    match previous_word_token(tokens, idx) {
        Some(p) => {
            let low = lower_token(&tokens[p]);
            is_coordinating_or_discourse_marker(low.as_slice())
        },
        None => false,
    }
}

} // verus!
