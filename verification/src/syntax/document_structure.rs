use vstd::prelude::*;
use crate::text::{lower_chars, lower_seq, trim_bounds, trim_end_bound, trim_seq, trim_start_seq, Span};
use crate::unicode::{
    byte_offset, is_ascii_digit, is_whitespace, spec_is_ascii_digit, spec_is_whitespace, str_chars,
    string_from_chars, CharOffsets,
};

verus! {

broadcast use vstd::seq_lib::group_seq_properties;

#[derive(Debug, Clone, Copy, PartialEq, Eq, Structural, PartialOrd, Ord, Hash)]
pub enum HeadingStyle {
    MarkdownAtx,
    PlainShortLine,
}

#[derive(Debug, Clone, Copy, PartialEq, Eq, Structural, PartialOrd, Ord, Hash)]
pub enum ListMarkerKind {
    Dash,
    Asterisk,
    Bullet,
    Numbered,
}

/// A line that reads as a heading.
#[derive(Debug, Clone, PartialEq, Eq)]
pub struct HeadingCandidate {
    pub line_number: usize,
    pub span: Span,
    pub text: String,
    pub style: HeadingStyle,
    pub has_terminal_punctuation: bool,
}

pub struct HeadingView {
    pub line_number: usize,
    pub span: Span,
    pub text: Seq<char>,
    pub style: HeadingStyle,
    pub has_terminal_punctuation: bool,
}

impl View for HeadingCandidate {
    type V = HeadingView;

    open spec fn view(&self) -> HeadingView {
        HeadingView {
            line_number: self.line_number,
            span: self.span,
            text: self.text@,
            style: self.style,
            has_terminal_punctuation: self.has_terminal_punctuation,
        }
    }
}

pub open spec fn heading_views(v: Seq<HeadingCandidate>) -> Seq<HeadingView> {
    v.map_values(|h: HeadingCandidate| h@)
}

/// A line that reads as a list item.
#[derive(Debug, Clone, PartialEq, Eq)]
pub struct ListItemCandidate {
    pub line_number: usize,
    pub span: Span,
    pub marker: String,
    pub marker_kind: ListMarkerKind,
    pub body: String,
    pub has_terminal_punctuation: bool,
}

pub struct ListItemView {
    pub line_number: usize,
    pub span: Span,
    pub marker: Seq<char>,
    pub marker_kind: ListMarkerKind,
    pub body: Seq<char>,
    pub has_terminal_punctuation: bool,
}

impl View for ListItemCandidate {
    type V = ListItemView;

    open spec fn view(&self) -> ListItemView {
        ListItemView {
            line_number: self.line_number,
            span: self.span,
            marker: self.marker@,
            marker_kind: self.marker_kind,
            body: self.body@,
            has_terminal_punctuation: self.has_terminal_punctuation,
        }
    }
}

pub open spec fn item_views(v: Seq<ListItemCandidate>) -> Seq<ListItemView> {
    v.map_values(|i: ListItemCandidate| i@)
}

/// Index of the first line feed at or after `i`.
pub open spec fn next_newline(s: Seq<char>, i: int) -> Option<int>
    decreases s.len() - i,
{
    if i < 0 || i >= s.len() {
        None
    } else if s[i] == '\n' {
        Some(i)
    } else {
        next_newline(s, i + 1)
    }
}

/// Character ranges of the lines from index `start` on, without their
/// line feeds.
pub open spec fn lines_from(s: Seq<char>, start: int) -> Seq<(int, int)>
    decreases s.len() + 1 - start,
{
    if start < 0 || start > s.len() {
        Seq::empty()
    } else {
        match next_newline(s, start) {
            Some(j) => if start <= j < s.len() {
                seq![(start, j)] + lines_from(s, j + 1)
            } else {
                Seq::empty()
            },
            None => seq![(start, s.len() as int)],
        }
    }
}

pub open spec fn spec_lines(s: Seq<char>) -> Seq<(int, int)> {
    lines_from(s, 0)
}

pub proof fn lemma_next_newline(s: Seq<char>, i: int)
    ensures
        next_newline(s, i) matches Some(j) ==> i <= j < s.len() && s[j] == '\n' && forall|m: int|
            i <= m < j ==> s[m] != '\n',
        next_newline(s, i) is None ==> forall|m: int| 0 <= i <= m < s.len() ==> s[m] != '\n',
    decreases s.len() - i,
{
    if 0 <= i < s.len() && s[i] != '\n' {
        lemma_next_newline(s, i + 1);
    }
}

pub proof fn lemma_lines_bounds(s: Seq<char>, start: int)
    requires
        0 <= start <= s.len(),
    ensures
        forall|k: int|
            0 <= k < lines_from(s, start).len() ==> start <= (#[trigger] lines_from(s, start)[k]).0
                <= lines_from(s, start)[k].1 <= s.len(),
        lines_from(s, start).len() <= s.len() + 1 - start,
    decreases s.len() + 1 - start,
{
    lemma_next_newline(s, start);
    match next_newline(s, start) {
        Some(j) => {
            lemma_lines_bounds(s, j + 1);
        },
        None => {},
    }
}

/// The lines of a text as character ranges, in order.
fn line_ranges(offs: &CharOffsets, Ghost(s): Ghost<Seq<char>>) -> (r: Vec<(usize, usize)>)
    requires
        offs.wf_for(s),
    ensures
        r@.map_values(|p: (usize, usize)| (p.0 as int, p.1 as int)) == spec_lines(s),
{
    let n = offs.chars.len();
    let mut out: Vec<(usize, usize)> = Vec::new();
    let mut start: usize = 0;
    let mut i: usize = 0;
    while i < n
        invariant
            offs.wf_for(s),
            n == s.len(),
            start <= i <= n,
            next_newline(s, start as int) == next_newline(s, i as int),
            spec_lines(s) == out@.map_values(|p: (usize, usize)| (p.0 as int, p.1 as int)) + lines_from(
                s,
                start as int,
            ),
        decreases n - i,
    {
        if offs.chars[i] == '\n' {
            let ghost o = out@.map_values(|p: (usize, usize)| (p.0 as int, p.1 as int));
            out.push((start, i));
            proof {
                assert(out@.map_values(|p: (usize, usize)| (p.0 as int, p.1 as int)) =~= o.push(
                    (start as int, i as int),
                ));
                assert(o + lines_from(s, start as int) =~= o.push((start as int, i as int)) + lines_from(
                    s,
                    i as int + 1,
                ));
            }
            start = i + 1;
        }
        i = i + 1;
    }
    let ghost o = out@.map_values(|p: (usize, usize)| (p.0 as int, p.1 as int));
    out.push((start, n));
    proof {
        assert(out@.map_values(|p: (usize, usize)| (p.0 as int, p.1 as int)) =~= o.push((start as int, n as int)));
    }
    out
}

/// The value ends with `.`, `!`, `?`, `:` or `;`.
pub open spec fn spec_has_terminal(v: Seq<char>) -> bool {
    v.len() > 0 && (v.last() == '.' || v.last() == '!' || v.last() == '?' || v.last() == ':' || v.last() == ';')
}

pub fn has_terminal_punctuation(v: &[char]) -> (r: bool)
    ensures
        r == spec_has_terminal(v@),
{
    if v.len() == 0 {
        return false;
    }
    let c = v[v.len() - 1];
    c == '.' || c == '!' || c == '?' || c == ':' || c == ';'
}

/// Index of the first space in `v`.
pub open spec fn first_space(v: Seq<char>, i: int) -> Option<int>
    decreases v.len() - i,
{
    if i < 0 || i >= v.len() {
        None
    } else if v[i] == ' ' {
        Some(i)
    } else {
        first_space(v, i + 1)
    }
}

/// `- `, `* ` and `• ` markers, or a number followed by a period and a
/// space: the marker, its kind and the rest of the line.
pub open spec fn spec_parse_list_marker(v: Seq<char>) -> Option<(Seq<char>, ListMarkerKind, Seq<char>)> {
    if v.len() >= 2 && v[0] == '-' && v[1] == ' ' {
        Some(("-"@, ListMarkerKind::Dash, v.subrange(2, v.len() as int)))
    } else if v.len() >= 2 && v[0] == '*' && v[1] == ' ' {
        Some(("*"@, ListMarkerKind::Asterisk, v.subrange(2, v.len() as int)))
    } else if v.len() >= 2 && v[0] == '\u{2022}' && v[1] == ' ' {
        Some(("\u{2022}"@, ListMarkerKind::Bullet, v.subrange(2, v.len() as int)))
    } else {
        match first_space(v, 0) {
            None => None,
            Some(i) => if 2 <= i && v[i - 1] == '.' && forall|m: int| 0 <= m < i - 1 ==> spec_is_ascii_digit(#[trigger] v[m]) {
                Some((v.subrange(0, i), ListMarkerKind::Numbered, v.subrange(i + 1, v.len() as int)))
            } else {
                None
            },
        }
    }
}

pub proof fn lemma_first_space(v: Seq<char>, i: int)
    ensures
        first_space(v, i) matches Some(j) ==> 0 <= i <= j < v.len() && v[j] == ' ',
    decreases v.len() - i,
{
    if 0 <= i < v.len() && v[i] != ' ' {
        lemma_first_space(v, i + 1);
    }
}

/// The marker, kind and body of a list line given as `v[a..b]`.
pub fn parse_list_marker(v: &[char], a: usize, b: usize) -> (r: Option<(Vec<char>, ListMarkerKind, usize)>)
    requires
        a <= b <= v@.len(),
    ensures
        match (r, spec_parse_list_marker(v@.subrange(a as int, b as int))) {
            (None, None) => true,
            (Some(x), Some(y)) => x.0@ == y.0 && x.1 == y.1 && a <= x.2 <= b && v@.subrange(x.2 as int, b as int) == y.2,
            _ => false,
        },
{
    let ghost w = v@.subrange(a as int, b as int);
    if b - a >= 2 && v[a + 1] == ' ' {
        let c = v[a];
        if c == '-' {
            proof {
                assert(v@.subrange(a + 2, b as int) =~= w.subrange(2, w.len() as int));
            }
            return Some((str_chars("-"), ListMarkerKind::Dash, a + 2));
        }
        if c == '*' {
            proof {
                assert(v@.subrange(a + 2, b as int) =~= w.subrange(2, w.len() as int));
            }
            return Some((str_chars("*"), ListMarkerKind::Asterisk, a + 2));
        }
        if c == '\u{2022}' {
            proof {
                assert(v@.subrange(a + 2, b as int) =~= w.subrange(2, w.len() as int));
            }
            return Some((str_chars("\u{2022}"), ListMarkerKind::Bullet, a + 2));
        }
    }
    let mut i = a;
    while i < b && v[i] != ' '
        invariant
            a <= i <= b <= v@.len(),
            w == v@.subrange(a as int, b as int),
            first_space(w, 0) == first_space(w, i - a),
        decreases b - i,
    {
        i = i + 1;
    }
    if i >= b {
        assert(first_space(w, 0) is None);
        return None;
    }
    assert(w[i - a] == ' ');
    assert(first_space(w, 0) == Some(i - a));
    if i - a < 2 || v[i - 1] != '.' {
        return None;
    }
    let mut k = a;
    while k < i - 1
        invariant
            a <= k <= i - 1,
            i < b <= v@.len(),
            w == v@.subrange(a as int, b as int),
            first_space(w, 0) == Some(i - a),
            !(w.len() >= 2 && w[1] == ' ' && (w[0] == '-' || w[0] == '*' || w[0] == '\u{2022}')),
            forall|m: int| 0 <= m < k - a ==> spec_is_ascii_digit(#[trigger] w[m]),
        decreases i - 1 - k,
    {
        if !is_ascii_digit(v[k]) {
            assert(!spec_is_ascii_digit(w[k - a]));
            assert(!(forall|m: int| 0 <= m < (i - a) - 1 ==> spec_is_ascii_digit(#[trigger] w[m])));
            assert(!(w.len() >= 2 && w[0] == '-' && w[1] == ' '));
            assert(!(w.len() >= 2 && w[0] == '*' && w[1] == ' '));
            assert(!(w.len() >= 2 && w[0] == '\u{2022}' && w[1] == ' '));
            assert(spec_parse_list_marker(w) is None);
            return None;
        }
        k = k + 1;
    }
    let mut marker: Vec<char> = Vec::new();
    let mut m = a;
    while m < i
        invariant
            a <= m <= i,
            i < b <= v@.len(),
            marker@ == v@.subrange(a as int, m as int),
        decreases i - m,
    {
        marker.push(v[m]);
        m = m + 1;
    }
    proof {
        assert(marker@ =~= w.subrange(0, i - a));
        assert(v@.subrange(i + 1, b as int) =~= w.subrange(i - a + 1, w.len() as int));
    }
    Some((marker, ListMarkerKind::Numbered, i + 1))
}

/// The value without its leading `#` characters.
pub open spec fn drop_hashes(v: Seq<char>) -> Seq<char>
    decreases v.len(),
{
    if v.len() > 0 && v[0] == '#' {
        drop_hashes(v.drop_first())
    } else {
        v
    }
}

/// Number of leading white-space characters.
pub open spec fn leading_ws(v: Seq<char>) -> int {
    v.len() - trim_start_seq(v).len()
}

pub proof fn lemma_trim_start(v: Seq<char>)
    ensures
        trim_start_seq(v).len() <= v.len(),
        trim_start_seq(v) == v.subrange(v.len() - trim_start_seq(v).len(), v.len() as int),
    decreases v.len(),
{
    if v.len() > 0 && spec_is_whitespace(v[0]) {
        lemma_trim_start(v.drop_first());
        assert(v.drop_first().subrange(
            v.drop_first().len() - trim_start_seq(v.drop_first()).len(),
            v.drop_first().len() as int,
        ) =~= v.subrange(v.len() - trim_start_seq(v).len(), v.len() as int));
    } else {
        assert(v.subrange(0, v.len() as int) =~= v);
    }
}

/// The heading read from line `k`, spanning `a..b` in characters.
pub open spec fn spec_heading_for_line(s: Seq<char>, k: int, a: int, b: int) -> Option<HeadingView> {
    let raw = s.subrange(a, b);
    let trimmed = trim_seq(raw);
    let start = a + leading_ws(raw);
    if trimmed.len() == 0 {
        None
    } else if trimmed[0] == '#' {
        let title = trim_seq(drop_hashes(trimmed));
        Some(
            HeadingView {
                line_number: (k + 1) as usize,
                span: Span { start: byte_offset(s, start) as usize, end: byte_offset(s, b) as usize },
                text: title,
                style: HeadingStyle::MarkdownAtx,
                has_terminal_punctuation: spec_has_terminal(title),
            },
        )
    } else if trimmed.len() <= 80 && !spec_has_terminal(trimmed) && spec_parse_list_marker(trimmed) is None {
        Some(
            HeadingView {
                line_number: (k + 1) as usize,
                span: Span { start: byte_offset(s, start) as usize, end: byte_offset(s, b) as usize },
                text: trimmed,
                style: HeadingStyle::PlainShortLine,
                has_terminal_punctuation: false,
            },
        )
    } else {
        None
    }
}

/// The list item read from line `k`, spanning `a..b` in characters.
pub open spec fn spec_item_for_line(s: Seq<char>, k: int, a: int, b: int) -> Option<ListItemView> {
    let raw = s.subrange(a, b);
    let rest = trim_start_seq(raw);
    let start = a + leading_ws(raw);
    match spec_parse_list_marker(rest) {
        None => None,
        Some(p) => Some(
            ListItemView {
                line_number: (k + 1) as usize,
                span: Span { start: byte_offset(s, start) as usize, end: byte_offset(s, b) as usize },
                marker: p.0,
                marker_kind: p.1,
                body: trim_seq(p.2),
                has_terminal_punctuation: spec_has_terminal(trim_seq(p.2)),
            },
        ),
    }
}

/// Headings of the first `k` lines.
pub open spec fn spec_headings(s: Seq<char>, lines: Seq<(int, int)>, k: int) -> Seq<HeadingView>
    decreases k,
{
    if k <= 0 || k > lines.len() {
        Seq::empty()
    } else {
        match spec_heading_for_line(s, k - 1, lines[k - 1].0, lines[k - 1].1) {
            Some(h) => spec_headings(s, lines, k - 1).push(h),
            None => spec_headings(s, lines, k - 1),
        }
    }
}

/// List items of the first `k` lines.
pub open spec fn spec_items(s: Seq<char>, lines: Seq<(int, int)>, k: int) -> Seq<ListItemView>
    decreases k,
{
    if k <= 0 || k > lines.len() {
        Seq::empty()
    } else {
        match spec_item_for_line(s, k - 1, lines[k - 1].0, lines[k - 1].1) {
            Some(i) => spec_items(s, lines, k - 1).push(i),
            None => spec_items(s, lines, k - 1),
        }
    }
}

fn copy_range(v: &[char], a: usize, b: usize) -> (r: Vec<char>)
    requires
        a <= b <= v@.len(),
    ensures
        r@ == v@.subrange(a as int, b as int),
{
    let mut out: Vec<char> = Vec::new();
    let mut i = a;
    while i < b
        invariant
            a <= i <= b <= v@.len(),
            out@ == v@.subrange(a as int, i as int),
        decreases b - i,
    {
        out.push(v[i]);
        i = i + 1;
    }
    out
}

fn trim_start_index(v: &[char], a: usize, b: usize) -> (r: usize)
    requires
        a <= b <= v@.len(),
    ensures
        a <= r <= b,
        r == a + leading_ws(v@.subrange(a as int, b as int)),
        v@.subrange(r as int, b as int) == trim_start_seq(v@.subrange(a as int, b as int)),
{
    let mut i = a;
    while i < b && is_whitespace(v[i])
        invariant
            a <= i <= b <= v@.len(),
            trim_start_seq(v@.subrange(a as int, b as int)) == trim_start_seq(v@.subrange(i as int, b as int)),
        decreases b - i,
    {
        assert(v@.subrange(i as int, b as int).drop_first() =~= v@.subrange(i as int + 1, b as int));
        i = i + 1;
    }
    proof {
        let w = v@.subrange(i as int, b as int);
        if w.len() > 0 {
            assert(!spec_is_whitespace(w[0]));
        }
        assert(trim_start_seq(w) == w);
    }
    i
}

fn heading_for_line(offs: &CharOffsets, Ghost(s): Ghost<Seq<char>>, k: usize, a: usize, b: usize) -> (r: Option<HeadingCandidate>)
    requires
        offs.wf_for(s),
        a <= b <= s.len(),
        k < usize::MAX,
    ensures
        match r {
            None => spec_heading_for_line(s, k as int, a as int, b as int) is None,
            Some(h) => spec_heading_for_line(s, k as int, a as int, b as int) == Some(h@),
        },
{
    let v = offs.chars.as_slice();
    let start = trim_start_index(v, a, b);
    let tb = trim_end_bound(v, start, b);
    let ta = start;
    if ta == tb {
        return None;
    }
    if v[ta] == '#' {
        let mut h = ta;
        while h < tb && v[h] == '#'
            invariant
                ta <= h <= tb <= s.len(),
                offs.wf_for(s),
                v@ == s,
                drop_hashes(s.subrange(ta as int, tb as int)) == drop_hashes(s.subrange(h as int, tb as int)),
            decreases tb - h,
        {
            assert(s.subrange(h as int, tb as int).drop_first() =~= s.subrange(h as int + 1, tb as int));
            h = h + 1;
        }
        proof {
            let w = s.subrange(h as int, tb as int);
            if w.len() > 0 {
                assert(w[0] != '#');
            }
        }
        let (xa, xb) = trim_bounds(v, h, tb);
        let title = copy_range(v, xa, xb);
        let term = has_terminal_punctuation(title.as_slice());
        let text = string_from_chars(title.as_slice(), 0, title.len());
        assert(title@.subrange(0, title@.len() as int) =~= title@);
        return Some(HeadingCandidate {
            line_number: k + 1,
            span: Span::new(offs.starts[start], offs.starts[b]),
            text,
            style: HeadingStyle::MarkdownAtx,
            has_terminal_punctuation: term,
        });
    }
    let trimmed = copy_range(v, ta, tb);
    if tb - ta <= 80 && !has_terminal_punctuation(trimmed.as_slice()) {
        let marker = parse_list_marker(v, ta, tb);
        if marker.is_none() {
            let text = string_from_chars(trimmed.as_slice(), 0, trimmed.len());
            assert(trimmed@.subrange(0, trimmed@.len() as int) =~= trimmed@);
            return Some(HeadingCandidate {
                line_number: k + 1,
                span: Span::new(offs.starts[start], offs.starts[b]),
                text,
                style: HeadingStyle::PlainShortLine,
                has_terminal_punctuation: false,
            });
        }
    }
    None
}

fn item_for_line(offs: &CharOffsets, Ghost(s): Ghost<Seq<char>>, k: usize, a: usize, b: usize) -> (r: Option<ListItemCandidate>)
    requires
        offs.wf_for(s),
        a <= b <= s.len(),
        k < usize::MAX,
    ensures
        match r {
            None => spec_item_for_line(s, k as int, a as int, b as int) is None,
            Some(i) => spec_item_for_line(s, k as int, a as int, b as int) == Some(i@),
        },
{
    let v = offs.chars.as_slice();
    let start = trim_start_index(v, a, b);
    match parse_list_marker(v, start, b) {
        None => None,
        Some((marker, kind, body_start)) => {
            let (xa, xb) = trim_bounds(v, body_start, b);
            let body = copy_range(v, xa, xb);
            let term = has_terminal_punctuation(body.as_slice());
            assert(body@.subrange(0, body@.len() as int) =~= body@);
            assert(marker@.subrange(0, marker@.len() as int) =~= marker@);
            Some(ListItemCandidate {
                line_number: k + 1,
                span: Span::new(offs.starts[start], offs.starts[b]),
                marker: string_from_chars(marker.as_slice(), 0, marker.len()),
                marker_kind: kind,
                body: string_from_chars(body.as_slice(), 0, body.len()),
                has_terminal_punctuation: term,
            })
        },
    }
}

/// Lines that read as headings: `#` headings, and short lines without
/// terminal punctuation that are not list items.
pub fn heading_candidates(text: &str) -> (r: Vec<HeadingCandidate>)
    ensures
        heading_views(r@) == spec_headings(text@, spec_lines(text@), spec_lines(text@).len() as int),
{
    let ghost s = text@;
    let offs = CharOffsets::new(text);
    let lines = line_ranges(&offs, Ghost(s));
    let ghost ls = spec_lines(s);
    proof {
        lemma_lines_bounds(s, 0);
    }
    let mut out: Vec<HeadingCandidate> = Vec::new();
    let mut k: usize = 0;
    while k < lines.len()
        invariant
            offs.wf_for(s),
            ls == spec_lines(s),
            lines@.map_values(|p: (usize, usize)| (p.0 as int, p.1 as int)) == ls,
            forall|j: int| 0 <= j < ls.len() ==> 0 <= (#[trigger] ls[j]).0 <= ls[j].1 <= s.len(),
            k <= lines@.len(),
            heading_views(out@) == spec_headings(s, ls, k as int),
        decreases lines@.len() - k,
    {
        let (a, b) = lines[k];
        assert(ls[k as int] == (a as int, b as int));
        let h = heading_for_line(&offs, Ghost(s), k, a, b);
        match h {
            Some(x) => {
                let ghost o = heading_views(out@);
                out.push(x);
                assert(heading_views(out@) =~= o.push(x@));
            },
            None => {},
        }
        k = k + 1;
    }
    out
}

/// Lines that start, after white space, with a list marker.
pub fn list_item_candidates(text: &str) -> (r: Vec<ListItemCandidate>)
    ensures
        item_views(r@) == spec_items(text@, spec_lines(text@), spec_lines(text@).len() as int),
{
    let ghost s = text@;
    let offs = CharOffsets::new(text);
    let lines = line_ranges(&offs, Ghost(s));
    let ghost ls = spec_lines(s);
    proof {
        lemma_lines_bounds(s, 0);
    }
    let mut out: Vec<ListItemCandidate> = Vec::new();
    let mut k: usize = 0;
    while k < lines.len()
        invariant
            offs.wf_for(s),
            ls == spec_lines(s),
            lines@.map_values(|p: (usize, usize)| (p.0 as int, p.1 as int)) == ls,
            forall|j: int| 0 <= j < ls.len() ==> 0 <= (#[trigger] ls[j]).0 <= ls[j].1 <= s.len(),
            k <= lines@.len(),
            item_views(out@) == spec_items(s, ls, k as int),
        decreases lines@.len() - k,
    {
        let (a, b) = lines[k];
        assert(ls[k as int] == (a as int, b as int));
        let it = item_for_line(&offs, Ghost(s), k, a, b);
        match it {
            Some(x) => {
                let ghost o = item_views(out@);
                out.push(x);
                assert(item_views(out@) =~= o.push(x@));
            },
            None => {},
        }
        k = k + 1;
    }
    out
}

#[derive(Debug, Clone, Copy, PartialEq, Eq, Structural, Default)]
pub struct DocumentStyleProfile {
    pub paragraph_count: usize,
    pub heading_count: usize,
    pub list_item_count: usize,
    pub mixed_heading_punctuation: bool,
    pub mixed_list_markers: bool,
}

/// Index of the first blank-line separator `\n\n` at or after `i`.
pub open spec fn next_paragraph_break(s: Seq<char>, i: int) -> Option<int>
    decreases s.len() - i,
{
    if i < 0 || i + 1 >= s.len() {
        None
    } else if s[i] == '\n' && s[i + 1] == '\n' {
        Some(i)
    } else {
        next_paragraph_break(s, i + 1)
    }
}

pub open spec fn is_blank(v: Seq<char>) -> bool {
    forall|m: int| 0 <= m < v.len() ==> spec_is_whitespace(#[trigger] v[m])
}

/// Pieces of `s[i..]` between blank-line separators that are not blank.
pub open spec fn paragraphs_from(s: Seq<char>, i: int) -> nat
    decreases s.len() + 2 - i,
{
    if i < 0 || i > s.len() {
        0
    } else {
        match next_paragraph_break(s, i) {
            Some(j) => if i <= j && j + 2 <= s.len() {
                (if is_blank(s.subrange(i, j)) {
                    0nat
                } else {
                    1nat
                }) + paragraphs_from(s, j + 2)
            } else {
                0
            },
            None => if is_blank(s.subrange(i, s.len() as int)) {
                0
            } else {
                1
            },
        }
    }
}

pub proof fn lemma_paragraph_break(s: Seq<char>, i: int)
    ensures
        next_paragraph_break(s, i) matches Some(j) ==> 0 <= i <= j && j + 1 < s.len(),
    decreases s.len() - i,
{
    if 0 <= i && i + 1 < s.len() && !(s[i] == '\n' && s[i + 1] == '\n') {
        lemma_paragraph_break(s, i + 1);
    }
}

pub proof fn lemma_paragraphs_le(s: Seq<char>, i: int)
    ensures
        0 <= i <= s.len() ==> paragraphs_from(s, i) <= s.len() - i,
    decreases s.len() + 2 - i,
{
    if 0 <= i <= s.len() {
        lemma_paragraph_break(s, i);
        match next_paragraph_break(s, i) {
            Some(j) => {
                lemma_paragraphs_le(s, j + 2);
            },
            None => {},
        }
    }
}

fn range_is_blank(v: &[char], a: usize, b: usize) -> (r: bool)
    requires
        a <= b <= v@.len(),
    ensures
        r == is_blank(v@.subrange(a as int, b as int)),
{
    let mut i = a;
    while i < b
        invariant
            a <= i <= b <= v@.len(),
            forall|m: int| a <= m < i ==> spec_is_whitespace(#[trigger] v@[m]),
        decreases b - i,
    {
        if !is_whitespace(v[i]) {
            assert(!spec_is_whitespace(v@.subrange(a as int, b as int)[i - a]));
            return false;
        }
        i = i + 1;
    }
    assert forall|m: int| 0 <= m < b - a implies spec_is_whitespace(#[trigger] v@.subrange(a as int, b as int)[m]) by {
        assert(v@.subrange(a as int, b as int)[m] == v@[a + m]);
    }
    true
}

/// Number of non-blank paragraphs, paragraphs being separated by `\n\n`.
pub fn paragraph_count(text: &str) -> (r: usize)
    ensures
        r == paragraphs_from(text@, 0),
{
    let ghost s = text@;
    let v = str_chars(text);
    let n = v.len();
    let mut count: usize = 0;
    let mut p: usize = 0;
    let mut i: usize = 0;
    proof {
        lemma_paragraphs_le(s, 0);
    }
    while i < n && n - i > 1
        invariant
            v@ == s,
            n == s.len(),
            p <= i,
            p <= n,
            next_paragraph_break(s, p as int) == next_paragraph_break(s, i as int),
            paragraphs_from(s, 0) == count + paragraphs_from(s, p as int),
            count + paragraphs_from(s, p as int) <= n,
        decreases n - i,
    {
        if v[i] == '\n' && v[i + 1] == '\n' {
            let blank = range_is_blank(v.as_slice(), p, i);
            proof {
                lemma_paragraph_break(s, i as int);
                lemma_paragraphs_le(s, i as int + 2);
            }
            if !blank {
                count = count + 1;
            }
            p = i + 2;
            i = i + 2;
        } else {
            i = i + 1;
        }
    }
    proof {
        lemma_paragraph_break(s, i as int);
        if p <= n {
            assert(next_paragraph_break(s, i as int) is None);
        }
    }
    if p <= n {
        let blank = range_is_blank(v.as_slice(), p, n);
        proof {
            lemma_paragraphs_le(s, p as int);
        }
        if !blank {
            count = count + 1;
        }
    }
    count
}

pub open spec fn spec_mixed_heading_punctuation(hs: Seq<HeadingView>) -> bool {
    exists|i: int, j: int|
        0 <= i < hs.len() && 0 <= j < hs.len() && (#[trigger] hs[i]).has_terminal_punctuation
            != (#[trigger] hs[j]).has_terminal_punctuation
}

pub open spec fn spec_mixed_list_markers(items: Seq<ListItemView>) -> bool {
    exists|i: int, j: int|
        0 <= i < items.len() && 0 <= j < items.len() && (#[trigger] items[i]).marker_kind != (#[trigger] items[j]).marker_kind
}

/// Counts of paragraphs, headings and list items, and whether headings
/// differ in terminal punctuation or list items in marker kind.
pub fn document_style_profile(text: &str, headings: &[HeadingCandidate], list_items: &[ListItemCandidate]) -> (r: DocumentStyleProfile)
    ensures
        r.paragraph_count == paragraphs_from(text@, 0),
        r.heading_count == headings@.len(),
        r.list_item_count == list_items@.len(),
        r.mixed_heading_punctuation == spec_mixed_heading_punctuation(heading_views(headings@)),
        r.mixed_list_markers == spec_mixed_list_markers(item_views(list_items@)),
{
    let ghost hv = heading_views(headings@);
    let ghost iv = item_views(list_items@);
    let mut mixed_h = false;
    if headings.len() > 0 {
        let first = headings[0].has_terminal_punctuation;
        let mut k: usize = 1;
        while k < headings.len() && headings[k].has_terminal_punctuation == first
            invariant
                0 < headings@.len(),
                hv == heading_views(headings@),
                first == hv[0].has_terminal_punctuation,
                1 <= k <= headings@.len(),
                forall|j: int| 0 <= j < k ==> (#[trigger] hv[j]).has_terminal_punctuation == first,
            decreases headings@.len() - k,
        {
            k = k + 1;
        }
        mixed_h = k < headings.len();
        proof {
            if mixed_h {
                assert(hv[k as int].has_terminal_punctuation != hv[0].has_terminal_punctuation);
            }
        }
        proof {
            if !mixed_h {
                assert forall|i: int, j: int| 0 <= i < hv.len() && 0 <= j < hv.len() implies (#[trigger] hv[i]).has_terminal_punctuation
                    == (#[trigger] hv[j]).has_terminal_punctuation by {
                    assert(hv[i].has_terminal_punctuation == first);
                    assert(hv[j].has_terminal_punctuation == first);
                }
            }
        }
    }
    let mut mixed_l = false;
    if list_items.len() > 0 {
        let first = list_items[0].marker_kind;
        let mut k: usize = 1;
        while k < list_items.len() && list_items[k].marker_kind == first
            invariant
                0 < list_items@.len(),
                iv == item_views(list_items@),
                first == iv[0].marker_kind,
                1 <= k <= list_items@.len(),
                forall|j: int| 0 <= j < k ==> (#[trigger] iv[j]).marker_kind == first,
            decreases list_items@.len() - k,
        {
            k = k + 1;
        }
        mixed_l = k < list_items.len();
        proof {
            if mixed_l {
                assert(iv[k as int].marker_kind != iv[0].marker_kind);
            }
        }
        proof {
            if !mixed_l {
                assert forall|i: int, j: int| 0 <= i < iv.len() && 0 <= j < iv.len() implies (#[trigger] iv[i]).marker_kind
                    == (#[trigger] iv[j]).marker_kind by {
                    assert(iv[i].marker_kind == first);
                    assert(iv[j].marker_kind == first);
                }
            }
        }
    }
    DocumentStyleProfile {
        paragraph_count: paragraph_count(text),
        heading_count: headings.len(),
        list_item_count: list_items.len(),
        mixed_heading_punctuation: mixed_h,
        mixed_list_markers: mixed_l,
    }
}

/// `p` occurs in `v` at index `i`.
pub open spec fn occurs_at(v: Seq<char>, p: Seq<char>, i: int) -> bool {
    0 <= i && i + p.len() <= v.len() && v.subrange(i, i + p.len()) == p
}

/// Index of the first occurrence of `p` in `v` at or after `i`.
pub open spec fn first_occurrence(v: Seq<char>, p: Seq<char>, i: int) -> Option<int>
    decreases v.len() + 1 - i,
{
    if i < 0 || i + p.len() > v.len() {
        None
    } else if occurs_at(v, p, i) {
        Some(i)
    } else {
        first_occurrence(v, p, i + 1)
    }
}

pub proof fn lemma_first_occurrence(v: Seq<char>, p: Seq<char>, i: int)
    ensures
        first_occurrence(v, p, i) matches Some(j) ==> i <= j && occurs_at(v, p, j),
    decreases v.len() + 1 - i,
{
    if !(i < 0 || i + p.len() > v.len()) && !occurs_at(v, p, i) {
        lemma_first_occurrence(v, p, i + 1);
    }
}

fn occurs_at_exec(v: &[char], p: &[char], i: usize) -> (r: bool)
    ensures
        r == occurs_at(v@, p@, i as int),
{
    if i > v.len() || v.len() - i < p.len() {
        return false;
    }
    let mut k: usize = 0;
    while k < p.len()
        invariant
            i + p@.len() <= v@.len(),
            v@.len() <= usize::MAX,
            k <= p@.len(),
            forall|m: int| 0 <= m < k ==> v@[i + m] == p@[m],
        decreases p@.len() - k,
    {
        assert(i + k < v@.len());
        if v[i + k] != p[k] {
            assert(v@.subrange(i as int, i + p@.len())[k as int] != p@[k as int]);
            return false;
        }
        k = k + 1;
    }
    assert(v@.subrange(i as int, i + p@.len()) =~= p@);
    true
}

/// The index of the first occurrence of `p` in `v`.
pub fn find_text(v: &[char], p: &[char]) -> (r: Option<usize>)
    ensures
        match r {
            Some(i) => first_occurrence(v@, p@, 0) == Some(i as int),
            None => first_occurrence(v@, p@, 0) is None,
        },
{
    if p.len() > v.len() {
        return None;
    }
    if p.len() == 0 {
        assert(v@.subrange(0, 0) =~= p@);
        return Some(0);
    }
    let mut i: usize = 0;
    while i <= v.len() - p.len() && !occurs_at_exec(v, p, i)
        invariant
            1 <= p@.len() <= v@.len(),
            v@.len() <= usize::MAX,
            i <= v@.len() - p@.len() + 1,
            first_occurrence(v@, p@, 0) == first_occurrence(v@, p@, i as int),
        decreases v@.len() - p@.len() + 1 - i,
    {
        i = i + 1;
    }
    if i <= v.len() - p.len() {
        Some(i)
    } else {
        None
    }
}

/// A term of a glossary section with its definition.
#[derive(Debug, Clone, PartialEq, Eq)]
pub struct GlossaryEntry {
    pub term: String,
    pub definition: String,
    pub span: Span,
}

pub struct GlossaryView {
    pub term: Seq<char>,
    pub definition: Seq<char>,
    pub span: Span,
}

impl View for GlossaryEntry {
    type V = GlossaryView;

    open spec fn view(&self) -> GlossaryView {
        GlossaryView { term: self.term@, definition: self.definition@, span: self.span }
    }
}

pub open spec fn glossary_views(v: Seq<GlossaryEntry>) -> Seq<GlossaryView> {
    v.map_values(|g: GlossaryEntry| g@)
}

/// `v` cut at the first occurrence of `sep`, when both halves hold more
/// than white space.
pub open spec fn split_at_sep(v: Seq<char>, sep: Seq<char>) -> Option<(Seq<char>, Seq<char>)> {
    match first_occurrence(v, sep, 0) {
        None => None,
        Some(i) => {
            let t = v.subrange(0, i);
            let d = v.subrange(i + sep.len(), v.len() as int);
            if trim_seq(t).len() > 0 && trim_seq(d).len() > 0 {
                Some((t, d))
            } else {
                None
            }
        },
    }
}

/// The body cut at the first of ` — `, ` – `, ` - ` and `: ` that splits it
/// into a term and a definition.
pub open spec fn spec_split_glossary_body(v: Seq<char>) -> Option<(Seq<char>, Seq<char>)> {
    match split_at_sep(v, " \u{2014} "@) {
        Some(x) => Some(x),
        None => match split_at_sep(v, " \u{2013} "@) {
            Some(x) => Some(x),
            None => match split_at_sep(v, " - "@) {
                Some(x) => Some(x),
                None => split_at_sep(v, ": "@),
            },
        },
    }
}

fn split_at_sep_exec(v: &[char], sep: &str) -> (r: Option<(usize, usize)>)
    ensures
        match (r, split_at_sep(v@, sep@)) {
            (None, None) => true,
            (Some(x), Some(y)) => x.0 <= x.1 <= v@.len() && v@.subrange(0, x.0 as int) == y.0 && v@.subrange(
                x.1 as int,
                v@.len() as int,
            ) == y.1,
            _ => false,
        },
{
    let p = str_chars(sep);
    let vl = v.len();
    match find_text(v, p.as_slice()) {
        None => None,
        Some(i) => {
            proof {
                lemma_first_occurrence(v@, p@, 0);
                assert(occurs_at(v@, p@, i as int));
            }
            let j = i + p.len();
            let (ta, tb) = trim_bounds(v, 0, i);
            let (da, db) = trim_bounds(v, j, v.len());
            if ta < tb && da < db {
                Some((i, j))
            } else {
                None
            }
        },
    }
}

fn split_glossary_body(v: &[char]) -> (r: Option<(usize, usize)>)
    ensures
        match (r, spec_split_glossary_body(v@)) {
            (None, None) => true,
            (Some(x), Some(y)) => x.0 <= x.1 <= v@.len() && v@.subrange(0, x.0 as int) == y.0 && v@.subrange(
                x.1 as int,
                v@.len() as int,
            ) == y.1,
            _ => false,
        },
{
    match split_at_sep_exec(v, " \u{2014} ") {
        Some(x) => {
            return Some(x);
        },
        None => {},
    }
    match split_at_sep_exec(v, " \u{2013} ") {
        Some(x) => {
            return Some(x);
        },
        None => {},
    }
    match split_at_sep_exec(v, " - ") {
        Some(x) => {
            return Some(x);
        },
        None => {},
    }
    split_at_sep_exec(v, ": ")
}

pub open spec fn is_glossary_heading(h: HeadingView) -> bool {
    first_occurrence(lower_seq(h.text), "\u{433}\u{43b}\u{43e}\u{441}\u{441}\u{430}\u{440}"@, 0) is Some
}

/// The byte range that the heading at `idx` opens: to the next heading or
/// to the end of the text.
pub open spec fn heading_range(hs: Seq<HeadingView>, idx: int, text_bytes: int) -> (int, int) {
    (
        hs[idx].span.end as int,
        if idx + 1 < hs.len() {
            hs[idx + 1].span.start as int
        } else {
            text_bytes
        },
    )
}

pub open spec fn in_glossary(hs: Seq<HeadingView>, text_bytes: int, b: int) -> bool {
    exists|idx: int|
        0 <= idx < hs.len() && is_glossary_heading(#[trigger] hs[idx]) && heading_range(hs, idx, text_bytes).0 <= b
            < heading_range(hs, idx, text_bytes).1
}

/// Glossary entries of the first `k` list items: items under a heading
/// that mentions a glossary, whose body splits into term and definition.
pub open spec fn spec_glossary(hs: Seq<HeadingView>, text_bytes: int, items: Seq<ListItemView>, k: int) -> Seq<GlossaryView>
    decreases k,
{
    if k <= 0 || k > items.len() {
        Seq::empty()
    } else {
        let prev = spec_glossary(hs, text_bytes, items, k - 1);
        let it = items[k - 1];
        if in_glossary(hs, text_bytes, it.span.start as int) {
            match spec_split_glossary_body(it.body) {
                Some(p) => prev.push(GlossaryView { term: trim_seq(p.0), definition: trim_seq(p.1), span: it.span }),
                None => prev,
            }
        } else {
            prev
        }
    }
}

fn glossary_heading(h: &HeadingCandidate) -> (r: bool)
    ensures
        r == is_glossary_heading(h@),
{
    let c = str_chars(h.text.as_str());
    let l = lower_chars(c.as_slice());
    let p = str_chars("\u{433}\u{43b}\u{43e}\u{441}\u{441}\u{430}\u{440}");
    find_text(l.as_slice(), p.as_slice()).is_some()
}

fn item_in_glossary(headings: &[HeadingCandidate], text_bytes: usize, b: usize) -> (r: bool)
    ensures
        r == in_glossary(heading_views(headings@), text_bytes as int, b as int),
{
    let ghost hs = heading_views(headings@);
    let mut idx: usize = 0;
    while idx < headings.len()
        invariant
            hs == heading_views(headings@),
            idx <= headings@.len(),
            forall|j: int|
                0 <= j < idx ==> !(is_glossary_heading(#[trigger] hs[j]) && heading_range(hs, j, text_bytes as int).0
                    <= b < heading_range(hs, j, text_bytes as int).1),
        decreases headings@.len() - idx,
    {
        let lo = headings[idx].span.end;
        let hi = if idx + 1 < headings.len() { headings[idx + 1].span.start } else { text_bytes };
        if glossary_heading(&headings[idx]) && lo <= b && b < hi {
            assert(is_glossary_heading(hs[idx as int]));
            return true;
        }
        idx = idx + 1;
    }
    false
}

/// Term and definition pairs from the list items of glossary sections.
pub fn glossary_entries_from_document(
    text: &str,
    headings: &[HeadingCandidate],
    list_items: &[ListItemCandidate],
) -> (r: Vec<GlossaryEntry>)
    ensures
        glossary_views(r@) == spec_glossary(
            heading_views(headings@),
            crate::unicode::text_len(text@) as int,
            item_views(list_items@),
            list_items@.len() as int,
        ),
{
    let text_bytes = text.as_bytes().len();
    proof {
        crate::unicode::lemma_text_len_encode(text@);
    }
    let ghost hs = heading_views(headings@);
    let ghost iv = item_views(list_items@);
    let mut out: Vec<GlossaryEntry> = Vec::new();
    let mut k: usize = 0;
    while k < list_items.len()
        invariant
            hs == heading_views(headings@),
            iv == item_views(list_items@),
            k <= list_items@.len(),
            glossary_views(out@) == spec_glossary(hs, text_bytes as int, iv, k as int),
        decreases list_items@.len() - k,
    {
        let item = &list_items[k];
        if item_in_glossary(headings, text_bytes, item.span.start) {
            let body = str_chars(item.body.as_str());
            match split_glossary_body(body.as_slice()) {
                Some((i, j)) => {
                    let (ta, tb) = trim_bounds(body.as_slice(), 0, i);
                    let (da, db) = trim_bounds(body.as_slice(), j, body.len());
                    let term = string_from_chars(body.as_slice(), ta, tb);
                    let definition = string_from_chars(body.as_slice(), da, db);
                    let e = GlossaryEntry { term, definition, span: item.span };
                    let ghost o = glossary_views(out@);
                    out.push(e);
                    assert(glossary_views(out@) =~= o.push(e@));
                },
                None => {},
            }
        }
        k = k + 1;
    }
    out
}

} // verus!
