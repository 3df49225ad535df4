use vstd::prelude::*;
use vstd::utf8::*;

verus! {

broadcast use vstd::seq_lib::group_seq_properties;

/// The characters with the Unicode `White_Space` property, which is what
/// `char::is_whitespace` tests.
pub open spec fn spec_is_whitespace(c: char) -> bool {
    let v = c as u32;
    ||| 0x09 <= v <= 0x0D
    ||| v == 0x20
    ||| v == 0x85
    ||| v == 0xA0
    ||| v == 0x1680
    ||| 0x2000 <= v <= 0x200A
    ||| v == 0x2028
    ||| v == 0x2029
    ||| v == 0x202F
    ||| v == 0x205F
    ||| v == 0x3000
}

/// Whether `c` is white space in the sense of `char::is_whitespace`.
pub fn is_whitespace(c: char) -> (r: bool)
    ensures
        r == spec_is_whitespace(c),
{
    let v = c as u32;
    (0x09 <= v && v <= 0x0D) || v == 0x20 || v == 0x85 || v == 0xA0 || v == 0x1680 || (0x2000
        <= v && v <= 0x200A) || v == 0x2028 || v == 0x2029 || v == 0x202F || v == 0x205F || v
        == 0x3000
}

pub open spec fn spec_is_ascii_digit(c: char) -> bool {
    '0' <= c <= '9'
}

pub open spec fn spec_is_ascii_alphabetic(c: char) -> bool {
    ('a' <= c <= 'z') || ('A' <= c <= 'Z')
}

pub open spec fn spec_is_ascii_punctuation(c: char) -> bool {
    let v = c as u32;
    ||| 0x21 <= v <= 0x2F
    ||| 0x3A <= v <= 0x40
    ||| 0x5B <= v <= 0x60
    ||| 0x7B <= v <= 0x7E
}

pub fn is_ascii_digit(c: char) -> (r: bool)
    ensures
        r == spec_is_ascii_digit(c),
{
    '0' <= c && c <= '9'
}

pub fn is_ascii_alphabetic(c: char) -> (r: bool)
    ensures
        r == spec_is_ascii_alphabetic(c),
{
    ('a' <= c && c <= 'z') || ('A' <= c && c <= 'Z')
}

pub fn is_ascii_punctuation(c: char) -> (r: bool)
    ensures
        r == spec_is_ascii_punctuation(c),
{
    let v = c as u32;
    (0x21 <= v && v <= 0x2F) || (0x3A <= v && v <= 0x40) || (0x5B <= v && v <= 0x60) || (0x7B
        <= v && v <= 0x7E)
}

/// Whether `char::is_alphabetic` holds of the character (the Unicode
/// `Alphabetic` property).
pub uninterp spec fn unicode_alphabetic(c: char) -> bool;

/// Whether `char::is_lowercase` holds of the character.
pub uninterp spec fn unicode_lowercase(c: char) -> bool;

/// Whether `char::is_uppercase` holds of the character.
pub uninterp spec fn unicode_uppercase(c: char) -> bool;

/// The characters that `char::to_lowercase` yields for the character.
pub uninterp spec fn unicode_to_lower(c: char) -> Seq<char>;

/// The characters that `char::to_uppercase` yields for the character.
pub uninterp spec fn unicode_to_upper(c: char) -> Seq<char>;

/// Calls `char::is_alphabetic`; the result is named `unicode_alphabetic`,
/// a fixed property of the character.
#[verifier::external_body]
pub fn is_alphabetic(c: char) -> (r: bool)
    ensures
        r == unicode_alphabetic(c),
{
    c.is_alphabetic()
}

/// Calls `char::is_lowercase`; the result is named `unicode_lowercase`.
#[verifier::external_body]
pub fn is_lowercase(c: char) -> (r: bool)
    ensures
        r == unicode_lowercase(c),
{
    c.is_lowercase()
}

/// Calls `char::is_uppercase`; the result is named `unicode_uppercase`.
#[verifier::external_body]
pub fn is_uppercase(c: char) -> (r: bool)
    ensures
        r == unicode_uppercase(c),
{
    c.is_uppercase()
}

/// Calls `char::to_lowercase` and collects what it yields; the characters are
/// named `unicode_to_lower`.
#[verifier::external_body]
pub fn to_lower_chars(c: char) -> (r: Vec<char>)
    ensures
        r@ == unicode_to_lower(c),
{
    c.to_lowercase().collect()
}

/// Calls `char::to_uppercase` and collects what it yields; the characters are
/// named `unicode_to_upper`.
#[verifier::external_body]
pub fn to_upper_chars(c: char) -> (r: Vec<char>)
    ensures
        r@ == unicode_to_upper(c),
{
    c.to_uppercase().collect()
}

/// Builds a `String` from the characters `v[start..end]` by
/// `Iterator::collect`, which keeps them in order.
#[verifier::external_body]
pub fn string_from_chars(v: &[char], start: usize, end: usize) -> (s: String)
    requires
        start <= end <= v@.len(),
    ensures
        s@ == v@.subrange(start as int, end as int),
{
    v[start..end].iter().collect()
}

/// The characters of a string slice, in order.
pub fn str_chars(s: &str) -> (v: Vec<char>)
    ensures
        v@ == s@,
{
    let mut v: Vec<char> = Vec::new();
    for c in it: s.chars()
        invariant
            v@ == it.seq().take(it.index() as int),
    {
        v.push(c);
    }
    v
}

/// Whether the characters in `a` spell the string slice `s`.
pub fn chars_eq_str(a: &[char], s: &str) -> (r: bool)
    ensures
        r == (a@ == s@),
{
    let b = str_chars(s);
    chars_eq(a, b.as_slice())
}

/// Whether two character sequences are equal.
pub fn chars_eq(a: &[char], b: &[char]) -> (r: bool)
    ensures
        r == (a@ == b@),
{
    if a.len() != b.len() {
        return false;
    }
    let mut i: usize = 0;
    while i < a.len()
        invariant
            a@.len() == b@.len(),
            i <= a@.len(),
            forall|k: int| 0 <= k < i ==> a@[k] == b@[k],
        decreases a@.len() - i,
    {
        if a[i] != b[i] {
            return false;
        }
        i = i + 1;
    }
    assert(a@ =~= b@);
    true
}

/// The number of UTF-8 bytes that encode `c`.
pub open spec fn char_width(c: char) -> nat {
    let v = c as u32;
    if v <= 0x7F {
        1
    } else if v <= 0x7FF {
        2
    } else if v <= 0xFFFF {
        3
    } else {
        4
    }
}

/// The number of UTF-8 bytes that encode the character sequence.
pub open spec fn text_len(s: Seq<char>) -> nat
    decreases s.len(),
{
    if s.len() == 0 {
        0
    } else {
        text_len(s.drop_last()) + char_width(s.last())
    }
}

/// The byte offset at which the character at index `i` starts.
pub open spec fn byte_offset(s: Seq<char>, i: int) -> nat {
    text_len(s.take(i))
}

pub fn char_width_exec(c: char) -> (w: usize)
    ensures
        w == char_width(c),
        1 <= w <= 4,
{
    let v = c as u32;
    if v <= 0x7F {
        1
    } else if v <= 0x7FF {
        2
    } else if v <= 0xFFFF {
        3
    } else {
        4
    }
}

pub proof fn lemma_char_width_encode(c: char)
    ensures
        char_width(c) == encode_scalar(c as u32).len(),
{
    char_is_scalar(c);
}

pub proof fn lemma_encode_push(s: Seq<char>, c: char)
    ensures
        encode_utf8(s.push(c)) == encode_utf8(s) + encode_scalar(c as u32),
    decreases s.len(),
{
    if s.len() == 0 {
        assert(s.push(c).drop_first() =~= Seq::<char>::empty());
        assert(encode_utf8(Seq::<char>::empty()) =~= Seq::<u8>::empty());
        assert(encode_utf8(s) =~= Seq::<u8>::empty());
        assert(encode_utf8(s.push(c)) =~= encode_scalar(c as u32) + encode_utf8(
            Seq::<char>::empty(),
        ));
        assert(encode_utf8(s.push(c)) =~= encode_utf8(s) + encode_scalar(c as u32));
    } else {
        lemma_encode_push(s.drop_first(), c);
        assert(s.push(c).drop_first() =~= s.drop_first().push(c));
        assert(s.push(c)[0] == s[0]);
        assert(encode_utf8(s.push(c)) =~= encode_utf8(s) + encode_scalar(c as u32));
    }
}

pub proof fn lemma_text_len_encode(s: Seq<char>)
    ensures
        text_len(s) == encode_utf8(s).len(),
    decreases s.len(),
{
    if s.len() > 0 {
        lemma_text_len_encode(s.drop_last());
        lemma_encode_push(s.drop_last(), s.last());
        assert(s.drop_last().push(s.last()) =~= s);
        lemma_char_width_encode(s.last());
    }
}

pub proof fn lemma_text_len_monotone(s: Seq<char>, i: int, j: int)
    requires
        0 <= i <= j <= s.len(),
    ensures
        text_len(s.take(i)) + j - i <= text_len(s.take(j)),
        text_len(s.take(j)) <= text_len(s),
    decreases s.len(), j,
{
    if j < s.len() {
        lemma_text_len_monotone(s.take(s.len() - 1), i, j);
        assert(s.take(s.len() - 1).take(i) =~= s.take(i));
        assert(s.take(s.len() - 1).take(j) =~= s.take(j));
        assert(s.take(s.len() - 1) =~= s.drop_last());
    } else if i < j {
        lemma_text_len_monotone(s, i, j - 1);
        assert(s.take(j).drop_last() =~= s.take(j - 1));
        assert(s.take(j) =~= s);
    } else {
        assert(s.take(j) =~= s);
    }
}

pub proof fn lemma_byte_offset_order(s: Seq<char>)
    ensures
        forall|i: int, j: int|
            0 <= i < j <= s.len() ==> #[trigger] byte_offset(s, i) < #[trigger] byte_offset(s, j),
        forall|j: int| 0 <= j <= s.len() ==> #[trigger] byte_offset(s, j) <= text_len(s),
        byte_offset(s, 0) == 0,
        byte_offset(s, s.len() as int) == text_len(s),
{
    assert forall|i: int, j: int| 0 <= i < j <= s.len() implies #[trigger] byte_offset(s, i)
        < #[trigger] byte_offset(s, j) by {
        lemma_text_len_monotone(s, i, j);
    }
    assert forall|j: int| 0 <= j <= s.len() implies #[trigger] byte_offset(s, j) <= text_len(s) by {
        lemma_text_len_monotone(s, j, j);
    }
    assert(s.take(0) =~= Seq::<char>::empty());
    assert(s.take(s.len() as int) =~= s);
}

/// `i` is the number of whole characters whose bytes end at or before byte
/// `m`.
pub open spec fn is_floor_index(s: Seq<char>, m: int, i: int) -> bool {
    &&& 0 <= i <= s.len()
    &&& byte_offset(s, i) <= m
    &&& i < s.len() ==> byte_offset(s, i + 1) > m
}

proof fn lemma_text_len_front(s: Seq<char>)
    requires
        s.len() > 0,
    ensures
        text_len(s) == char_width(s[0]) + text_len(s.drop_first()),
    decreases s.len(),
{
    if s.len() > 1 {
        lemma_text_len_front(s.drop_last());
        assert(s.drop_last().drop_first() =~= s.drop_first().drop_last());
    } else {
        assert(s.drop_last() =~= Seq::<char>::empty());
        assert(s.drop_first() =~= Seq::<char>::empty());
    }
}

proof fn lemma_scalar_width(c: char)
    ensures
        encode_scalar(c as u32).len() == char_width(c),
{
    char_is_scalar(c);
}

proof fn lemma_encode_len(s: Seq<char>)
    ensures
        encode_utf8(s).len() == text_len(s),
    decreases s.len(),
{
    if s.len() > 0 {
        lemma_encode_len(s.drop_first());
        lemma_text_len_front(s);
        lemma_scalar_width(s[0]);
    }
}

/// A byte index is a character boundary of the UTF-8 encoding of `s`
/// exactly when it is the byte offset of some character index.
pub proof fn lemma_char_boundary_is_offset(s: Seq<char>, b: int)
    ensures
        is_char_boundary(encode_utf8(s), b) <==> exists|i: int| 0 <= i <= s.len() && #[trigger] byte_offset(s, i) == b,
    decreases s.len(),
{
    let e = encode_utf8(s);
    encode_utf8_valid_utf8(s);
    lemma_encode_len(s);
    assert(byte_offset(s, 0) == 0) by {
        assert(s.take(0) =~= Seq::<char>::empty());
    }
    if b == 0 {
    } else if b < 0 || e.len() < b {
        if exists|i: int| 0 <= i <= s.len() && #[trigger] byte_offset(s, i) == b {
            let i = choose|i: int| 0 <= i <= s.len() && #[trigger] byte_offset(s, i) == b;
            lemma_text_len_monotone(s, i, s.len() as int);
            assert(s.take(s.len() as int) =~= s);
        }
    } else {
        let rest = s.drop_first();
        let w = char_width(s[0]);
        encode_utf8_first_scalar(s);
        lemma_scalar_width(s[0]);
        assert(e == encode_scalar(s[0] as u32) + encode_utf8(rest));
        assert(pop_first_scalar(e) =~= encode_utf8(rest));
        lemma_char_boundary_is_offset(rest, b - w);
        assert forall|j: int| 0 <= j <= rest.len() implies #[trigger] byte_offset(s, j + 1) == w + byte_offset(rest, j) by {
            let t = s.take(j + 1);
            lemma_text_len_front(t);
            assert(t.drop_first() =~= rest.take(j));
        }
        if is_char_boundary(e, b) {
            let j = choose|j: int| 0 <= j <= rest.len() && #[trigger] byte_offset(rest, j) == b - w;
            assert(byte_offset(s, j + 1) == b);
        }
        if exists|i: int| 0 <= i <= s.len() && #[trigger] byte_offset(s, i) == b {
            let i = choose|i: int| 0 <= i <= s.len() && #[trigger] byte_offset(s, i) == b;
            assert(i > 0);
            assert(byte_offset(s, (i - 1) + 1) == w + byte_offset(rest, i - 1));
            assert(byte_offset(rest, i - 1) == b - w);
        }
    }
}

/// The byte offset of a floor index is the greatest character boundary of
/// the encoding at or below `m`.
pub proof fn lemma_floor_is_greatest_boundary(s: Seq<char>, m: int, i: int)
    requires
        is_floor_index(s, m, i),
        m <= text_len(s),
    ensures
        is_char_boundary(encode_utf8(s), byte_offset(s, i) as int),
        byte_offset(s, i) <= m,
        forall|j: int| byte_offset(s, i) < j <= m ==> !is_char_boundary(encode_utf8(s), j),
{
    lemma_byte_offset_order(s);
    lemma_char_boundary_is_offset(s, byte_offset(s, i) as int);
    assert forall|j: int| byte_offset(s, i) < j <= m implies !is_char_boundary(encode_utf8(s), j) by {
        lemma_char_boundary_is_offset(s, j);
        if is_char_boundary(encode_utf8(s), j) {
            let k = choose|k: int| 0 <= k <= s.len() && #[trigger] byte_offset(s, k) == j;
            if k <= i {
                if k < i {
                    assert(byte_offset(s, k) < byte_offset(s, i));
                }
            } else {
                if i + 1 < k {
                    assert(byte_offset(s, i + 1) < byte_offset(s, k));
                }
            }
        }
    }
}

/// The byte offset of a ceiling index is the least character boundary of
/// the encoding at or above `m`.
pub proof fn lemma_ceil_is_least_boundary(s: Seq<char>, m: int, i: int)
    requires
        is_ceil_index(s, m, i),
        0 <= m <= text_len(s),
    ensures
        is_char_boundary(encode_utf8(s), byte_offset(s, i) as int),
        m <= byte_offset(s, i) <= text_len(s),
        forall|j: int| m <= j < byte_offset(s, i) ==> !is_char_boundary(encode_utf8(s), j),
{
    lemma_byte_offset_order(s);
    lemma_char_boundary_is_offset(s, byte_offset(s, i) as int);
    assert forall|j: int| m <= j < byte_offset(s, i) implies !is_char_boundary(encode_utf8(s), j) by {
        lemma_char_boundary_is_offset(s, j);
        if is_char_boundary(encode_utf8(s), j) {
            let k = choose|k: int| 0 <= k <= s.len() && #[trigger] byte_offset(s, k) == j;
            if k >= i {
                if k > i {
                    assert(byte_offset(s, i) < byte_offset(s, k));
                }
            } else {
                if k < i - 1 {
                    assert(byte_offset(s, k) < byte_offset(s, i - 1));
                }
            }
        }
    }
}

/// `i` is the first character index whose byte offset is at or after `m`.
pub open spec fn is_ceil_index(s: Seq<char>, m: int, i: int) -> bool {
    &&& 0 <= i <= s.len()
    &&& (byte_offset(s, i) >= m || i == s.len())
    &&& i > 0 ==> byte_offset(s, i - 1) < m
}

/// Character sequence of a text with the byte offset of every character
/// boundary.
pub struct CharOffsets {
    pub chars: Vec<char>,
    pub starts: Vec<usize>,
}

impl CharOffsets {
    pub open spec fn wf_for(&self, s: Seq<char>) -> bool {
        &&& self.chars@ == s
        &&& self.starts@.len() == s.len() + 1
        &&& forall|i: int| 0 <= i <= s.len() ==> self.starts@[i] == byte_offset(s, i)
        &&& text_len(s) <= usize::MAX
    }

    pub fn new(text: &str) -> (t: CharOffsets)
        ensures
            t.wf_for(text@),
    {
        let chars = str_chars(text);
        let total = text.as_bytes().len();
        proof {
            lemma_text_len_encode(text@);
        }
        assert(total == text_len(text@));
        let mut starts: Vec<usize> = Vec::new();
        let mut acc: usize = 0;
        let mut i: usize = 0;
        assert(text@.take(0) =~= Seq::<char>::empty());
        while i < chars.len()
            invariant
                chars@ == text@,
                i <= chars@.len(),
                starts@.len() == i,
                total == text_len(text@),
                acc == byte_offset(text@, i as int),
                forall|k: int| 0 <= k < i ==> starts@[k] == byte_offset(text@, k),
            decreases chars@.len() - i,
        {
            starts.push(acc);
            proof {
                lemma_text_len_monotone(text@, i as int, i as int + 1);
                assert(text@.take(i as int + 1).drop_last() =~= text@.take(i as int));
                assert(text@.take(i as int + 1).last() == text@[i as int]);
            }
            let w = char_width_exec(chars[i]);
            acc = acc + w;
            i = i + 1;
        }
        starts.push(acc);
        proof {
            assert(text@.take(text@.len() as int) =~= text@);
        }
        CharOffsets { chars, starts }
    }

    pub fn len(&self) -> (n: usize)
        requires
            self.starts@.len() == self.chars@.len() + 1,
        ensures
            n == self.chars@.len(),
    {
        self.chars.len()
    }

    /// The largest character index whose byte offset is at most `m`.
    pub fn floor_index(&self, Ghost(s): Ghost<Seq<char>>, m: usize) -> (i: usize)
        requires
            self.wf_for(s),
        ensures
            is_floor_index(s, m as int, i as int),
    {
        proof {
            lemma_byte_offset_order(s);
        }
        let mut i: usize = 0;
        while i < self.chars.len() && self.starts[i + 1] <= m
            invariant
                self.wf_for(s),
                i <= s.len(),
                byte_offset(s, i as int) <= m,
            decreases s.len() - i,
        {
            i = i + 1;
        }
        i
    }

    /// The smallest character index whose byte offset is at least `m`, or
    /// the number of characters.
    pub fn ceil_index(&self, Ghost(s): Ghost<Seq<char>>, m: usize) -> (i: usize)
        requires
            self.wf_for(s),
        ensures
            is_ceil_index(s, m as int, i as int),
    {
        proof {
            lemma_byte_offset_order(s);
        }
        let mut i: usize = 0;
        while i < self.chars.len() && self.starts[i] < m
            invariant
                self.wf_for(s),
                i <= s.len(),
                i > 0 ==> byte_offset(s, i - 1) < m,
            decreases s.len() - i,
        {
            i = i + 1;
        }
        i
    }

    /// The character index that starts at byte `b`, if `b` is a character
    /// boundary.
    pub fn boundary_index(&self, Ghost(s): Ghost<Seq<char>>, b: usize) -> (r: Option<usize>)
        requires
            self.wf_for(s),
        ensures
            r matches Some(i) ==> i <= s.len() && byte_offset(s, i as int) == b,
            r is None ==> forall|i: int| 0 <= i <= s.len() ==> byte_offset(s, i) != b,
    {
        proof {
            lemma_byte_offset_order(s);
        }
        let i = self.floor_index(Ghost(s), b);
        if self.starts[i] == b {
            Some(i)
        } else {
            proof {
                assert forall|k: int| 0 <= k <= s.len() implies byte_offset(s, k) != b by {
                    if k <= i {
                    } else {
                        assert(byte_offset(s, i + 1) <= byte_offset(s, k) || k == i + 1);
                    }
                }
            }
            None
        }
    }
}

} // verus!
