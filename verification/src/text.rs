//! Character-level helpers: conversions between strings and character
//! vectors, whitespace, trimming and searching.

use vstd::prelude::*;
use vstd::string::*;
use vstd::utf8::*;

verus! {

/// `String::push` of std: the string then holds what it held, followed by
/// the character.
pub assume_specification[ String::push ](s: &mut String, c: char)
    ensures
        final(s)@ == old(s)@.push(c),
;

/// The characters of a string slice, in order.
pub fn chars_of(s: &str) -> (chars: Vec<char>)
    ensures
        chars@ == s@,
{
    let mut chars: Vec<char> = Vec::new();
    for c in it: s.chars()
        invariant
            chars@ == it.seq().take(it.index() as int),
            it.seq() == s@,
    {
        chars.push(c);
    }
    chars
}

/// A string made of the given characters, in order.
pub fn string_of(chars: &[char]) -> (s: String)
    ensures
        s@ == chars@,
{
    let mut s = String::new();
    let mut i: usize = 0;
    while i < chars.len()
        invariant
            i <= chars.len(),
            s@ == chars@.take(i as int),
        decreases chars.len() - i,
    {
        s.push(chars[i]);
        i += 1;
    }
    s
}

/// Whether two character slices hold the same characters.
pub fn same_chars(a: &[char], b: &[char]) -> (same: bool)
    ensures
        same == (a@ == b@),
{
    if a.len() != b.len() {
        return false;
    }
    let mut i: usize = 0;
    while i < a.len()
        invariant
            i <= a.len(),
            a.len() == b.len(),
            a@.take(i as int) == b@.take(i as int),
        decreases a.len() - i,
    {
        if a[i] != b[i] {
            return false;
        }
        assert(a@.take(i + 1) == a@.take(i as int).push(a@[i as int]));
        assert(b@.take(i + 1) == b@.take(i as int).push(b@[i as int]));
        i += 1;
    }
    assert(a@ == a@.take(a.len() as int));
    assert(b@ == b@.take(b.len() as int));
    true
}

/// Whether a character slice spells out the given string.
pub fn spells(text: &[char], word: &str) -> (same: bool)
    ensures
        same == (text@ == word@),
{
    let letters = chars_of(word);
    same_chars(text, letters.as_slice())
}

/// How many items stand before the first occurrence of `x`; the length of
/// the sequence where it holds none.
pub open spec fn first_index<T>(s: Seq<T>, x: T) -> nat
    decreases s.len(),
{
    if s.len() == 0 || s[0] == x {
        0
    } else {
        1 + first_index(s.drop_first(), x)
    }
}

/// Where the first `n` items are not `x` and the next one is `x` or there is
/// no next one, `first_index` is `n`.
pub proof fn lemma_first_index<T>(s: Seq<T>, x: T, n: int)
    requires
        0 <= n <= s.len(),
        forall|i: int| 0 <= i < n ==> #[trigger] s[i] != x,
        n < s.len() ==> s[n] == x,
    ensures
        first_index(s, x) == n,
    decreases n,
{
    if n > 0 {
        let rest = s.drop_first();
        assert forall|i: int| 0 <= i < n - 1 implies #[trigger] rest[i] != x by {
            assert(rest[i] == s[i + 1]);
        }
        lemma_first_index(rest, x, n - 1);
    }
}

/// Nothing before `first_index` is `x`, and what stands there is.
pub proof fn lemma_first_index_shape<T>(s: Seq<T>, x: T)
    ensures
        first_index(s, x) <= s.len(),
        forall|i: int| 0 <= i < first_index(s, x) ==> #[trigger] s[i] != x,
        first_index(s, x) < s.len() ==> s[first_index(s, x) as int] == x,
    decreases s.len(),
{
    if s.len() == 0 || s[0] == x {
    } else {
        let rest = s.drop_first();
        lemma_first_index_shape(rest, x);
        assert forall|i: int| 0 <= i < first_index(s, x) implies #[trigger] s[i] != x by {
            if i > 0 {
                assert(s[i] == rest[i - 1]);
            }
        }
    }
}

/// The characters that Unicode lists as `White_Space`.
pub open spec fn is_whitespace(c: char) -> bool {
    let u = c as u32;
    ||| 0x09 <= u <= 0x0D
    ||| u == 0x20
    ||| u == 0x85
    ||| u == 0xA0
    ||| u == 0x1680
    ||| 0x2000 <= u <= 0x200A
    ||| u == 0x2028
    ||| u == 0x2029
    ||| u == 0x202F
    ||| u == 0x205F
    ||| u == 0x3000
}

/// Tests whether Unicode lists a character as `White_Space`.
pub fn whitespace(c: char) -> (b: bool)
    ensures
        b == is_whitespace(c),
{
    let u: u32 = c as u32;
    (0x09 <= u && u <= 0x0D) || u == 0x20 || u == 0x85 || u == 0xA0 || u == 0x1680 || (0x2000 <= u
        && u <= 0x200A) || u == 0x2028 || u == 0x2029 || u == 0x202F || u == 0x205F || u == 0x3000
}

/// The text without its leading whitespace.
pub open spec fn trim_start(s: Seq<char>) -> Seq<char>
    decreases s.len(),
{
    if s.len() > 0 && is_whitespace(s[0]) {
        trim_start(s.drop_first())
    } else {
        s
    }
}

/// The text without its trailing whitespace.
pub open spec fn trim_end(s: Seq<char>) -> Seq<char>
    decreases s.len(),
{
    if s.len() > 0 && is_whitespace(s.last()) {
        trim_end(s.drop_last())
    } else {
        s
    }
}

/// The text without the whitespace at either end.
pub open spec fn trim(s: Seq<char>) -> Seq<char> {
    trim_end(trim_start(s))
}

/// Text that neither starts nor ends with whitespace.
pub open spec fn is_trimmed(s: Seq<char>) -> bool {
    s.len() > 0 ==> !is_whitespace(s[0]) && !is_whitespace(s.last())
}

/// Dropping a run of leading whitespace does not change what `trim_start` gives.
pub proof fn lemma_trim_start_skip(s: Seq<char>, n: int)
    requires
        0 <= n <= s.len(),
        forall|i: int| 0 <= i < n ==> is_whitespace(#[trigger] s[i]),
    ensures
        trim_start(s) == trim_start(s.skip(n)),
    decreases n,
{
    if n == 0 {
        assert(s.skip(0) == s);
    } else {
        lemma_trim_start_skip(s.drop_first(), n - 1);
        assert(s.drop_first().skip(n - 1) == s.skip(n));
    }
}

/// Dropping a run of trailing whitespace does not change what `trim_end` gives.
pub proof fn lemma_trim_end_take(s: Seq<char>, n: int)
    requires
        0 <= n <= s.len(),
        forall|i: int| n <= i < s.len() ==> is_whitespace(#[trigger] s[i]),
    ensures
        trim_end(s) == trim_end(s.take(n)),
    decreases s.len() - n,
{
    if n == s.len() {
        assert(s.take(n) == s);
    } else {
        lemma_trim_end_take(s.drop_last(), n);
        assert(s.drop_last().take(n) == s.take(n));
    }
}

/// `trim_start` gives a suffix of the text that does not start with whitespace.
pub proof fn lemma_trim_start_shape(s: Seq<char>)
    ensures
        trim_start(s).len() <= s.len(),
        trim_start(s) == s.skip(s.len() - trim_start(s).len()),
        trim_start(s).len() > 0 ==> !is_whitespace(trim_start(s)[0]),
        forall|i: int| 0 <= i < s.len() - trim_start(s).len() ==> is_whitespace(#[trigger] s[i]),
    decreases s.len(),
{
    if s.len() > 0 && is_whitespace(s[0]) {
        let t = s.drop_first();
        lemma_trim_start_shape(t);
        assert(t.skip(t.len() - trim_start(t).len()) == s.skip(s.len() - trim_start(s).len()));
        assert forall|i: int| 0 <= i < s.len() - trim_start(s).len() implies is_whitespace(
            #[trigger] s[i],
        ) by {
            if i > 0 {
                assert(s[i] == t[i - 1]);
            }
        }
    } else {
        assert(s.skip(0) == s);
    }
}

/// `trim_end` gives a prefix of the text that does not end with whitespace.
pub proof fn lemma_trim_end_shape(s: Seq<char>)
    ensures
        trim_end(s).len() <= s.len(),
        trim_end(s) == s.take(trim_end(s).len() as int),
        trim_end(s).len() > 0 ==> !is_whitespace(trim_end(s).last()),
        forall|i: int| trim_end(s).len() <= i < s.len() ==> is_whitespace(#[trigger] s[i]),
    decreases s.len(),
{
    if s.len() > 0 && is_whitespace(s.last()) {
        let t = s.drop_last();
        lemma_trim_end_shape(t);
        assert(t.take(trim_end(t).len() as int) == s.take(trim_end(s).len() as int));
        assert forall|i: int| trim_end(s).len() <= i < s.len() implies is_whitespace(
            #[trigger] s[i],
        ) by {
            if i < t.len() {
                assert(s[i] == t[i]);
            }
        }
    } else {
        assert(s.take(s.len() as int) == s);
    }
}

/// Where the trimmed text lies: a range of the text with nothing but
/// whitespace before and after it, and no whitespace at its own ends.
pub open spec fn is_trim_range(s: Seq<char>, start: int, end: int) -> bool {
    &&& 0 <= start <= end <= s.len()
    &&& forall|i: int| 0 <= i < start ==> is_whitespace(#[trigger] s[i])
    &&& forall|i: int| end <= i < s.len() ==> is_whitespace(#[trigger] s[i])
    &&& start < end ==> !is_whitespace(s[start]) && !is_whitespace(s[end - 1])
}

/// The trimmed text is the range of the text that `is_trim_range` describes.
pub proof fn lemma_trim_is_range(s: Seq<char>, start: int, end: int)
    requires
        is_trim_range(s, start, end),
    ensures
        trim(s) == s.subrange(start, end),
{
    if start < end {
        let t = s.skip(start);
        lemma_trim_start_skip(s, start);
        assert(t[0] == s[start]);
        assert forall|i: int| end - start <= i < t.len() implies is_whitespace(#[trigger] t[i]) by {
            assert(t[i] == s[i + start]);
        }
        lemma_trim_end_take(t, end - start);
        let u = t.take(end - start);
        assert(u == s.subrange(start, end));
        assert(u.last() == s[end - 1]);
    } else {
        lemma_trim_start_skip(s, s.len() as int);
        assert(s.skip(s.len() as int).len() == 0);
        assert(s.subrange(start, end).len() == 0);
    }
}

/// The range of the text that trimming keeps.
pub proof fn lemma_trim_range(s: Seq<char>) -> (range: (int, int))
    ensures
        is_trim_range(s, range.0, range.1),
        trim(s) == s.subrange(range.0, range.1),
{
    lemma_trim_start_shape(s);
    let t = trim_start(s);
    let start = s.len() - t.len();
    lemma_trim_end_shape(t);
    let end = start + trim_end(t).len();
    assert forall|i: int| end <= i < s.len() implies is_whitespace(#[trigger] s[i]) by {
        assert(s[i] == t[i - start]);
    }
    if start < end {
        assert(t[0] == s[start]);
        assert(trim_end(t).last() == t[end - start - 1]);
        assert(t[end - start - 1] == s[end - 1]);
    }
    lemma_trim_is_range(s, start, end);
    (start, end)
}

/// Text that neither starts nor ends with whitespace is left as it is.
pub proof fn lemma_trim_of_trimmed(s: Seq<char>)
    requires
        is_trimmed(s),
    ensures
        trim(s) == s,
{
    lemma_trim_is_range(s, 0, s.len() as int);
    assert(s.subrange(0, s.len() as int) == s);
}

/// The bounds of the trimmed text inside the slice.
pub fn trim_bounds(text: &[char]) -> (bounds: (usize, usize))
    ensures
        bounds.0 <= bounds.1 <= text.len(),
        text@.subrange(bounds.0 as int, bounds.1 as int) == trim(text@),
        bounds.0 == text@.len() - trim_start(text@).len(),
{
    let mut start: usize = 0;
    while start < text.len() && whitespace(text[start])
        invariant
            start <= text.len(),
            forall|i: int| 0 <= i < start ==> is_whitespace(#[trigger] text@[i]),
        decreases text.len() - start,
    {
        start += 1;
    }
    let mut end: usize = text.len();
    while end > start && whitespace(text[end - 1])
        invariant
            start <= end <= text.len(),
            start < text.len() ==> !is_whitespace(text@[start as int]),
            forall|i: int| 0 <= i < start ==> is_whitespace(#[trigger] text@[i]),
            forall|i: int| end <= i < text.len() ==> is_whitespace(#[trigger] text@[i]),
        decreases end,
    {
        end -= 1;
    }
    proof {
        lemma_trim_is_range(text@, start as int, end as int);
        lemma_trim_start_skip(text@, start as int);
    }
    (start, end)
}

/// Appends the characters of a string slice.
pub fn push_str(out: &mut Vec<char>, s: &str)
    ensures
        final(out)@ == old(out)@ + s@,
{
    for c in it: s.chars()
        invariant
            out@ == old(out)@ + it.seq().take(it.index() as int),
            it.seq() == s@,
    {
        out.push(c);
    }
}

/// Appends a copy of the characters.
pub fn push_chars(out: &mut Vec<char>, chars: &[char])
    ensures
        final(out)@ == old(out)@ + chars@,
{
    let mut i: usize = 0;
    while i < chars.len()
        invariant
            i <= chars.len(),
            out@ == old(out)@ + chars@.take(i as int),
        decreases chars.len() - i,
    {
        out.push(chars[i]);
        i += 1;
    }
}

/// Appends a copy of the bytes.
pub fn push_bytes(out: &mut Vec<u8>, bytes: &[u8])
    ensures
        final(out)@ == old(out)@ + bytes@,
{
    let mut i: usize = 0;
    while i < bytes.len()
        invariant
            i <= bytes.len(),
            out@ == old(out)@ + bytes@.take(i as int),
        decreases bytes.len() - i,
    {
        out.push(bytes[i]);
        i += 1;
    }
}

/// Appends the UTF-8 encoding of the characters.
pub fn push_utf8(out: &mut Vec<u8>, chars: &[char])
    ensures
        final(out)@ == old(out)@ + encode_utf8(chars@),
{
    let text = string_of(chars);
    push_bytes(out, text.as_str().as_bytes());
}

/// The UTF-8 encoding of a text in two parts is that of the first part
/// followed by that of the second.
pub proof fn lemma_encode_concat(a: Seq<char>, b: Seq<char>)
    ensures
        encode_utf8(a + b) == encode_utf8(a) + encode_utf8(b),
    decreases a.len(),
{
    if a.len() == 0 {
        assert(a + b == b);
    } else {
        lemma_encode_concat(a.drop_first(), b);
        assert((a + b).drop_first() == a.drop_first() + b);
        assert(encode_utf8(a + b) == encode_scalar(a[0] as u32) + (encode_utf8(a.drop_first())
            + encode_utf8(b)));
    }
}

/// An ASCII byte occurs in the UTF-8 encoding of a character only as the
/// encoding of the ASCII character with that number.
pub proof fn lemma_encode_scalar_ascii(c: char, x: u8)
    requires
        x < 0x80,
        c != x as char,
    ensures
        forall|i: int|
            0 <= i < encode_scalar(c as u32).len() ==> #[trigger] encode_scalar(c as u32)[i] != x,
{
    let s = c as u32;
    char_is_scalar(c);
    if s == x as u32 {
        char_u32_cast(c, x as u32);
    }
    if has_width_1_encoding(s) {
        assert((s & 0x7F) as u8 != x) by (bit_vector)
            requires
                s <= 0x7F,
                s != x as u32,
                x < 0x80,
        ;
    } else {
        let a = ((s >> 6) & 0x1F) as u8;
        let b = ((s >> 12) & 0x0F) as u8;
        let d = ((s >> 18) & 0x7) as u8;
        let e = (s & 0x3F) as u8;
        let f = ((s >> 6) & 0x3F) as u8;
        let g = ((s >> 12) & 0x3F) as u8;
        assert(0xC0u8 | a >= 0x80) by (bit_vector);
        assert(0xE0u8 | b >= 0x80) by (bit_vector);
        assert(0xF0u8 | d >= 0x80) by (bit_vector);
        assert(0x80u8 | e >= 0x80) by (bit_vector);
        assert(0x80u8 | f >= 0x80) by (bit_vector);
        assert(0x80u8 | g >= 0x80) by (bit_vector);
    }
}

/// An ASCII byte that stands for none of the characters of a text does not
/// occur in the UTF-8 encoding of the text.
pub proof fn lemma_encode_without_ascii(text: Seq<char>, x: u8)
    requires
        x < 0x80,
        forall|i: int| 0 <= i < text.len() ==> #[trigger] text[i] != x as char,
    ensures
        forall|i: int| 0 <= i < encode_utf8(text).len() ==> #[trigger] encode_utf8(text)[i] != x,
    decreases text.len(),
{
    if text.len() > 0 {
        let head = encode_scalar(text[0] as u32);
        let rest = text.drop_first();
        lemma_encode_scalar_ascii(text[0], x);
        assert forall|i: int| 0 <= i < rest.len() implies #[trigger] rest[i] != x as char by {
            assert(rest[i] == text[i + 1]);
        }
        lemma_encode_without_ascii(rest, x);
        assert forall|i: int| 0 <= i < encode_utf8(text).len() implies #[trigger] encode_utf8(
            text,
        )[i] != x by {
            if i < head.len() {
                assert(encode_utf8(text)[i] == head[i]);
            } else {
                assert(encode_utf8(text)[i] == encode_utf8(rest)[i - head.len()]);
            }
        }
    }
}

/// Bytes that encode a text are read back as that text.
pub proof fn lemma_decode_encoded(text: Seq<char>)
    ensures
        valid_utf8(encode_utf8(text)),
        decode_utf8(encode_utf8(text)) == text,
{
    encode_utf8_valid_utf8(text);
    encode_utf8_decode_utf8(text);
}

} // verus!
