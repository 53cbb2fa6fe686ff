//! Text as sequences of characters: white space, trimming, and byte-range slices of
//! UTF-8 text.
use vstd::prelude::*;
use vstd::string::StringSliceAdditionalSpecFns;
use vstd::utf8::{decode_utf8, encode_utf8, is_char_boundary};

verus! {

broadcast use vstd::utf8::group_utf8_lib;

/// The characters with the Unicode `White_Space` property.
pub open spec fn is_white_space(c: char) -> bool {
    let v = c as u32;
    ||| 0x09 <= v <= 0x0d
    ||| v == 0x20
    ||| v == 0x85
    ||| v == 0xa0
    ||| v == 0x1680
    ||| 0x2000 <= v <= 0x200a
    ||| v == 0x2028
    ||| v == 0x2029
    ||| v == 0x202f
    ||| v == 0x205f
    ||| v == 0x3000
}

/// Among the ASCII characters, white space is exactly tab, line feed, vertical tab,
/// form feed, carriage return and space: no printable ASCII character (`!` to
/// `~`, such as `}` or `;`) and no other control character is white space.
pub proof fn law_ascii_white_space(c: char)
    ensures
        (c as u32) < 0x80 ==> (is_white_space(c) <==> (0x09 <= (c as u32) <= 0x0d || c == ' ')),
        0x21 <= (c as u32) <= 0x7e ==> !is_white_space(c),
{
}

/// Outside ASCII, the white space characters lie among U+0085, U+00A0 and the
/// range U+1680 to U+3000: no letter of the Latin-1 supplement or of any script
/// after U+3000 is white space.
pub proof fn law_non_ascii_white_space(c: char)
    ensures
        is_white_space(c) && (c as u32) >= 0x80 ==> (c as u32 == 0x85 || c as u32 == 0xa0 || 0x1680
            <= (c as u32) <= 0x3000),
{
}

/// Trimming the end removes exactly the trailing white space: what it keeps is a
/// prefix of the text that is empty or ends in a character that is not white
/// space, and every character it drops is white space.
pub proof fn law_trim_end_drops_only_trailing_white_space(s: Seq<char>)
    ensures
        trim_end(s).len() <= s.len(),
        trim_end(s) == s.subrange(0, trim_end(s).len() as int),
        trim_end(s).len() > 0 ==> !is_white_space(trim_end(s).last()),
        forall|i: int| trim_end(s).len() <= i < s.len() ==> is_white_space(#[trigger] s[i]),
    decreases s.len(),
{
    if s.len() > 0 && is_white_space(s.last()) {
        law_trim_end_drops_only_trailing_white_space(s.drop_last());
        assert forall|i: int| trim_end(s).len() <= i < s.len() implies is_white_space(#[trigger] s[i]) by {
            if i < s.len() - 1 {
                assert(s.drop_last()[i] == s[i]);
            }
        }
        assert(s.drop_last().subrange(0, trim_end(s).len() as int) =~= s.subrange(0, trim_end(s).len() as int));
    } else {
        assert(s.subrange(0, s.len() as int) =~= s);
    }
}

/// Trimming the end of a text followed by something that is not all white space
/// trims only that something.
pub proof fn lemma_trim_end_concat(a: Seq<char>, b: Seq<char>)
    requires
        exists|i: int| 0 <= i < b.len() && !is_white_space(#[trigger] b[i]),
    ensures
        trim_end(a + b) == a + trim_end(b),
    decreases b.len(),
{
    if is_white_space(b.last()) {
        let i = choose|i: int| 0 <= i < b.len() && !is_white_space(#[trigger] b[i]);
        assert(i < b.len() - 1);
        assert(b.drop_last()[i] == b[i]);
        lemma_trim_end_concat(a, b.drop_last());
        assert((a + b).drop_last() =~= a + b.drop_last());
        assert((a + b).last() == b.last());
    } else {
        assert((a + b).last() == b.last());
    }
}

/// Whether `c` has the Unicode `White_Space` property, as `char::is_whitespace`
/// decides.
pub fn char_is_whitespace(c: char) -> (r: bool)
    ensures
        r == is_white_space(c),
{
    let v = c as u32;
    (0x09 <= v && v <= 0x0d) || v == 0x20 || v == 0x85 || v == 0xa0 || v == 0x1680 || (0x2000
        <= v && v <= 0x200a) || v == 0x2028 || v == 0x2029 || v == 0x202f || v == 0x205f || v
        == 0x3000
}

/// `String::push`: appends one character.
#[verifier::external_body]
pub(crate) fn push_char(s: &mut String, c: char)
    ensures
        final(s)@ == old(s)@.push(c),
{
    s.push(c)
}

/// `s` without its trailing white space.
pub open spec fn trim_end(s: Seq<char>) -> Seq<char>
    decreases s.len(),
{
    if s.len() > 0 && is_white_space(s.last()) {
        trim_end(s.drop_last())
    } else {
        s
    }
}

/// `s` without its leading white space.
pub open spec fn trim_start(s: Seq<char>) -> Seq<char>
    decreases s.len(),
{
    if s.len() > 0 && is_white_space(s[0]) {
        trim_start(s.drop_first())
    } else {
        s
    }
}

/// `s` without its leading and trailing white space.
pub open spec fn trim(s: Seq<char>) -> Seq<char> {
    trim_start(trim_end(s))
}

/// The characters of the bytes `start..end` of the UTF-8 encoding of `text`, or
/// `None` where that byte range is out of bounds, reversed, or cuts a character.
pub open spec fn byte_slice(text: Seq<char>, start: int, end: int) -> Option<Seq<char>> {
    let bytes = encode_utf8(text);
    if 0 <= start <= end <= bytes.len() && is_char_boundary(bytes, start) && is_char_boundary(
        bytes,
        end,
    ) {
        Some(decode_utf8(bytes.subrange(start, end)))
    } else {
        None
    }
}

/// The characters of a string slice.
pub fn chars_of(s: &str) -> (r: Vec<char>)
    ensures
        r@ == s@,
{
    let mut v: Vec<char> = Vec::new();
    for c in it: s.chars()
        invariant
            v@ == it.seq().take(it.index() as int),
    {
        v.push(c);
    }
    v
}

/// A string of the first `n` characters of `cs`.
pub fn string_of(cs: &Vec<char>, n: usize) -> (r: String)
    requires
        n <= cs@.len(),
    ensures
        r@ == cs@.take(n as int),
{
    let mut s = String::new();
    let mut i: usize = 0;
    while i < n
        invariant
            i <= n <= cs@.len(),
            s@ == cs@.take(i as int),
        decreases n - i,
    {
        push_char(&mut s, cs[i]);
        assert(cs@.take(i + 1) =~= cs@.take(i as int).push(cs@[i as int]));
        i = i + 1;
    }
    s
}

/// The length of `cs` without its trailing white space.
pub fn trim_end_len(cs: &Vec<char>) -> (r: usize)
    ensures
        r <= cs@.len(),
        cs@.take(r as int) == trim_end(cs@),
{
    let mut i = cs.len();
    assert(cs@.take(i as int) =~= cs@);
    while i > 0 && char_is_whitespace(cs[i - 1])
        invariant
            i <= cs@.len(),
            trim_end(cs@) == trim_end(cs@.take(i as int)),
        decreases i,
    {
        assert(cs@.take(i as int).drop_last() =~= cs@.take(i - 1));
        i = i - 1;
    }
    i
}

/// The number of leading white space characters among the first `n` of `cs`.
pub fn trim_start_len(cs: &Vec<char>, n: usize) -> (r: usize)
    requires
        n <= cs@.len(),
    ensures
        r <= n,
        cs@.subrange(r as int, n as int) == trim_start(cs@.take(n as int)),
{
    let mut i: usize = 0;
    assert(cs@.subrange(0, n as int) =~= cs@.take(n as int));
    while i < n && char_is_whitespace(cs[i])
        invariant
            i <= n <= cs@.len(),
            trim_start(cs@.take(n as int)) == trim_start(cs@.subrange(i as int, n as int)),
        decreases n - i,
    {
        assert(cs@.subrange(i as int, n as int).drop_first() =~= cs@.subrange(i + 1, n as int));
        i = i + 1;
    }
    i
}

/// The bytes `start..end` of a string slice (`str::get` with a byte range).
pub fn byte_range(s: &str, start: usize, end: usize) -> (r: Option<&str>)
    ensures
        match byte_slice(s@, start as int, end as int) {
            Some(t) => r matches Some(p) && p@ == t,
            None => r is None,
        },
{
    let ghost bytes = encode_utf8(s@);
    let len = s.as_bytes().len();
    if start > end || end > len {
        return None;
    }
    if !s.is_char_boundary(start) || !s.is_char_boundary(end) {
        return None;
    }
    let (head, _) = s.split_at(end);
    proof {
        let prefix = bytes.subrange(0, end as int);
        assert(head.spec_bytes() == prefix);
        if start < end {
            assert(prefix[start as int] == bytes[start as int]);
            vstd::utf8::is_char_boundary_iff_not_is_continuation_byte(bytes, start as int);
            vstd::utf8::is_char_boundary_iff_not_is_continuation_byte(prefix, start as int);
        } else {
            vstd::utf8::is_char_boundary_start_end_of_seq(prefix);
        }
    }
    let (_, piece) = head.split_at(start);
    proof {
        assert(piece.spec_bytes() =~= bytes.subrange(start as int, end as int));
        assert(decode_utf8(encode_utf8(piece@)) == piece@);
    }
    Some(piece)
}

} // verus!
