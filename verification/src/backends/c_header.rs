//! The C header back end: the selected declarations of a source file, each ended
//! with a semicolon, inside an include guard named after a hash of the content.
use vstd::prelude::*;
use vstd::string::StringSliceAdditionalSpecFns;
use vstd::utf8::encode_utf8;

use crate::backends::{content_to_write, WriteError};
use crate::cfg::Settings;
use crate::frontends::SourceRange;
use crate::cgen_version;
use crate::paths::{has_separator, path_with_extension, with_extension};
use crate::text::{
    byte_range, byte_slice, chars_of, is_white_space, lemma_trim_end_concat, push_char, string_of,
    trim, trim_end, trim_end_len, trim_start_len,
};

verus! {

/// What `twox_hash::XxHash3_128::oneshot` computes of a byte sequence: its 128-bit
/// XXH3 hash with the default seed and secret.
pub uninterp spec fn xxh3_128(bytes: Seq<u8>) -> u128;

/// `twox_hash::XxHash3_128::oneshot`: the 128-bit XXH3 hash of `input`.
#[verifier::external_body]
fn xxh3_128_oneshot(input: &[u8]) -> (r: u128)
    ensures
        r == xxh3_128(input@),
{
    twox_hash::XxHash3_128::oneshot(input)
}

/// The settings of the C header output.
#[derive(Debug)]
pub struct Config {
    /// The output extension for the header files
    pub extension: String,
}

impl Default for Config {
    fn default() -> (r: Self)
        ensures
            r.extension@ == "h"@,
    {
        Config { extension: String::from_str("h") }
    }
}

/// The header generated for one source file.
#[derive(Debug)]
pub struct CHeader {
    pub source_path: String,
    pub generated_path: String,
    /// Whether the header carries the line naming the version of cgen.
    pub watermark: bool,
}

/// The upper-case hexadecimal digit of `d`, for `0 <= d < 16`.
pub open spec fn hex_digit(d: int) -> char {
    if d < 10 {
        (48 + d) as char
    } else {
        (55 + d) as char
    }
}

/// The last `width` hexadecimal digits of `n`, upper case, most significant first.
pub open spec fn upper_hex(n: nat, width: nat) -> Seq<char>
    decreases width,
{
    if width == 0 {
        Seq::empty()
    } else {
        upper_hex(n / 16, (width - 1) as nat).push(hex_digit((n % 16) as int))
    }
}

/// The watermark: a first line that names the version of cgen that generated the
/// header, when it is on.
pub open spec fn watermark_line(watermark: bool) -> Seq<char> {
    if watermark {
        "// Generated by cgen "@ + cgen_version() + "\n"@
    } else {
        Seq::empty()
    }
}

/// The text of a header whose include guard is `__CGEN_{guard}_H` and whose body is
/// `content`, after the watermark line when it is on.
pub open spec fn header_text(content: Seq<char>, guard: Seq<char>, watermark: bool) -> Seq<char> {
    watermark_line(watermark) + "// clang-format off\n// NOLINTBEGIN\n\n#pragma once\n\n#ifndef __CGEN_"@ + guard
        + "_H\n#define __CGEN_"@ + guard + "_H\n\n"@ + content + "\n\n#endif /* __CGEN_"@ + guard
        + "_H */\n\n// clang-format on\n// NOLINTEND\n"@
}

/// The header for `content`, with the watermark line when `watermark` holds: its include guard holds the 32 upper-case hexadecimal
/// digits of the XXH3-128 hash of the UTF-8 bytes of `content`.
pub open spec fn header_of(content: Seq<char>, watermark: bool) -> Seq<char> {
    header_text(content, upper_hex(xxh3_128(encode_utf8(content)) as nat, 32), watermark)
}

/// `s` ended with a semicolon unless, but for trailing white space, it already is,
/// then followed by an empty line.
pub open spec fn restored(s: Seq<char>) -> Seq<char> {
    let t = trim_end(s);
    (if t.len() > 0 && t.last() == ';' {
        s
    } else {
        t.push(';')
    }) + seq!['\n', '\n']
}

/// `acc` followed by the comment, if any, and a line break.
pub open spec fn with_comment(acc: Seq<char>, comment: Option<String>) -> Seq<char> {
    match comment {
        Some(c) => acc + c@ + seq!['\n'],
        None => acc,
    }
}

/// The body of the header for the source `text` and the selected `ranges`: for each
/// range in order, its comment and then its bytes of the source, ended by
/// [`restored`]; a range that does not fall on characters of the source adds its
/// comment only.
pub open spec fn assemble(text: Seq<char>, ranges: Seq<SourceRange>) -> Seq<char>
    decreases ranges.len(),
{
    if ranges.len() == 0 {
        Seq::empty()
    } else {
        let r = ranges.last();
        let acc = with_comment(assemble(text, ranges.drop_last()), r.comment);
        match byte_slice(text, r.range.start as int, r.range.end as int) {
            Some(src) => restored(acc + src),
            None => acc,
        }
    }
}

/// Whether `c` is one of `0`-`9` and `A`-`F`.
pub open spec fn is_upper_hex_digit(c: char) -> bool {
    ('0' <= c <= '9') || ('A' <= c <= 'F')
}

/// Every declaration that passes through [`restored`] ends, but for the empty line
/// that follows it, with a semicolon.
pub proof fn law_restored_ends_with_semicolon(s: Seq<char>)
    ensures
        trim_end(restored(s)).len() > 0,
        trim_end(restored(s)).last() == ';',
        restored(s).len() >= 2,
        restored(s).subrange(restored(s).len() - 2, restored(s).len() as int) == seq!['\n', '\n'],
{
    let t = trim_end(s);
    let x = if t.len() > 0 && t.last() == ';' {
        s
    } else {
        t.push(';')
    };
    assert(restored(s) == x + seq!['\n', '\n']);
    assert((x + seq!['\n', '\n']).drop_last() =~= x.push('\n'));
    assert(x.push('\n').drop_last() =~= x);
    let y = restored(s);
    assert(crate::text::is_white_space('\n'));
    assert(y.last() == '\n');
    assert(trim_end(y) == trim_end(y.drop_last()));
    assert(y.drop_last().last() == '\n');
    assert(trim_end(x.push('\n')) == trim_end(x.push('\n').drop_last()));
    assert(trim_end(restored(s)) == trim_end(x));
    if t.len() > 0 && t.last() == ';' {
    } else {
        assert(!crate::text::is_white_space(';'));
        assert(trim_end(x) == x);
    }
    assert(restored(s).subrange(restored(s).len() - 2, restored(s).len() as int) =~= seq!['\n', '\n']);
}

/// A declaration whose text ends in a printable ASCII character other than `;` (a
/// closing brace or parenthesis, a name) gets a semicolon right after that
/// character, then an empty line.
pub proof fn law_semicolon_follows_printable_end(s: Seq<char>)
    requires
        s.len() > 0,
        0x21 <= (s.last() as u32) <= 0x7e,
        s.last() != ';',
    ensures
        restored(s) == s + seq![';', '\n', '\n'],
{
    crate::text::law_ascii_white_space(s.last());
    assert(trim_end(s) == s);
    assert(restored(s) =~= s + seq![';', '\n', '\n']);
}

/// The doc comment of a range comes right before the range's text in the assembled
/// body, whatever ranges precede it: the body so far, the comment, a line break,
/// then the text of the range (when it has any character that is not white space).
/// A range that does not fall on characters of the source adds its comment and the
/// line break only.
pub proof fn law_comment_precedes_its_range(
    text: Seq<char>,
    rs: Seq<SourceRange>,
    r: SourceRange,
    c: String,
)
    requires
        r.comment == Some(c),
    ensures
        byte_slice(text, r.range.start as int, r.range.end as int) is None ==> assemble(
            text,
            rs.push(r),
        ) == assemble(text, rs) + c@ + seq!['\n'],
        byte_slice(text, r.range.start as int, r.range.end as int) matches Some(src) ==> ((exists|i: int|
            0 <= i < src.len() && !is_white_space(#[trigger] src[i])) ==> {
            let before = assemble(text, rs) + c@ + seq!['\n'];
            &&& assemble(text, rs.push(r)).len() >= before.len() + trim_end(src).len()
            &&& assemble(text, rs.push(r)).subrange(0, (before.len() + trim_end(src).len()) as int)
                == before + trim_end(src)
        }),
{
    let all = rs.push(r);
    assert(all.drop_last() =~= rs);
    assert(all.last() == r);
    let before = assemble(text, rs) + c@ + seq!['\n'];
    assert(with_comment(assemble(text, rs), r.comment) == before);
    if let Some(src) = byte_slice(text, r.range.start as int, r.range.end as int) {
        if exists|i: int| 0 <= i < src.len() && !is_white_space(#[trigger] src[i]) {
            lemma_trim_end_concat(before, src);
            let t = before + trim_end(src);
            crate::text::law_trim_end_drops_only_trailing_white_space(before + src);
            let x = if t.len() > 0 && t.last() == ';' {
                before + src
            } else {
                t.push(';')
            };
            assert(assemble(text, all) == restored(before + src));
            assert(restored(before + src) == x + seq!['\n', '\n']);
            assert((x + seq!['\n', '\n']).subrange(0, t.len() as int) =~= t);
        }
    }
}

/// A declaration that was ended once is not ended twice: restoring it again only
/// adds another empty line.
pub proof fn law_restored_is_not_ended_twice(s: Seq<char>)
    ensures
        restored(restored(s)) == restored(s) + seq!['\n', '\n'],
{
    law_restored_ends_with_semicolon(s);
}

/// The include guard is named by exactly `width` upper-case hexadecimal digits.
pub proof fn law_guard_is_hex(n: nat, width: nat)
    ensures
        upper_hex(n, width).len() == width,
        forall|i: int| 0 <= i < width ==> is_upper_hex_digit(#[trigger] upper_hex(n, width)[i]),
    decreases width,
{
    if width > 0 {
        law_guard_is_hex(n / 16, (width - 1) as nat);
        let d = (n % 16) as int;
        assert(is_upper_hex_digit(hex_digit(d)));
        assert forall|i: int| 0 <= i < width implies is_upper_hex_digit(
            #[trigger] upper_hex(n, width)[i],
        ) by {
            if i < width - 1 {
                assert(upper_hex(n, width)[i] == upper_hex(n / 16, (width - 1) as nat)[i]);
            }
        }
    }
}

/// Different hashes name different include guards: the 32 digits determine the hash.
pub proof fn law_guard_determines_hash(n: u128, m: u128)
    requires
        upper_hex(n as nat, 32) == upper_hex(m as nat, 32),
    ensures
        n == m,
{
    assert(pow16(32) == 0x1_0000_0000_0000_0000_0000_0000_0000_0000) by {
        reveal_with_fuel(pow16, 33);
    }
    lemma_upper_hex_determines(n as nat, m as nat, 32);
}

/// `16` to the power `k`.
pub open spec fn pow16(k: nat) -> nat
    decreases k,
{
    if k == 0 {
        1
    } else {
        16 * pow16((k - 1) as nat)
    }
}

proof fn lemma_upper_hex_determines(n: nat, m: nat, width: nat)
    requires
        upper_hex(n, width) == upper_hex(m, width),
        n < pow16(width),
        m < pow16(width),
    ensures
        n == m,
    decreases width,
{
    if width == 0 {
    } else {
        let a = upper_hex(n / 16, (width - 1) as nat);
        let b = upper_hex(m / 16, (width - 1) as nat);
        law_guard_is_hex(n / 16, (width - 1) as nat);
        law_guard_is_hex(m / 16, (width - 1) as nat);
        assert(upper_hex(n, width).last() == hex_digit((n % 16) as int));
        assert(upper_hex(m, width).last() == hex_digit((m % 16) as int));
        assert(upper_hex(n, width).drop_last() =~= a);
        assert(upper_hex(m, width).drop_last() =~= b);
        assert(n % 16 == m % 16);
        assert(n / 16 < pow16((width - 1) as nat)) by (nonlinear_arith)
            requires
                n < 16 * pow16((width - 1) as nat),
        ;
        assert(m / 16 < pow16((width - 1) as nat)) by (nonlinear_arith)
            requires
                m < 16 * pow16((width - 1) as nat),
        ;
        lemma_upper_hex_determines(n / 16, m / 16, (width - 1) as nat);
        assert(n == 16 * (n / 16) + n % 16) by (nonlinear_arith);
        assert(m == 16 * (m / 16) + m % 16) by (nonlinear_arith);
    }
}

/// The upper-case hexadecimal digit of `d`.
fn hex_digit_char(d: u8) -> (c: char)
    requires
        d < 16,
    ensures
        c == hex_digit(d as int),
{
    if d < 10 {
        (48u8 + d) as char
    } else {
        (55u8 + d) as char
    }
}

/// Appends the last `width` hexadecimal digits of `n`, upper case.
fn push_upper_hex(s: &mut String, n: u128, width: usize)
    ensures
        final(s)@ == old(s)@ + upper_hex(n as nat, width as nat),
    decreases width,
{
    if width > 0 {
        push_upper_hex(s, n / 16, width - 1);
        push_char(s, hex_digit_char((n % 16) as u8));
        assert(final(s)@ =~= old(s)@ + upper_hex(n as nat, width as nat));
    } else {
        assert(final(s)@ =~= old(s)@ + upper_hex(n as nat, width as nat));
    }
}

impl CHeader {
    /// The header for the source file at `source_path`: it is written next to it,
    /// with the extension that the settings give.
    pub fn new(source_path: &str, settings: &Settings) -> (r: Self)
        requires
            !has_separator(settings.outputs.c_header.extension@),
        ensures
            r.source_path@ == source_path@,
            r.watermark == settings.outputs.all.watermark,
            r.generated_path@ == with_extension(
                source_path@,
                settings.outputs.c_header.extension@,
            ),
    {
        CHeader {
            source_path: String::from_str(source_path),
            generated_path: path_with_extension(
                source_path,
                settings.outputs.c_header.extension.as_str(),
            ),
            watermark: settings.outputs.all.watermark,
        }
    }

    /// The path that the header is written to.
    pub fn out_path(&self) -> (r: &str)
        ensures
            r@ == self.generated_path@,
    {
        self.generated_path.as_str()
    }

    /// The content of the header, given the content of the source file (`None` where
    /// it could not be read) and the selected ranges.
    pub fn generate_content(&self, file_content: Option<&str>, ranges: &Vec<SourceRange>) -> (r:
        Option<String>)
        ensures
            match file_content {
                Some(text) => r matches Some(h) && h@ == header_of(trim(assemble(text@, ranges@)), self.watermark),
                None => r is None,
            },
    {
        let text = match file_content {
            Some(t) => t,
            None => return None,
        };
        let mut accumulator = String::new();
        let n = ranges.len();
        let mut i: usize = 0;
        assert(ranges@.take(0) =~= Seq::<SourceRange>::empty());
        while i < n
            invariant
                n == ranges@.len(),
                i <= n,
                accumulator@ == assemble(text@, ranges@.take(i as int)),
            decreases n - i,
        {
            assert(ranges@.take(i + 1).drop_last() =~= ranges@.take(i as int));
            assert(ranges@.take(i + 1).last() == ranges@[i as int]);
            let r = &ranges[i];
            match &r.comment {
                Some(comment) => {
                    accumulator.append(comment.as_str());
                    push_char(&mut accumulator, '\n');
                },
                None => {},
            }
            assert(accumulator@ =~= with_comment(
                assemble(text@, ranges@.take(i as int)),
                ranges@[i as int].comment,
            ));
            match byte_range(text, r.range.start as usize, r.range.end as usize) {
                Some(source) => {
                    accumulator.append(source);
                    Self::restore_semicolons(&mut accumulator);
                },
                None => {},
            }
            i = i + 1;
        }
        assert(ranges@.take(n as int) =~= ranges@);
        let chars = chars_of(accumulator.as_str());
        let end = trim_end_len(&chars);
        let start = trim_start_len(&chars, end);
        let mut trimmed = String::new();
        let mut k = start;
        while k < end
            invariant
                start <= k <= end <= chars@.len(),
                trimmed@ == chars@.subrange(start as int, k as int),
            decreases end - k,
        {
            push_char(&mut trimmed, chars[k]);
            assert(chars@.subrange(start as int, k + 1) =~= chars@.subrange(start as int, k as int).push(
                chars@[k as int],
            ));
            k = k + 1;
        }
        Some(Self::add_header_boilerplate(trimmed, self.watermark))
    }

    /// Ends `source` with a semicolon unless, but for trailing white space, it
    /// already ends with one, then adds an empty line.
    pub fn restore_semicolons(source: &mut String)
        ensures
            final(source)@ == restored(old(source)@),
    {
        let chars = chars_of(source.as_str());
        let end = trim_end_len(&chars);
        if !(end > 0 && chars[end - 1] == ';') {
            let mut trimmed = string_of(&chars, end);
            push_char(&mut trimmed, ';');
            *source = trimmed;
        }
        push_char(source, '\n');
        push_char(source, '\n');
        assert(final(source)@ =~= restored(old(source)@));
    }

    /// Wraps `content` in the header boilerplate: the watermark line when
    /// `watermark` holds, `#pragma once` and an include guard named after the hash of
    /// the content.
    pub fn add_header_boilerplate(content: String, watermark: bool) -> (r: String)
        ensures
            r@ == header_of(content@, watermark),
    {
        let hash = xxh3_128_oneshot(content.as_str().as_bytes());
        Self::header_with_hash(content, hash, watermark)
    }

    /// The header boilerplate around `content`, with the include guard named after
    /// `hash`, after the watermark line when `watermark` holds.
    pub fn header_with_hash(content: String, hash: u128, watermark: bool) -> (r: String)
        ensures
            r@ == header_text(content@, upper_hex(hash as nat, 32), watermark),
    {
        let mut guard = String::new();
        push_upper_hex(&mut guard, hash, 32);
        let mut s = String::new();
        if watermark {
            s.append("// Generated by cgen ");
            s.append(crate::version());
            s.append("\n");
        }
        s.append("// clang-format off\n// NOLINTBEGIN\n\n#pragma once\n\n#ifndef __CGEN_");
        s.append(guard.as_str());
        s.append("_H\n#define __CGEN_");
        s.append(guard.as_str());
        s.append("_H\n\n");
        s.append(content.as_str());
        s.append("\n\n#endif /* __CGEN_");
        s.append(guard.as_str());
        s.append("_H */\n\n// clang-format on\n// NOLINTEND\n");
        assert(s@ =~= header_text(content@, upper_hex(hash as nat, 32), watermark));
        s
    }

    /// What to write to the header's path for the given content.
    pub fn write(&self, content: Option<String>) -> (r: Result<String, WriteError>)
        ensures
            match content {
                Some(c) => r matches Ok(w) && w == c,
                None => r matches Err(e) && e.path@ == self.generated_path@ && e.source is UnwrapContent,
            },
    {
        content_to_write(self.out_path(), content)
    }
}

} // verus!
