//! File paths, held as text.
use vstd::prelude::*;
use std::path::Path;

verus! {

/// What `Path::with_extension` makes of a path and an extension: the path with the
/// extension of its file name replaced (or added, or removed when `extension` is
/// empty). It depends on the path and the extension alone (with the path
/// separators of the platform that the library is built for).
pub uninterp spec fn with_extension(path: Seq<char>, extension: Seq<char>) -> Seq<char>;

/// What `Path::extension` finds in a path: the part of its file name after the last
/// `.`, or `None` when the file name has no `.` past its first character, or when
/// there is no file name. It depends on the path alone (with the path separators
/// of the platform that the library is built for).
pub uninterp spec fn extension_of(path: Seq<char>) -> Option<Seq<char>>;

/// Whether `extension` holds a path separator; on the Unix targets that the library
/// is built for, `/` is the only one.
pub open spec fn has_separator(extension: Seq<char>) -> bool {
    extension.contains('/')
}

/// Whether `extension` holds a path separator, which `Path::with_extension` refuses.
pub fn extension_has_separator(extension: &str) -> (r: bool)
    ensures
        r == has_separator(extension@),
{
    let cs = crate::text::chars_of(extension);
    let n = cs.len();
    let mut i: usize = 0;
    while i < n
        invariant
            n == cs@.len(),
            cs@ == extension@,
            i <= n,
            forall|j: int| 0 <= j < i ==> cs@[j] != '/',
        decreases n - i,
    {
        if cs[i] == '/' {
            assert(cs@[i as int] == '/');
            return true;
        }
        i = i + 1;
    }
    false
}

/// `Path::with_extension`, on a path and an extension in UTF-8, whose result is
/// then in UTF-8 too. It panics on an extension that holds a path separator, which
/// `requires` leaves out.
#[verifier::external_body]
pub(crate) fn path_with_extension(path: &str, extension: &str) -> (r: String)
    requires
        !has_separator(extension@),
    ensures
        r@ == with_extension(path@, extension@),
{
    Path::new(path).with_extension(extension).to_string_lossy().into_owned()
}

/// `Path::extension`, on a path in UTF-8, whose extension is then in UTF-8 too.
#[verifier::external_body]
pub(crate) fn path_extension(path: &str) -> (r: Option<String>)
    ensures
        match extension_of(path@) {
            Some(e) => r matches Some(s) && s@ == e,
            None => r is None,
        },
{
    match Path::new(path).extension() {
        Some(e) => Some(e.to_string_lossy().into_owned()),
        None => None,
    }
}

} // verus!
