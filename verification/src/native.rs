//! Where a package may place its native Rust wrapper: a relative path that
//! stays inside the package.
use vstd::prelude::*;
use crate::chars::{chars_of, is_ascii_alpha, trim, trimmed};
use crate::types::append;

verus! {

pub open spec fn is_path_sep(c: char) -> bool {
    c == '/' || c == '\\'
}

/// A drive prefix such as `C:`.
pub open spec fn has_drive_prefix(s: Seq<char>) -> bool {
    s.len() >= 2 && is_ascii_alpha(s[0]) && s[1] == ':'
}

/// Whether a `..` component starts at `i`.
pub open spec fn parent_component_at(s: Seq<char>, i: int) -> bool {
    &&& 0 <= i
    &&& i + 2 <= s.len()
    &&& s[i] == '.'
    &&& s[i + 1] == '.'
    &&& (i == 0 || is_path_sep(s[i - 1]))
    &&& (i + 2 == s.len() || is_path_sep(s[i + 2]))
}

/// Whether a configured path can leave the package directory: it is rooted
/// (it starts with a separator, which covers UNC shares), carries a drive
/// prefix, or has a `..` component. Both `/` and `\` separate components.
pub open spec fn escapes_package(s: Seq<char>) -> bool {
    ||| (s.len() > 0 && is_path_sep(s[0]))
    ||| has_drive_prefix(s)
    ||| exists|i: int| parent_component_at(s, i)
}

/// Whether `path` is rooted, prefixed, or climbs out through `..`.
pub fn native_path_escapes_package(path: &str) -> (r: bool)
    ensures
        r == escapes_package(path@),
{
    let s = chars_of(path);
    let n = s.len();
    if n > 0 && (s[0] == '/' || s[0] == '\\') {
        return true;
    }
    if n >= 2 && (('a' <= s[0] && s[0] <= 'z') || ('A' <= s[0] && s[0] <= 'Z')) && s[1] == ':' {
        return true;
    }
    let mut i: usize = 0;
    while i < n && n - i >= 2
        invariant
            n == s@.len(),
            s@ == path@,
            forall|j: int| 0 <= j < i ==> !parent_component_at(s@, j),
        decreases n - i,
    {
        if s[i] == '.' && s[i + 1] == '.' && (i == 0 || s[i - 1] == '/' || s[i - 1] == '\\') && (i + 2 == n
            || s[i + 2] == '/' || s[i + 2] == '\\') {
            assert(parent_component_at(s@, i as int));
            return true;
        }
        i += 1;
    }
    assert forall|j: int| !parent_component_at(s@, j) by {
        if 0 <= j < i {
        } else if j >= i {
            assert(j + 2 > n);
        }
    }
    false
}

/// Why a configured native wrapper path is refused.
#[derive(Clone, Copy, Debug, PartialEq, Eq, Structural)]
pub enum NativePathError {
    Empty,
    EscapesPackage,
}

/// Accepts a configured native wrapper path that is not blank and stays
/// inside the package.
pub fn check_native_rust_path(configured: &str) -> (r: Result<(), NativePathError>)
    ensures
        r == (if trim(configured@).len() == 0 {
            Err(NativePathError::Empty)
        } else if escapes_package(configured@) {
            Err(NativePathError::EscapesPackage)
        } else {
            Ok(())
        }),
{
    let v = chars_of(configured);
    let t = trimmed(v.as_slice());
    if t.len() == 0 {
        return Err(NativePathError::Empty);
    }
    if native_path_escapes_package(configured) {
        return Err(NativePathError::EscapesPackage);
    }
    Ok(())
}

impl NativePathError {
    pub open spec fn message_text(self, configured: Seq<char>) -> Seq<char> {
        match self {
            NativePathError::Empty => "native Rust wrapper path must not be empty"@,
            NativePathError::EscapesPackage => "native Rust wrapper path `"@ + configured
                + "` escapes the package root"@,
        }
    }

    /// The message reported for `configured`.
    pub fn message(&self, configured: &str) -> (r: String)
        ensures
            r@ == self.message_text(configured@),
    {
        match self {
            NativePathError::Empty => "native Rust wrapper path must not be empty".to_owned(),
            NativePathError::EscapesPackage => {
                let mut m = "native Rust wrapper path `".to_owned();
                append(&mut m, configured);
                append(&mut m, "` escapes the package root");
                m
            },
        }
    }
}

} // verus!
