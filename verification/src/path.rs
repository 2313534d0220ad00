//! The rules that virtual paths obey.

use vstd::prelude::*;
use vstd::string::*;

use crate::error;
use crate::error::Error;
use crate::text::{chars_of, holds};

verus! {

/// The characters with the Unicode property `White_Space`.
pub open spec fn is_white_space(c: char) -> bool {
    ||| '\u{9}' <= c <= '\u{d}'
    ||| c == '\u{20}'
    ||| c == '\u{85}'
    ||| c == '\u{a0}'
    ||| c == '\u{1680}'
    ||| '\u{2000}' <= c <= '\u{200a}'
    ||| c == '\u{2028}'
    ||| c == '\u{2029}'
    ||| c == '\u{202f}'
    ||| c == '\u{205f}'
    ||| c == '\u{3000}'
}

/// Whether a character is white space.
pub fn white_space(c: char) -> (r: bool)
    ensures
        r == is_white_space(c),
{
    ('\u{9}' <= c && c <= '\u{d}') || c == '\u{20}' || c == '\u{85}' || c == '\u{a0}' || c
        == '\u{1680}' || ('\u{2000}' <= c && c <= '\u{200a}') || c == '\u{2028}' || c == '\u{2029}'
        || c == '\u{202f}' || c == '\u{205f}' || c == '\u{3000}'
}

/// Why a text is no path, or `None` where it is one. Of several reasons the
/// first in this order counts.
pub open spec fn path_problem(path: Seq<char>) -> Option<Seq<char>> {
    if path.len() == 0 {
        Some("path is empty"@)
    } else if path.contains('\0') {
        Some("path contains null byte"@)
    } else if is_white_space(path.first()) || is_white_space(path.last()) {
        Some("path has leading or trailing whitespace"@)
    } else if path.first() == '/' {
        Some("path is not allowed to start with a slash"@)
    } else if path.last() == '/' {
        Some("path is not allowed to end with a slash"@)
    } else {
        None
    }
}

/// A text that names a path: not empty, without null bytes, without white space
/// or a slash at either end.
pub open spec fn is_valid(path: Seq<char>) -> bool {
    path_problem(path) is None
}

/// The outcome of [`validate`].
pub open spec fn validates(path: Seq<char>, r: Result<(), Error>) -> bool {
    match path_problem(path) {
        None => r is Ok,
        Some(why) => r matches Err(e) && e@ == error::ErrorView::InvalidPath(why),
    }
}

/// Validate a virtual path.
///
/// Paths are `/`-separated logical identifiers (e.g. `"documents/report.txt"`).
/// They must not be empty, must not contain null bytes, and must not have
/// leading or trailing whitespace. They neither start nor end with a `/`.
pub fn validate(path: &str) -> (r: Result<(), Error>)
    ensures
        validates(path@, r),
{
    let chars = chars_of(path);
    if chars.len() == 0 {
        return Err(Error::InvalidPath("path is empty".to_owned()));
    }
    if holds(&chars, '\0') {
        return Err(Error::InvalidPath("path contains null byte".to_owned()));
    }
    let first: char = chars[0];
    let last: char = chars[chars.len() - 1];
    if white_space(first) || white_space(last) {
        return Err(Error::InvalidPath("path has leading or trailing whitespace".to_owned()));
    }
    if first == '/' {
        return Err(Error::InvalidPath("path is not allowed to start with a slash".to_owned()));
    }
    if last == '/' {
        return Err(Error::InvalidPath("path is not allowed to end with a slash".to_owned()));
    }
    Ok(())
}

} // verus!
