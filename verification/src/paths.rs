//! Asset paths as text: directories parted by `/`, then a file name with its extension
//! behind the last `.`.

use crate::cache_key::find_last;
use crate::cache_key::last_index_of;
use crate::cache_key::lemma_last_index_of;
use crate::cache_key::name_start;
use vstd::prelude::*;
use vstd::string::StringExecFns;
use vstd::string::StrSliceExecFns;

verus! {

/// The file name of a path: what follows the last `/`.
pub open spec fn file_name(path: Seq<char>) -> Seq<char> {
    path.subrange(name_start(path), path.len() as int)
}

/// Where the extension of a path is parted from the rest: the position of the last `.` of
/// the file name, or nothing where the name has no `.` or only begins with one.
pub open spec fn extension_mark(path: Seq<char>) -> Option<int> {
    if last_index_of(file_name(path), '.') <= 0 {
        None
    } else {
        Some(name_start(path) + last_index_of(file_name(path), '.'))
    }
}

/// The extension of a path: what follows the last `.` of the file name.
pub open spec fn extension_of(path: Seq<char>) -> Option<Seq<char>> {
    match extension_mark(path) {
        None => None,
        Some(mark) => Some(path.subrange(mark + 1, path.len() as int)),
    }
}

/// The path with its extension replaced by `extension`, or given one where it has none. A
/// path without a file name stays as it is.
pub open spec fn with_extension(path: Seq<char>, extension: Seq<char>) -> Seq<char> {
    if file_name(path).len() == 0 {
        path
    } else {
        match extension_mark(path) {
            None => path + seq!['.'] + extension,
            Some(mark) => path.subrange(0, mark) + seq!['.'] + extension,
        }
    }
}

/// The directory of a path: what stands before the last `/`. A bare file name lies in the
/// empty directory, a name directly under the root lies in `/`, and the empty path and the
/// root itself have no directory.
pub open spec fn parent_of(path: Seq<char>) -> Option<Seq<char>> {
    if path.len() == 0 {
        None
    } else if name_start(path) == 0 {
        Some(Seq::empty())
    } else if name_start(path) == 1 {
        if path.len() == 1 {
            None
        } else {
            Some(seq!['/'])
        }
    } else {
        Some(path.subrange(0, name_start(path) - 1))
    }
}

/// The lower-case form of an ASCII letter; every other character stays as it is.
pub open spec fn lower(c: char) -> char {
    if 'A' <= c <= 'Z' {
        ((c as u8) + 32) as char
    } else {
        c
    }
}

/// The text with its ASCII letters in lower case.
pub open spec fn lowercase(text: Seq<char>) -> Seq<char> {
    text.map_values(|c: char| lower(c))
}

/// Where the file name of `path` starts.
pub fn file_name_start(path: &str) -> (start: usize)
    ensures
        start == name_start(path@),
        start <= path@.len(),
{
    let n = path.unicode_len();
    assert(path@.subrange(0, n as int) =~= path@);
    match find_last(path, '/', 0, n) {
        Some(slash) => slash + 1,
        None => 0,
    }
}

/// Finds where the extension of `path` is parted from the rest.
pub fn find_extension(path: &str) -> (mark: Option<usize>)
    ensures
        match mark {
            Some(at) => extension_mark(path@) == Some(at as int) && at < path@.len(),
            None => extension_mark(path@) is None,
        },
{
    let n = path.unicode_len();
    let start = file_name_start(path);
    proof {
        lemma_last_index_of(file_name(path@), '.');
    }
    match find_last(path, '.', start, n) {
        Some(dot) => if dot > start {
            Some(dot)
        } else {
            None
        },
        None => None,
    }
}

/// Replaces the extension of a path.
pub fn replace_extension(path: &str, extension: &str) -> (replaced: String)
    ensures
        replaced@ == with_extension(path@, extension@),
{
    let n = path.unicode_len();
    let start = file_name_start(path);
    proof {
        reveal_strlit(".");
        assert("."@ =~= seq!['.']);
        assert(path@.subrange(0, n as int) =~= path@);
    }
    if start == n {
        return String::from_str(path);
    }
    let mut replaced = match find_extension(path) {
        Some(mark) => String::from_str(path.substring_char(0, mark)),
        None => String::from_str(path),
    };
    replaced.append(".");
    replaced.append(extension);
    replaced
}

/// Returns the directory of a path.
pub fn parent_directory(path: &str) -> (parent: Option<String>)
    ensures
        match parent {
            Some(directory) => parent_of(path@) == Some(directory@),
            None => parent_of(path@) is None,
        },
{
    let n = path.unicode_len();
    if n == 0 {
        return None;
    }
    let start = file_name_start(path);
    if start == 0 {
        let directory = String::new();
        assert(directory@ =~= Seq::<char>::empty());
        Some(directory)
    } else if start == 1 {
        if n == 1 {
            None
        } else {
            proof {
                reveal_strlit("/");
                assert("/"@ =~= seq!['/']);
            }
            Some(String::from_str("/"))
        }
    } else {
        Some(String::from_str(path.substring_char(0, start - 1)))
    }
}

} // verus!
