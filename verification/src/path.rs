//! Paths inside a pack, as sequences of characters.
//!
//! A container may separate the parts of a name with `/` or with `\`, so
//! both count as separators wherever a path is judged.

use crate::text::chars_of;
use vstd::prelude::*;

verus! {

/// Whether `c` separates two parts of a path.
pub open spec fn separator(c: char) -> bool {
    c == '/' || c == '\\'
}

/// Whether the part of `p` that starts at `i` is exactly `..`.
pub open spec fn parent_segment_at(p: Seq<char>, i: int) -> bool {
    &&& 0 <= i
    &&& i + 2 <= p.len()
    &&& p[i] == '.'
    &&& p[i + 1] == '.'
    &&& (i == 0 || separator(p[i - 1]))
    &&& (i + 2 == p.len() || separator(p[i + 2]))
}

/// Whether one of the parts of `p` is `..`.
pub open spec fn has_parent_segment(p: Seq<char>) -> bool {
    exists|i: int| parent_segment_at(p, i)
}

/// Whether `p` starts at a root: with a separator, or with a drive letter.
pub open spec fn rooted(p: Seq<char>) -> bool {
    ||| p.len() > 0 && separator(p[0])
    ||| p.len() > 1 && p[1] == ':'
}

/// Whether `p`, taken from the install root, stays below it.
pub open spec fn contained(p: Seq<char>) -> bool {
    !rooted(p) && !has_parent_segment(p)
}

/// Whether `p` is the name of a directory entry: it ends in a separator.
pub open spec fn directory_name(p: Seq<char>) -> bool {
    p.len() > 0 && separator(p.last())
}

/// Whether `p` names a file below the install root.
pub open spec fn file_path(p: Seq<char>) -> bool {
    p.len() > 0 && contained(p) && !directory_name(p)
}

/// Whether `p` begins with `prefix`.
pub open spec fn has_prefix(p: Seq<char>, prefix: Seq<char>) -> bool {
    prefix.len() <= p.len() && p.subrange(0, prefix.len() as int) == prefix
}

/// Whether `p` ends with `suffix`.
pub open spec fn has_suffix(p: Seq<char>, suffix: Seq<char>) -> bool {
    suffix.len() <= p.len() && p.subrange(p.len() - suffix.len(), p.len() as int) == suffix
}

/// The extension of a pack file, with its dot.
pub open spec fn pack_suffix() -> Seq<char> {
    ".mrpack"@
}

/// Whether `p` names a pack file: a name that is not empty, then `.mrpack`.
///
/// The path is judged as it is written. One that ends in a separator, as
/// `foo.mrpack/`, names a directory and is no pack file, though
/// `std::path::Path::extension` looks past the separator and finds the
/// extension there.
pub open spec fn pack_extension(p: Seq<char>) -> bool {
    &&& has_suffix(p, pack_suffix())
    &&& p.len() > pack_suffix().len()
    &&& !separator(p[p.len() - pack_suffix().len() - 1])
}

/// Whether `p` begins with `prefix`.
pub fn chars_have_prefix(p: &Vec<char>, prefix: &Vec<char>) -> (r: bool)
    ensures
        r == has_prefix(p@, prefix@),
{
    if prefix.len() > p.len() {
        return false;
    }
    let mut i: usize = 0;
    while i < prefix.len()
        invariant
            i <= prefix.len() <= p.len(),
            forall|j: int| 0 <= j < i ==> p@[j] == prefix@[j],
        decreases prefix.len() - i,
    {
        if p[i] != prefix[i] {
            assert(p@.subrange(0, prefix.len() as int)[i as int] != prefix@[i as int]);
            return false;
        }
        i += 1;
    }
    assert(p@.subrange(0, prefix.len() as int) =~= prefix@);
    true
}

/// Whether `p` ends with `suffix`.
pub fn chars_have_suffix(p: &Vec<char>, suffix: &Vec<char>) -> (r: bool)
    ensures
        r == has_suffix(p@, suffix@),
{
    if suffix.len() > p.len() {
        return false;
    }
    let start: usize = p.len() - suffix.len();
    let mut i: usize = 0;
    while i < suffix.len()
        invariant
            i <= suffix.len() <= p.len(),
            start == p.len() - suffix.len(),
            forall|j: int| 0 <= j < i ==> p@[start + j] == suffix@[j],
        decreases suffix.len() - i,
    {
        if p[start + i] != suffix[i] {
            assert(p@.subrange(start as int, p.len() as int)[i as int] != suffix@[i as int]);
            return false;
        }
        i += 1;
    }
    assert(p@.subrange(start as int, p.len() as int) =~= suffix@);
    true
}

/// Whether `c` separates two parts of a path.
pub fn is_separator(c: char) -> (r: bool)
    ensures
        r == separator(c),
{
    c == '/' || c == '\\'
}

/// Whether one of the parts of `p` is `..`.
pub fn chars_have_parent_segment(p: &Vec<char>) -> (r: bool)
    ensures
        r == has_parent_segment(p@),
{
    let n: usize = p.len();
    if n < 2 {
        return false;
    }
    let mut i: usize = 0;
    while i <= n - 2
        invariant
            n == p.len(),
            n >= 2,
            i <= n - 1,
            forall|j: int| 0 <= j < i ==> !parent_segment_at(p@, j),
        decreases n - i,
    {
        if p[i] == '.' && p[i + 1] == '.' {
            let opens: bool = i == 0 || is_separator(p[i - 1]);
            let closes: bool = i + 2 == n || is_separator(p[i + 2]);
            if opens && closes {
                assert(parent_segment_at(p@, i as int));
                return true;
            }
        }
        i += 1;
    }
    false
}

/// Whether `p` starts at a root.
pub fn chars_are_rooted(p: &Vec<char>) -> (r: bool)
    ensures
        r == rooted(p@),
{
    (p.len() > 0 && is_separator(p[0])) || (p.len() > 1 && p[1] == ':')
}

/// Whether `p` stays below the install root.
pub fn chars_are_contained(p: &Vec<char>) -> (r: bool)
    ensures
        r == contained(p@),
{
    !chars_are_rooted(p) && !chars_have_parent_segment(p)
}

/// Whether `p` is the name of a directory entry.
pub fn chars_are_directory_name(p: &Vec<char>) -> (r: bool)
    ensures
        r == directory_name(p@),
{
    p.len() > 0 && is_separator(p[p.len() - 1])
}

/// Whether `p` names a file below the install root.
pub fn chars_are_file_path(p: &Vec<char>) -> (r: bool)
    ensures
        r == file_path(p@),
{
    p.len() > 0 && chars_are_contained(p) && !chars_are_directory_name(p)
}

/// Whether `path` stays below the install root.
pub fn is_contained(path: &str) -> (r: bool)
    ensures
        r == contained(path@),
{
    let p = chars_of(path);
    chars_are_contained(&p)
}

/// Whether `path` names a file below the install root.
pub fn is_file_path(path: &str) -> (r: bool)
    ensures
        r == file_path(path@),
{
    let p = chars_of(path);
    chars_are_file_path(&p)
}

/// Whether `path` names a pack file.
pub fn has_pack_extension(path: &str) -> (r: bool)
    ensures
        r == pack_extension(path@),
{
    let p = chars_of(path);
    let suffix = chars_of(".mrpack");
    if !chars_have_suffix(&p, &suffix) {
        return false;
    }
    if p.len() == suffix.len() {
        return false;
    }
    !is_separator(p[p.len() - suffix.len() - 1])
}

} // verus!
