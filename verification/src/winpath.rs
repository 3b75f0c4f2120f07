//! Paths as the installer writes them: text in which a backslash separates
//! the names.

use crate::text::{chars_start_with, from_chars, to_chars};
use crate::utf16::{encode_utf16, lemma_encode_concat, lemma_encode_len, lemma_encode_split};
use vstd::prelude::*;

verus! {

/// The character that separates the names of a path.
pub const SEPARATOR: char = '\\';

/// The error of rebasing a path that does not lie under the directory, or
/// under a directory that has no parent.
#[derive(Clone, Copy, Debug, PartialEq, Eq, Structural)]
pub struct RebaseError;

impl RebaseError {
    /// The message of the error.
    pub fn message(&self) -> (s: String)
        ensures
            s@ == "Rebase error"@,
    {
        "Rebase error".to_owned()
    }
}

/// `s` without the separators at its end.
pub open spec fn trim_trailing(s: Seq<char>) -> Seq<char>
    decreases s.len(),
{
    if s.len() > 0 && s.last() == SEPARATOR {
        trim_trailing(s.drop_last())
    } else {
        s
    }
}

/// `s` without the separators at its start.
pub open spec fn trim_leading(s: Seq<char>) -> Seq<char>
    decreases s.len(),
{
    if s.len() > 0 && s[0] == SEPARATOR {
        trim_leading(s.skip(1))
    } else {
        s
    }
}

/// The index of the last separator of `s`, or -1 where it has none.
pub open spec fn last_separator(s: Seq<char>) -> int
    decreases s.len(),
{
    if s.len() == 0 {
        -1
    } else if s.last() == SEPARATOR {
        s.len() - 1
    } else {
        last_separator(s.drop_last())
    }
}

/// The directory that holds `dir`: what stands before the last separator of
/// `dir`, without separators at its end. A path without a separator has no
/// parent.
pub open spec fn parent_dir(dir: Seq<char>) -> Option<Seq<char>> {
    let at = last_separator(dir);
    if at < 0 {
        None
    } else {
        Some(trim_trailing(dir.take(at)))
    }
}

/// `path` is `dir` itself or lies under it: it begins with `dir`, and what
/// follows begins with a separator.
pub open spec fn is_under(path: Seq<char>, dir: Seq<char>) -> bool {
    dir.is_prefix_of(path) && (path.len() == dir.len() || path[dir.len() as int] == SEPARATOR)
}

/// `s` without one separator at its end.
pub open spec fn strip_separator(s: Seq<char>) -> Seq<char> {
    if s.len() > 0 && s.last() == SEPARATOR {
        s.drop_last()
    } else {
        s
    }
}

/// Where `path` lies once what is under `staging` has moved to the parent of
/// `staging`: the parent, a separator and what followed `staging` in `path`,
/// without one separator at the end. `None` where `path` does not lie under
/// `staging`, or `staging` has no parent.
pub open spec fn rebased_path(path: Seq<char>, staging: Seq<char>) -> Option<Seq<char>> {
    let dir = trim_trailing(staging);
    match parent_dir(dir) {
        None => None,
        Some(parent) => if is_under(path, dir) {
            Some(
                strip_separator(
                    parent + seq![SEPARATOR] + trim_leading(path.skip(dir.len() as int)),
                ),
            )
        } else {
            None
        },
    }
}

/// `s` begins with the name of a drive: a letter and a colon.
pub open spec fn has_drive(s: Seq<char>) -> bool {
    s.len() >= 2 && (('a' <= s[0] && s[0] <= 'z') || ('A' <= s[0] && s[0] <= 'Z')) && s[1] == ':'
}

/// The last name of `path`: what follows its last separator, once the
/// separators at its end are gone. The name of a drive at the start of the
/// path is no part of the name. `None` where nothing is left, or the name
/// is `..`.
pub open spec fn file_name_of(path: Seq<char>) -> Option<Seq<char>> {
    let trimmed = trim_trailing(path);
    let at = last_separator(trimmed);
    let last = trimmed.skip(at + 1);
    let name = if at < 0 && has_drive(last) {
        last.skip(2)
    } else {
        last
    };
    if name.len() == 0 || name == seq!['.', '.'] {
        None
    } else {
        Some(name)
    }
}

/// The length of `s` without the separators at its end.
fn trimmed_len(s: &[char], len: usize) -> (n: usize)
    requires
        len <= s@.len(),
    ensures
        n <= len,
        trim_trailing(s@.take(len as int)) == s@.take(n as int),
{
    let mut n: usize = len;
    while n > 0 && s[n - 1] == SEPARATOR
        invariant
            n <= len <= s@.len(),
            trim_trailing(s@.take(len as int)) == trim_trailing(s@.take(n as int)),
        decreases n,
    {
        proof {
            assert(s@.take(n as int).drop_last() =~= s@.take(n - 1));
        }
        n = n - 1;
    }
    n
}

/// The index after the last separator among the first `len` characters of
/// `s`, or 0 where there is none.
fn after_last_separator(s: &[char], len: usize) -> (n: usize)
    requires
        len <= s@.len(),
    ensures
        n <= len,
        n == last_separator(s@.take(len as int)) + 1,
{
    let mut n: usize = len;
    while n > 0 && s[n - 1] != SEPARATOR
        invariant
            n <= len <= s@.len(),
            last_separator(s@.take(len as int)) == last_separator(s@.take(n as int)),
        decreases n,
    {
        proof {
            assert(s@.take(n as int).drop_last() =~= s@.take(n - 1));
        }
        n = n - 1;
    }
    n
}

/// The index of the first character at or after `from` that is no
/// separator.
fn skip_separators(s: &[char], from: usize) -> (n: usize)
    requires
        from <= s@.len(),
    ensures
        from <= n <= s@.len(),
        trim_leading(s@.skip(from as int)) == s@.skip(n as int),
{
    let mut n: usize = from;
    while n < s.len() && s[n] == SEPARATOR
        invariant
            from <= n <= s@.len(),
            trim_leading(s@.skip(from as int)) == trim_leading(s@.skip(n as int)),
        decreases s@.len() - n,
    {
        proof {
            assert(s@.skip(n as int).skip(1) =~= s@.skip(n + 1));
        }
        n = n + 1;
    }
    n
}

/// Where `path` lies once the contents of `staging_dir` have moved to its
/// parent.
pub fn rebase_path(path: &str, staging_dir: &str) -> (r: Result<String, RebaseError>)
    ensures
        match rebased_path(path@, staging_dir@) {
            Some(moved) => r matches Ok(s) && s@ == moved,
            None => r is Err,
        },
{
    let staging = to_chars(staging_dir);
    let chars = to_chars(path);
    proof {
        assert(staging@.take(staging@.len() as int) =~= staging@);
    }
    let dir_len = trimmed_len(staging.as_slice(), staging.len());
    let ghost dir = staging@.take(dir_len as int);
    let after = after_last_separator(staging.as_slice(), dir_len);
    if after == 0 {
        return Err(RebaseError);
    }
    proof {
        assert(dir.take(after - 1) =~= staging@.take(after - 1));
    }
    let parent_len = trimmed_len(staging.as_slice(), after - 1);
    let dir_chars = vstd::slice::slice_subrange(staging.as_slice(), 0, dir_len);
    proof {
        assert(dir_chars@ =~= dir);
    }
    if !chars_start_with(chars.as_slice(), dir_chars) {
        return Err(RebaseError);
    }
    if chars.len() > dir_len && chars[dir_len] != SEPARATOR {
        return Err(RebaseError);
    }
    let rest = skip_separators(chars.as_slice(), dir_len);
    let mut moved: Vec<char> = Vec::new();
    let mut i: usize = 0;
    while i < parent_len
        invariant
            i <= parent_len <= staging@.len(),
            moved@ == staging@.take(i as int),
        decreases parent_len - i,
    {
        moved.push(staging[i]);
        proof {
            assert(staging@.take(i as int).push(staging@[i as int]) =~= staging@.take(i + 1));
        }
        i = i + 1;
    }
    moved.push(SEPARATOR);
    let mut j: usize = rest;
    while j < chars.len()
        invariant
            rest <= j <= chars@.len(),
            moved@ == staging@.take(parent_len as int) + seq![SEPARATOR] + chars@.subrange(
                rest as int,
                j as int,
            ),
        decreases chars@.len() - j,
    {
        moved.push(chars[j]);
        proof {
            assert(chars@.subrange(rest as int, j as int).push(chars@[j as int])
                =~= chars@.subrange(rest as int, j + 1));
        }
        j = j + 1;
    }
    proof {
        assert(chars@.subrange(rest as int, chars@.len() as int) =~= chars@.skip(rest as int));
    }
    let last: usize = moved.len() - 1;
    if moved[last] == SEPARATOR {
        moved.pop();
        proof {
            let whole = staging@.take(parent_len as int) + seq![SEPARATOR] + chars@.skip(
                rest as int,
            );
            assert(moved@ =~= whole.drop_last());
        }
    }
    Ok(from_chars(moved.as_slice()))
}

/// The last name of `path`.
pub fn file_name(path: &str) -> (r: Option<String>)
    ensures
        match file_name_of(path@) {
            Some(name) => r matches Some(s) && s@ == name,
            None => r is None,
        },
{
    let chars = to_chars(path);
    proof {
        assert(chars@.take(chars@.len() as int) =~= chars@);
    }
    let len = trimmed_len(chars.as_slice(), chars.len());
    let after = after_last_separator(chars.as_slice(), len);
    let ghost trimmed = chars@.take(len as int);
    let ghost last = trimmed.skip(after as int);
    let mut start: usize = after;
    if after == 0 && len >= 2 && chars[1] == ':' && (('a' <= chars[0] && chars[0] <= 'z') || ('A'
        <= chars[0] && chars[0] <= 'Z')) {
        start = 2;
    }
    let ghost name = trimmed.skip(start as int);
    proof {
        if after == 0 {
            assert(last =~= trimmed);
            assert(last.skip(2) =~= trimmed.skip(2));
        }
    }
    if start == len {
        return None;
    }
    if len - start == 2 && chars[start] == '.' && chars[start + 1] == '.' {
        proof {
            assert(name =~= seq!['.', '.']);
        }
        return None;
    }
    proof {
        if name == seq!['.', '.'] {
            assert(name[0] == '.' && name[1] == '.');
        }
    }
    let part = vstd::slice::slice_subrange(chars.as_slice(), start, len);
    proof {
        assert(part@ =~= name);
    }
    Some(from_chars(part))
}

/// What is left without the separators at the end is a first part.
proof fn lemma_trim_trailing(s: Seq<char>)
    ensures
        trim_trailing(s).len() <= s.len(),
        trim_trailing(s) == s.take(trim_trailing(s).len() as int),
    decreases s.len(),
{
    if s.len() > 0 && s.last() == SEPARATOR {
        lemma_trim_trailing(s.drop_last());
        let n = trim_trailing(s).len() as int;
        assert(s.drop_last().take(n) =~= s.take(n));
    } else {
        assert(s.take(s.len() as int) =~= s);
    }
}

/// What is left without the separators at the start is a last part.
proof fn lemma_trim_leading(s: Seq<char>)
    ensures
        trim_leading(s).len() <= s.len(),
        trim_leading(s) == s.skip(s.len() - trim_leading(s).len()),
    decreases s.len(),
{
    if s.len() > 0 && s[0] == SEPARATOR {
        lemma_trim_leading(s.skip(1));
        let n = s.len() - trim_leading(s).len();
        assert(s.skip(1).skip(n - 1) =~= s.skip(n));
    } else {
        assert(s.skip(0) =~= s);
    }
}

/// The last separator lies within the path.
proof fn lemma_last_separator(s: Seq<char>)
    ensures
        -1 <= last_separator(s) < s.len(),
    decreases s.len(),
{
    if s.len() > 0 && s.last() != SEPARATOR {
        lemma_last_separator(s.drop_last());
    }
}

/// A path that was rebased has no more UTF-16 units than before: its new
/// parent is shorter than the directory it moved out of.
pub proof fn lemma_rebased_is_no_longer(path: Seq<char>, staging: Seq<char>)
    requires
        rebased_path(path, staging) is Some,
    ensures
        encode_utf16(rebased_path(path, staging)->Some_0).len() <= encode_utf16(path).len(),
{
    let dir = trim_trailing(staging);
    let at = last_separator(dir);
    let parent = parent_dir(dir)->Some_0;
    let rest = path.skip(dir.len() as int);
    let tail = trim_leading(rest);
    let whole = parent + seq![SEPARATOR] + tail;
    let moved = strip_separator(whole);
    lemma_last_separator(dir);
    lemma_trim_trailing(dir.take(at));
    lemma_trim_leading(rest);
    let k = parent.len() as int;
    assert(parent =~= dir.take(k)) by {
        assert(dir.take(at).take(k) =~= dir.take(k));
    }
    // the parent and one separator are at most the directory
    lemma_encode_split(dir, k);
    lemma_encode_len(dir.skip(k));
    // what follows the directory only loses separators
    lemma_encode_split(rest, rest.len() - tail.len());
    // the path is the directory and what follows
    assert(path.take(dir.len() as int) =~= dir);
    lemma_encode_split(path, dir.len() as int);
    // the rebased path is put together from these parts
    lemma_encode_concat(parent + seq![SEPARATOR], tail);
    lemma_encode_concat(parent, seq![SEPARATOR]);
    assert(encode_utf16(seq![SEPARATOR]).len() == 1) by {
        let one = seq![SEPARATOR];
        assert(one.drop_last() =~= Seq::<char>::empty());
        assert(encode_utf16(one.drop_last()) =~= Seq::<u16>::empty());
        assert(one.last() == SEPARATOR);
    }
    if moved != whole {
        lemma_encode_split(whole, whole.len() - 1);
        assert(whole.take(whole.len() - 1) =~= moved);
    }
}

} // verus!
