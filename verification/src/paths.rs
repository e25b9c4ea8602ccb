//! Where the vault keeps its files, as path strings below a data directory
//! that the caller names.

use crate::text::{append_str, from_chars, to_chars};
use vstd::prelude::*;

verus! {

/// `dir` and `name` joined by one `/`; a `dir` that is empty or ends in `/`
/// takes no further separator.
pub open spec fn joined(dir: Seq<char>, name: Seq<char>) -> Seq<char> {
    if dir.len() == 0 || dir.last() == '/' {
        dir + name
    } else {
        dir + seq!['/'] + name
    }
}

/// The data directory: the override where one is set, the standard
/// directory of the platform otherwise.
pub open spec fn data_dir_of(custom: Option<Seq<char>>, standard: Seq<char>) -> Seq<char> {
    match custom {
        Some(dir) => dir,
        None => standard,
    }
}

/// The index of the last `.` in `name`, or -1.
pub open spec fn last_dot(name: Seq<char>) -> int
    decreases name.len(),
{
    if name.len() == 0 {
        -1
    } else if name.last() == '.' {
        name.len() - 1
    } else {
        last_dot(name.drop_last())
    }
}

/// The stem of a file name: the name up to its last `.`. A name without a
/// `.`, or with its only `.` in front, is its own stem; `..` has none.
pub open spec fn stem_of(name: Seq<char>) -> Option<Seq<char>> {
    if name == seq!['.', '.'] {
        None
    } else if last_dot(name) <= 0 {
        Some(name)
    } else {
        Some(name.take(last_dot(name)))
    }
}

/// `s` without the dots at its start.
pub open spec fn without_leading_dots(s: Seq<char>) -> Seq<char>
    decreases s.len(),
{
    if s.len() > 0 && s[0] == '.' {
        without_leading_dots(s.drop_first())
    } else {
        s
    }
}

/// Joins a directory and a name.
pub fn join(dir: &str, name: &str) -> (path: String)
    ensures
        path@ == joined(dir@, name@),
{
    let mut out = to_chars(dir);
    if out.len() > 0 && out[out.len() - 1] != '/' {
        out.push('/');
    }
    append_str(&mut out, name);
    from_chars(&out)
}

/// The data directory: the override where one is set, the standard
/// directory of the platform otherwise.
pub fn app_data_dir(custom: Option<String>, standard: String) -> (dir: String)
    ensures
        dir@ == data_dir_of(crate::store::optional_chars(custom), standard@),
{
    match custom {
        Some(dir) => dir,
        None => standard,
    }
}

/// The file that holds the catalog.
pub fn entries_file(data_dir: &str) -> (path: String)
    ensures
        path@ == joined(data_dir@, "postfixes.json"@),
{
    join(data_dir, "postfixes.json")
}

/// The file that holds the preferences.
pub fn prefs_path(data_dir: &str) -> (path: String)
    ensures
        path@ == joined(data_dir@, "config.json"@),
{
    join(data_dir, "config.json")
}

/// The directory that holds the master records.
pub fn masters_dir(data_dir: &str) -> (path: String)
    ensures
        path@ == joined(data_dir@, "masters"@),
{
    join(data_dir, "masters")
}

/// The stem of a file name.
pub fn file_stem(name: &str) -> (stem: Option<String>)
    ensures
        crate::store::optional_chars(stem) == stem_of(name@),
{
    let chars = to_chars(name);
    if chars.len() == 2 && chars[0] == '.' && chars[1] == '.' {
        assert(chars@ =~= seq!['.', '.']);
        return None;
    }
    assert(chars@ != seq!['.', '.']) by {
        if chars@ == seq!['.', '.'] {
            assert(chars@.len() == 2);
            assert(chars@[0] == '.');
            assert(chars@[1] == '.');
        }
    }
    let mut n: usize = chars.len();
    assert(chars@.take(n as int) == chars@);
    while n > 0 && chars[n - 1] != '.'
        invariant
            n <= chars.len(),
            last_dot(chars@) == last_dot(chars@.take(n as int)),
        decreases n,
    {
        assert(chars@.take(n as int).drop_last() == chars@.take(n - 1));
        n -= 1;
    }
    // the last dot stands at index n - 1, or there is none and n is 0
    assert(last_dot(chars@) == n - 1) by {
        if n > 0 {
            assert(chars@.take(n as int).last() == '.');
        }
    }
    if n <= 1 {
        return Some(from_chars(&chars));
    }
    let mut out: Vec<char> = Vec::new();
    let mut i: usize = 0;
    while i < n - 1
        invariant
            i <= n - 1,
            n <= chars.len(),
            out@ == chars@.take(i as int),
        decreases n - 1 - i,
    {
        out.push(chars[i]);
        i += 1;
        assert(chars@.take(i as int) == chars@.take(i - 1).push(chars@[i - 1]));
    }
    Some(from_chars(&out))
}

/// The name offered for a new backup file: `saforia-backup-`, the time
/// stamp, a dot and the extension without leading dots.
pub fn default_name(timestamp: &str, ext: &str) -> (name: String)
    ensures
        name@ == "saforia-backup-"@ + timestamp@ + seq!['.'] + without_leading_dots(ext@),
{
    let mut out = to_chars("saforia-backup-");
    append_str(&mut out, timestamp);
    out.push('.');
    let chars = to_chars(ext);
    let mut start: usize = 0;
    assert(chars@.skip(0) == chars@);
    while start < chars.len() && chars[start] == '.'
        invariant
            start <= chars.len(),
            without_leading_dots(chars@) == without_leading_dots(chars@.skip(start as int)),
        decreases chars.len() - start,
    {
        assert(chars@.skip(start as int).drop_first() == chars@.skip(start + 1));
        start += 1;
    }
    let ghost before = out@;
    let mut i: usize = start;
    while i < chars.len()
        invariant
            start <= i <= chars.len(),
            out@ == before + chars@.subrange(start as int, i as int),
        decreases chars.len() - i,
    {
        out.push(chars[i]);
        i += 1;
    }
    assert(chars@.subrange(start as int, chars.len() as int) == chars@.skip(start as int));
    from_chars(&out)
}

} // verus!
