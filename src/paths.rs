//! Slash-separated relative paths, as the extraction names its outputs.

use vstd::prelude::*;
use vstd::string::{StrSliceExecFns, StringExecFns};

use crate::error::Error;

verus! {

/// Index of the last `c` among the first `end` characters of `s`, or -1.
pub open spec fn last_index(s: Seq<char>, c: char, end: int) -> int
    decreases end,
{
    if end <= 0 {
        -1
    } else if s[end - 1] == c {
        end - 1
    } else {
        last_index(s, c, end - 1)
    }
}

/// Where the last component of `p` starts.
pub open spec fn file_name_start(p: Seq<char>) -> int {
    last_index(p, '/', p.len() as int) + 1
}

/// The last component of `p`.
pub open spec fn file_name(p: Seq<char>) -> Seq<char> {
    p.subrange(file_name_start(p), p.len() as int)
}

/// Everything of `p` before its last component, the slash included.
pub open spec fn base_of(p: Seq<char>) -> Seq<char> {
    p.subrange(0, file_name_start(p))
}

/// A file name without its extension: up to its last dot, unless that dot
/// starts the name.
pub open spec fn stem_of(name: Seq<char>) -> Seq<char> {
    let dot = last_index(name, '.', name.len() as int);
    if dot > 0 {
        name.subrange(0, dot)
    } else {
        name
    }
}

/// A file name's extension: what follows its last dot, unless that dot
/// starts the name.
pub open spec fn extension_of(name: Seq<char>) -> Option<Seq<char>> {
    let dot = last_index(name, '.', name.len() as int);
    if dot > 0 {
        Some(name.subrange(dot + 1, name.len() as int))
    } else {
        None
    }
}

proof fn lemma_last_index_range(s: Seq<char>, c: char, end: int)
    requires
        end <= s.len(),
    ensures
        -1 <= last_index(s, c, end) < end || (end <= 0 && last_index(s, c, end) == -1),
        last_index(s, c, end) >= 0 ==> s[last_index(s, c, end)] == c,
    decreases end,
{
    if end > 0 && s[end - 1] != c {
        lemma_last_index_range(s, c, end - 1);
    }
}

/// Index of the last `c` in `s`.
fn find_last(s: &str, c: char) -> (r: Option<usize>)
    ensures
        match r {
            Some(i) => i == last_index(s@, c, s@.len() as int) && i < s@.len(),
            None => last_index(s@, c, s@.len() as int) == -1,
        },
{
    let mut j = s.unicode_len();
    while j > 0
        invariant
            j <= s@.len(),
            last_index(s@, c, s@.len() as int) == last_index(s@, c, j as int),
        decreases j,
    {
        proof {
            lemma_last_index_range(s@, c, j as int);
        }
        if s.get_char(j - 1) == c {
            return Some(j - 1);
        }
        j -= 1;
    }
    None
}

/// Where the last component of `path` starts.
fn name_start(path: &str) -> (r: usize)
    ensures
        r == file_name_start(path@),
        r <= path@.len(),
{
    proof {
        lemma_last_index_range(path@, '/', path@.len() as int);
    }
    let _ = path.unicode_len();
    match find_last(path, '/') {
        Some(i) => i + 1,
        None => 0,
    }
}

/// The directory part of `path`, up to and including its last slash;
/// fails where `path` has no last component.
pub fn get_base_path(path: &str) -> (r: Result<String, Error>)
    ensures
        file_name(path@).len() == 0 ==> r == Err::<String, Error>(Error::NoBasePath),
        file_name(path@).len() > 0 ==> (r matches Ok(b) && b@ == base_of(path@)),
{
    let start = name_start(path);
    if start == path.unicode_len() {
        return Err(Error::NoBasePath);
    }
    Ok(String::from_str(path.substring_char(0, start)))
}

/// `path` without the extension of its last component.
pub fn remove_ext(path: &str) -> (r: Result<String, Error>)
    ensures
        file_name(path@).len() == 0 ==> r == Err::<String, Error>(Error::NoBasePath),
        file_name(path@).len() > 0 ==> (r matches Ok(p) && p@ == base_of(path@) + stem_of(file_name(path@))),
{
    let start = name_start(path);
    let len = path.unicode_len();
    if start == len {
        return Err(Error::NoBasePath);
    }
    let name = path.substring_char(start, len);
    proof {
        lemma_last_index_range(name@, '.', name@.len() as int);
    }
    let stem_end = match find_last(name, '.') {
        Some(d) => if d > 0 { d } else { name.unicode_len() },
        None => name.unicode_len(),
    };
    let mut out = String::from_str(path.substring_char(0, start));
    out.append(name.substring_char(0, stem_end));
    assert(name@.subrange(0, name@.len() as int) =~= name@);
    Ok(out)
}

/// `path` with the extension of its last component replaced by `ext`.
pub fn replace_ext(path: &str, ext: &str) -> (r: Result<String, Error>)
    ensures
        file_name(path@).len() == 0 ==> r == Err::<String, Error>(Error::NoBasePath),
        file_name(path@).len() > 0 ==> (r matches Ok(p)
            && p@ == base_of(path@) + stem_of(file_name(path@)) + seq!['.'] + ext@),
{
    let mut out = remove_ext(path)?;
    out.append(".");
    proof {
        reveal_strlit(".");
    }
    out.append(ext);
    Ok(out)
}

/// The extension of the last component of `path`.
pub fn extension(path: &str) -> (r: Option<String>)
    ensures
        match r {
            Some(e) => extension_of(file_name(path@)) == Some(e@),
            None => extension_of(file_name(path@)) is None,
        },
{
    let start = name_start(path);
    let len = path.unicode_len();
    let name = path.substring_char(start, len);
    proof {
        lemma_last_index_range(name@, '.', name@.len() as int);
    }
    match find_last(name, '.') {
        Some(d) => if d > 0 {
            Some(String::from_str(name.substring_char(d + 1, name.unicode_len())))
        } else {
            None
        },
        None => None,
    }
}

} // verus!
