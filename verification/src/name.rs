//! The names of templates: the name of a template is the path of its file
//! from the directory of the templates on, without the extension, with `/`
//! between its parts.
use vstd::prelude::*;
use crate::text::{char_string, slice_chars};

verus! {

/// Whether `c` stands between the parts of a path.
pub open spec fn is_separator(c: char) -> bool {
    c == '/' || c == '\\'
}

/// The index at which the last part of `path` starts: behind its last
/// separator.
pub open spec fn file_start(path: Seq<char>) -> int
    decreases path.len(),
{
    if path.len() == 0 {
        0
    } else if is_separator(path.last()) {
        path.len() as int
    } else {
        file_start(path.drop_last())
    }
}

/// The index of the last `.` of `path` at or behind index `from`.
pub open spec fn last_dot(path: Seq<char>, from: int) -> Option<int>
    decreases path.len(),
{
    if path.len() == 0 || path.len() <= from {
        None
    } else if path.last() == '.' {
        Some(path.len() - 1)
    } else {
        last_dot(path.drop_last(), from)
    }
}

/// The length of `path` without its extension. The extension starts at the
/// last `.` of the last part; a `.` at the start of that part starts none.
pub open spec fn stem_len(path: Seq<char>) -> int {
    match last_dot(path, file_start(path) + 1) {
        Some(dot) => dot,
        None => path.len() as int,
    }
}

/// The index at which the part of `path` behind `directory` starts, where
/// `path` lies in `directory`.
pub open spec fn relative_start(directory: Seq<char>, path: Seq<char>) -> Option<int> {
    if directory.len() == 0 {
        Some(0)
    } else if path.len() < directory.len() || path.subrange(0, directory.len() as int)
        != directory {
        None
    } else if is_separator(directory.last()) {
        Some(directory.len() as int)
    } else if path.len() > directory.len() && is_separator(path[directory.len() as int]) {
        Some(directory.len() as int + 1)
    } else {
        None
    }
}

/// `path` with `/` for each separator.
pub open spec fn forward(path: Seq<char>) -> Seq<char> {
    Seq::new(
        path.len(),
        |i: int|
            if is_separator(path[i]) {
                '/'
            } else {
                path[i]
            },
    )
}

/// The name of the template in the file `path` under `directory`.
pub open spec fn template_name_spec(directory: Seq<char>, path: Seq<char>) -> Option<Seq<char>> {
    match relative_start(directory, path) {
        Some(start) => {
            let rest = path.skip(start);
            Some(forward(rest.take(stem_len(rest))))
        },
        None => None,
    }
}

/// The start of the last part and the last `.` of a path with one more
/// character.
pub proof fn lemma_push_char(path: Seq<char>, c: char)
    ensures
        file_start(path.push(c)) == if is_separator(c) {
            path.len() as int + 1
        } else {
            file_start(path)
        },
        forall|from: int|
            #[trigger] last_dot(path.push(c), from) == if path.len() + 1 <= from {
                None
            } else if c == '.' {
                Some(path.len() as int)
            } else {
                last_dot(path, from)
            },
{
    assert(path.push(c).drop_last() =~= path);
}

/// The last `.` of the last part of a path is in the path, behind the
/// start of that part.
pub proof fn lemma_last_dot(path: Seq<char>, from: int)
    ensures
        last_dot(path, from) matches Some(dot) ==> 0 <= dot && from <= dot < path.len()
            && path[dot] == '.',
    decreases path.len(),
{
    if path.len() > 0 && path.len() > from && path.last() != '.' {
        lemma_last_dot(path.drop_last(), from);
        if let Some(dot) = last_dot(path.drop_last(), from) {
            assert(path.drop_last()[dot] == path[dot]);
        }
    }
}

/// The index at which the part of `path` behind `directory` starts.
fn relative(directory: &str, path: &str) -> (start: Option<usize>)
    ensures
        match relative_start(directory@, path@) {
            Some(expected) => start == Some(expected as usize) && expected <= path@.len(),
            None => start is None,
        },
{
    let length = path.unicode_len();
    let prefix = directory.unicode_len();
    if prefix == 0 {
        return Some(0);
    }
    if length < prefix {
        return None;
    }
    let head = slice_chars(path, 0, prefix);
    assert(head@ =~= path@.subrange(0, prefix as int));
    if head != String::from_str(directory) {
        return None;
    }
    let last = directory.get_char(prefix - 1);
    if last == '/' || last == '\\' {
        return Some(prefix);
    }
    if length == prefix {
        return None;
    }
    let next = path.get_char(prefix);
    if next == '/' || next == '\\' {
        Some(prefix + 1)
    } else {
        None
    }
}

/// The name of the template in the file `path` under `directory`: the
/// path from the directory on, without the extension, with `/` between
/// its parts. A path that does not lie in the directory has no name.
pub fn template_name(directory: &str, path: &str) -> (name: Option<String>)
    ensures
        match template_name_spec(directory@, path@) {
            Some(expected) => name is Some && name->Some_0@ == expected,
            None => name is None,
        },
{
    let length = path.unicode_len();
    let start = match relative(directory, path) {
        Some(start) => start,
        None => {
            return None;
        },
    };
    let ghost rest = path@.skip(start as int);
    let mut file: usize = start;
    let mut dot: Option<usize> = None;
    let mut i: usize = start;
    proof {
        assert(rest.take(0) =~= Seq::<char>::empty());
    }
    while i < length
        invariant
            start <= i <= length,
            length == path@.len(),
            rest == path@.skip(start as int),
            start <= file <= i,
            file - start == file_start(rest.take(i - start)),
            match last_dot(rest.take(i - start), file - start + 1) {
                Some(at) => dot is Some && dot->Some_0 == start + at,
                None => dot is None,
            },
            dot matches Some(at) ==> start <= at < i,
        decreases length - i,
    {
        let c = path.get_char(i);
        proof {
            let seen = rest.take(i - start);
            lemma_push_char(seen, c);
            assert(rest.take(i + 1 - start) =~= seen.push(c));
            lemma_last_dot(seen, file - start + 1);
        }
        if c == '/' || c == '\\' {
            file = i + 1;
            dot = None;
        } else if c == '.' && i > file {
            dot = Some(i);
        }
        i = i + 1;
    }
    proof {
        assert(rest.take(length - start) =~= rest);
        lemma_last_dot(rest, file - start + 1);
    }
    let end = match dot {
        Some(at) => at,
        None => length,
    };
    let ghost stem = rest.take(end - start);
    assert(end - start == stem_len(rest));
    let mut name = String::new();
    let mut j: usize = start;
    while j < end
        invariant
            start <= j <= end <= length,
            length == path@.len(),
            rest == path@.skip(start as int),
            stem == rest.take(end - start),
            name@ == forward(stem).take(j - start),
        decreases end - j,
    {
        let c = path.get_char(j);
        let part = if c == '/' || c == '\\' {
            char_string('/')
        } else {
            char_string(c)
        };
        name.append(part.as_str());
        j = j + 1;
        assert(name@ =~= forward(stem).take(j - start));
    }
    assert(name@ =~= forward(stem));
    Some(name)
}

} // verus!
