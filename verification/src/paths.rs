//! Paths as lists of components, the file name a path text ends in, and
//! the parts of a file name: its stem and its extension.
use vstd::prelude::*;
use crate::strings::{chars_of, string_from_range, views};

verus! {

/// Position of the last `.` in a name.
pub open spec fn last_dot(s: Seq<char>) -> Option<int>
    decreases s.len(),
{
    if s.len() == 0 {
        None
    } else if s.last() == '.' {
        Some(s.len() - 1)
    } else {
        last_dot(s.drop_last())
    }
}

/// The stem of a file name (one component), as `Path::file_stem` gives it:
/// the name up to its last `.`, unless that dot starts the name (or the name
/// is `..`).
pub open spec fn stem_of(name: Seq<char>) -> Seq<char> {
    if name == seq!['.', '.'] {
        name
    } else {
        match last_dot(name) {
            Some(k) => if k > 0 {
                name.take(k)
            } else {
                name
            },
            None => name,
        }
    }
}

/// The extension of a file name (one component), as `Path::extension` gives
/// it: the text after its last `.`, when that dot does not start the name.
pub open spec fn extension_of(name: Seq<char>) -> Option<Seq<char>> {
    if name == seq!['.', '.'] {
        None
    } else {
        match last_dot(name) {
            Some(k) => if k > 0 {
                Some(name.skip(k + 1))
            } else {
                None
            },
            None => None,
        }
    }
}

/// Position of the last `/` in a path text.
pub open spec fn last_slash(s: Seq<char>) -> Option<int>
    decreases s.len(),
{
    if s.len() == 0 {
        None
    } else if s.last() == '/' {
        Some(s.len() - 1)
    } else {
        last_slash(s.drop_last())
    }
}

/// The last component of a path text that is neither empty nor `.`, with
/// `/` between components.
pub open spec fn last_component(s: Seq<char>) -> Option<Seq<char>>
    decreases s.len(),
{
    match last_slash(s) {
        None => if s.len() > 0 && s != "."@ {
            Some(s)
        } else {
            None
        },
        Some(k) => {
            let tail = s.skip(k + 1);
            if tail.len() > 0 && tail != "."@ {
                Some(tail)
            } else {
                proof {
                    lemma_last_slash(s);
                }
                last_component(s.take(k))
            }
        },
    }
}

/// The file name a path text ends in, as `Path::file_name` gives it: its
/// last component, unless the path ends in a root, `.` or `..`.
pub open spec fn path_file_name(s: Seq<char>) -> Option<Seq<char>> {
    match last_component(s) {
        Some(c) => if c == ".."@ {
            None
        } else {
            Some(c)
        },
        None => None,
    }
}

/// The stem of the file a path text names, as `Path::file_stem` gives it.
pub open spec fn path_stem(s: Seq<char>) -> Option<Seq<char>> {
    match path_file_name(s) {
        Some(n) => Some(stem_of(n)),
        None => None,
    }
}

/// The extension of the file a path text names, as `Path::extension` gives
/// it.
pub open spec fn path_extension(s: Seq<char>) -> Option<Seq<char>> {
    match path_file_name(s) {
        Some(n) => extension_of(n),
        None => None,
    }
}

pub proof fn lemma_last_slash(s: Seq<char>)
    ensures
        last_slash(s) matches Some(k) ==> 0 <= k < s.len() && s[k] == '/' && forall|j: int|
            k < j < s.len() ==> s[j] != '/',
        last_slash(s) is None ==> forall|j: int| 0 <= j < s.len() ==> s[j] != '/',
    decreases s.len(),
{
    if s.len() > 0 {
        lemma_last_slash(s.drop_last());
        assert(forall|j: int| 0 <= j < s.len() - 1 ==> s.drop_last()[j] == s[j]);
    }
}

/// Position of the last `/` among the first `end` characters.
fn find_last_slash(chars: &Vec<char>, end: usize) -> (r: Option<usize>)
    requires
        end <= chars.len(),
    ensures
        match last_slash(chars@.take(end as int)) {
            Some(k) => r == Some(k as usize),
            None => r is None,
        },
{
    let mut i = end;
    while i > 0
        invariant
            i <= end <= chars.len(),
            last_slash(chars@.take(end as int)) == last_slash(chars@.take(i as int)),
        decreases i,
    {
        assert(chars@.take(i as int).drop_last() == chars@.take(i - 1));
        if chars[i - 1] == '/' {
            return Some(i - 1);
        }
        i = i - 1;
    }
    None
}

fn is_text(chars: &Vec<char>, from: usize, to: usize, text: &Vec<char>) -> (r: bool)
    requires
        from <= to <= chars.len(),
    ensures
        r == (chars@.subrange(from as int, to as int) == text@),
{
    if to - from != text.len() {
        assert(chars@.subrange(from as int, to as int).len() != text@.len());
        return false;
    }
    let mut i: usize = 0;
    while i < text.len()
        invariant
            i <= text.len(),
            to - from == text.len(),
            from <= to <= chars.len(),
            forall|k: int| 0 <= k < i ==> chars@[from + k] == text@[k],
        decreases text.len() - i,
    {
        if chars[from + i] != text[i] {
            assert(chars@.subrange(from as int, to as int)[i as int] != text@[i as int]);
            return false;
        }
        i = i + 1;
    }
    assert(chars@.subrange(from as int, to as int) =~= text@);
    true
}

/// The file name a path text ends in.
pub fn path_file_name_of(path: &str) -> (r: Option<String>)
    ensures
        match path_file_name(path@) {
            Some(n) => r matches Some(x) && x@ == n,
            None => r is None,
        },
{
    let chars = chars_of(path);
    let dot = vec!['.'];
    let dots = vec!['.', '.'];
    proof {
        reveal_strlit(".");
        reveal_strlit("..");
        assert(dot@ =~= "."@);
        assert(dots@ =~= ".."@);
    }
    let mut end = chars.len();
    assert(chars@.take(end as int) == chars@);
    loop
        invariant
            end <= chars.len(),
            dot@ == "."@,
            dots@ == ".."@,
            chars@ == path@,
            last_component(chars@) == last_component(chars@.take(end as int)),
        decreases end,
    {
        let found = find_last_slash(&chars, end);
        proof {
            lemma_last_slash(chars@.take(end as int));
        }
        let start = match found {
            Some(k) => k + 1,
            None => 0,
        };
        let ghost piece = chars@.take(end as int).skip(start as int);
        assert(piece == chars@.subrange(start as int, end as int));
        let ghost prefix = chars@.take(end as int);
        proof {
            if found is None {
                assert(prefix.skip(0) == prefix);
            }
        }
        if start < end && !is_text(&chars, start, end, &dot) {
            assert(last_component(prefix) == Some(piece));
            if is_text(&chars, start, end, &dots) {
                return None;
            }
            return Some(string_from_range(&chars, start, end));
        }
        match found {
            Some(k) => {
                assert(chars@.take(end as int).take(k as int) == chars@.take(k as int));
                end = k;
            },
            None => {
                return None;
            },
        }
    }
}

/// The stem of the file a path text names.
pub fn path_file_stem(path: &str) -> (r: Option<String>)
    ensures
        match path_stem(path@) {
            Some(n) => r matches Some(x) && x@ == n,
            None => r is None,
        },
{
    match path_file_name_of(path) {
        Some(name) => Some(file_stem(name.as_str())),
        None => None,
    }
}

/// The extension of the file a path text names.
pub fn path_file_extension(path: &str) -> (r: Option<String>)
    ensures
        match path_extension(path@) {
            Some(e) => r matches Some(x) && x@ == e,
            None => r is None,
        },
{
    match path_file_name_of(path) {
        Some(name) => file_extension(name.as_str()),
        None => None,
    }
}

/// ASCII lower case of a character, as `char::to_ascii_lowercase` gives it.
pub open spec fn ascii_lower(c: char) -> char {
    if 'A' <= c && c <= 'Z' {
        ((c as u32) + 32) as char
    } else {
        c
    }
}

pub open spec fn ascii_lowercase(s: Seq<char>) -> Seq<char> {
    s.map_values(|c: char| ascii_lower(c))
}

pub proof fn lemma_last_dot(s: Seq<char>)
    ensures
        last_dot(s) matches Some(k) ==> 0 <= k < s.len() && s[k] == '.' && forall|j: int|
            k < j < s.len() ==> s[j] != '.',
        last_dot(s) is None ==> forall|j: int| 0 <= j < s.len() ==> s[j] != '.',
    decreases s.len(),
{
    if s.len() > 0 {
        lemma_last_dot(s.drop_last());
        assert(forall|j: int| 0 <= j < s.len() - 1 ==> s.drop_last()[j] == s[j]);
    }
}

/// Position of the last `.` of a name.
pub fn find_last_dot(chars: &Vec<char>) -> (r: Option<usize>)
    ensures
        match last_dot(chars@) {
            Some(k) => r == Some(k as usize),
            None => r is None,
        },
{
    let mut i = chars.len();
    assert(chars@.take(i as int) == chars@);
    while i > 0
        invariant
            i <= chars.len(),
            last_dot(chars@) == last_dot(chars@.take(i as int)),
        decreases i,
    {
        assert(chars@.take(i as int).drop_last() == chars@.take(i - 1));
        if chars[i - 1] == '.' {
            return Some(i - 1);
        }
        i = i - 1;
    }
    None
}

fn is_dot_dot(chars: &Vec<char>) -> (r: bool)
    ensures
        r == (chars@ == seq!['.', '.']),
{
    let r = chars.len() == 2 && chars[0] == '.' && chars[1] == '.';
    if r {
        assert(chars@ =~= seq!['.', '.']);
    }
    r
}

/// The stem of a file name.
pub fn file_stem(name: &str) -> (r: String)
    ensures
        r@ == stem_of(name@),
{
    let chars = chars_of(name);
    if is_dot_dot(&chars) {
        return String::from_str(name);
    }
    proof {
        lemma_last_dot(chars@);
    }
    match find_last_dot(&chars) {
        Some(k) => if k > 0 {
            assert(chars@.subrange(0, k as int) == chars@.take(k as int));
            string_from_range(&chars, 0, k)
        } else {
            String::from_str(name)
        },
        None => String::from_str(name),
    }
}

/// The extension of a file name.
pub fn file_extension(name: &str) -> (r: Option<String>)
    ensures
        match extension_of(name@) {
            Some(e) => r is Some && r->0@ == e,
            None => r is None,
        },
{
    let chars = chars_of(name);
    if is_dot_dot(&chars) {
        return None;
    }
    proof {
        lemma_last_dot(chars@);
    }
    let found = find_last_dot(&chars);
    if let Some(k) = found {
        if k > 0 {
            let e = string_from_range(&chars, k + 1, chars.len());
            assert(e@ == name@.skip(k + 1));
            return Some(e);
        }
    }
    None
}

pub fn to_ascii_lowercase_char(c: char) -> (r: char)
    ensures
        r == ascii_lower(c),
{
    if 'A' <= c && c <= 'Z' {
        ((c as u8) + 32) as char
    } else {
        c
    }
}

/// The text in ASCII lower case, as `str::to_ascii_lowercase` gives it.
pub fn to_ascii_lowercase(text: &str) -> (r: String)
    ensures
        r@ == ascii_lowercase(text@),
{
    let chars = chars_of(text);
    let mut r = String::new();
    let mut i: usize = 0;
    while i < chars.len()
        invariant
            i <= chars.len(),
            r@ =~= ascii_lowercase(chars@.take(i as int)),
        decreases chars.len() - i,
    {
        r.push(to_ascii_lowercase_char(chars[i]));
        i = i + 1;
    }
    assert(chars@.take(chars.len() as int) == chars@);
    r
}

/// A copy of a path's components.
pub fn copy_parts(parts: &Vec<String>) -> (r: Vec<String>)
    ensures
        views(r@) == views(parts@),
{
    let mut r: Vec<String> = Vec::new();
    let mut i: usize = 0;
    while i < parts.len()
        invariant
            i <= parts.len(),
            views(r@) =~= views(parts@).take(i as int),
        decreases parts.len() - i,
    {
        let ghost prev = r@;
        let part = String::from_str(parts[i].as_str());
        r.push(part);
        assert(views(r@) =~= views(prev).push(part@));
        i = i + 1;
    }
    r
}

/// The path with one more component, as `Path::join` with a plain name.
pub fn join_part(parts: &Vec<String>, name: &str) -> (r: Vec<String>)
    ensures
        views(r@) == views(parts@).push(name@),
{
    let mut r = copy_parts(parts);
    let ghost prev = r@;
    let part = String::from_str(name);
    r.push(part);
    assert(views(r@) =~= views(prev).push(name@));
    r
}

} // verus!
