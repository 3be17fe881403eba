//! Paths as text: the file name at the end of a path, its extension, and the
//! folder that the extension stands for. Path components are parted by `/`.

use vstd::prelude::*;
use vstd::string::*;

verus! {

/// The folder for files that have no extension.
pub const INDEFINITE_FILE_NAME: &'static str = "indefinite";

/// Where `c` stands last in `s`, or -1 where it does not occur.
pub open spec fn last_index_of(s: Seq<char>, c: char) -> int
    decreases s.len(),
{
    if s.len() == 0 {
        -1
    } else if s.last() == c {
        s.len() - 1
    } else {
        last_index_of(s.drop_last(), c)
    }
}

/// `last_index_of` points at an occurrence of `c`, and none follows it.
pub proof fn lemma_last_index_of(s: Seq<char>, c: char)
    ensures
        -1 <= last_index_of(s, c) < s.len(),
        last_index_of(s, c) >= 0 ==> s[last_index_of(s, c)] == c,
        forall|j: int| last_index_of(s, c) < j < s.len() ==> s[j] != c,
    decreases s.len(),
{
    if s.len() > 0 && s.last() != c {
        let front = s.drop_last();
        lemma_last_index_of(front, c);
        assert forall|j: int| last_index_of(s, c) < j < s.len() implies s[j] != c by {
            if j < front.len() {
                assert(front[j] == s[j]);
            }
        }
        if last_index_of(s, c) >= 0 {
            assert(front[last_index_of(front, c)] == s[last_index_of(s, c)]);
        }
    }
}

/// The part of a path behind its last `/`: the whole path where it has none.
pub open spec fn last_segment(path: Seq<char>) -> Seq<char> {
    path.subrange(last_index_of(path, '/') + 1, path.len() as int)
}

/// The name of the file that a path ends in: its last component, where a
/// `/` at the end and a component `.` at the end do not count. The empty
/// path, a path of nothing but `/` and `.` components, and a path whose last
/// component is `..` name no file.
pub open spec fn file_name_of(path: Seq<char>) -> Option<Seq<char>>
    decreases path.len(),
{
    let name = last_segment(path);
    if path.len() == 0 {
        None
    } else if name.len() == 0 || name == seq!['.'] {
        file_name_of(path.drop_last())
    } else if name == seq!['.', '.'] {
        None
    } else {
        Some(name)
    }
}

/// Whether the file that a path names is hidden. A path that names no file
/// hides nothing.
pub open spec fn names_hidden(path: Seq<char>) -> bool {
    match file_name_of(path) {
        Some(name) => is_hidden(name),
        None => false,
    }
}

/// What follows the last `.` of a file name. A name without `.`, and one whose
/// only `.` is its first character, have no extension.
pub open spec fn extension_of(name: Seq<char>) -> Option<Seq<char>> {
    let dot = last_index_of(name, '.');
    if dot <= 0 {
        None
    } else {
        Some(name.subrange(dot + 1, name.len() as int))
    }
}

/// The folder that a file of this name belongs in: its extension, as it is
/// written, or `indefinite` where it has none.
pub open spec fn bucket_of(name: Seq<char>) -> Seq<char> {
    match extension_of(name) {
        Some(extension) => extension,
        None => INDEFINITE_FILE_NAME@,
    }
}

/// Whether a file of this name is hidden: its name starts with `.`.
pub open spec fn is_hidden(name: Seq<char>) -> bool {
    name.len() > 0 && name[0] == '.'
}

/// The path of `name` inside the directory `dir`.
pub open spec fn joined(dir: Seq<char>, name: Seq<char>) -> Seq<char> {
    dir + seq!['/'] + name
}

/// Whether `name` can be the last component of a path: it is not empty, holds
/// no `/`, and is neither `.` nor `..`.
pub open spec fn is_plain_name(name: Seq<char>) -> bool {
    &&& name.len() > 0
    &&& !name.contains('/')
    &&& name != seq!['.']
    &&& name != seq!['.', '.']
}

/// A name that holds no `.` belongs in the folder `indefinite`.
pub proof fn lemma_no_dot_is_indefinite(name: Seq<char>)
    requires
        !name.contains('.'),
    ensures
        extension_of(name) is None,
        bucket_of(name) == INDEFINITE_FILE_NAME@,
{
    lemma_last_index_of(name, '.');
    let dot = last_index_of(name, '.');
    if dot >= 0 {
        assert(name.contains(name[dot]));
    }
}

/// Joining a plain name to a directory and taking the file name again gives
/// the name back.
pub proof fn lemma_file_name_of_joined(dir: Seq<char>, name: Seq<char>)
    requires
        is_plain_name(name),
    ensures
        file_name_of(joined(dir, name)) == Some(name),
{
    let path = joined(dir, name);
    let slash = last_index_of(path, '/');
    lemma_last_index_of(path, '/');
    assert(path[dir.len() as int] == '/');
    if slash > dir.len() {
        assert(path[slash] == name[slash - dir.len() - 1]);
        assert(name.contains(name[slash - dir.len() - 1]));
    }
    assert(slash == dir.len());
    assert(last_segment(path) =~= name);
}

/// Finds the last occurrence of a character.
fn rfind(text: &str, c: char) -> (at: Option<usize>)
    ensures
        match at {
            Some(i) => i as int == last_index_of(text@, c) && i < text@.len(),
            None => last_index_of(text@, c) == -1,
        },
{
    let n: usize = text.unicode_len();
    let mut i: usize = n;
    proof {
        lemma_last_index_of(text@, c);
    }
    while i > 0
        invariant
            n == text@.len(),
            i <= n,
            forall|j: int| i <= j < n ==> text@[j] != c,
        decreases i,
    {
        i = i - 1;
        if text.get_char(i) == c {
            proof {
                lemma_last_index_of(text@, c);
            }
            return Some(i);
        }
    }
    proof {
        lemma_last_index_of(text@, c);
    }
    None
}

/// The name of the file that `path` ends in, if it names one.
pub fn file_name(path: &String) -> (name: Option<String>)
    ensures
        match name {
            Some(n) => file_name_of(path@) == Some(n@),
            None => file_name_of(path@) is None,
        },
{
    let text: &str = path.as_str();
    let mut end: usize = text.unicode_len();
    assert(path@.subrange(0, end as int) =~= path@);
    while end > 0
        invariant
            text@ == path@,
            end <= path@.len(),
            file_name_of(path@) == file_name_of(path@.subrange(0, end as int)),
        decreases end,
    {
        let front: &str = text.substring_char(0, end);
        let start: usize = match rfind(front, '/') {
            Some(i) => i + 1,
            None => 0,
        };
        let len: usize = end - start;
        let ghost name = last_segment(front@);
        proof {
            assert(name.len() == len);
            assert(len > 0 ==> name[0] == front@[start as int]);
            assert(len > 1 ==> name[1] == front@[start + 1]);
            assert(seq!['.'].len() == 1 && seq!['.'][0] == '.');
            assert(seq!['.', '.'].len() == 2 && seq!['.', '.'][0] == '.' && seq!['.', '.'][1]
                == '.');
        }
        if len == 0 || (len == 1 && front.get_char(start) == '.') {
            proof {
                if len == 1 {
                    assert(name =~= seq!['.']);
                }
                assert(front@.drop_last() =~= path@.subrange(0, end - 1));
            }
            end = end - 1;
        } else if len == 2 && front.get_char(start) == '.' && front.get_char(start + 1) == '.' {
            assert(name =~= seq!['.', '.']);
            return None;
        } else {
            return Some(String::from_str(front.substring_char(start, end)));
        }
    }
    None
}

/// Whether the file that `path` names is hidden.
pub fn hidden_file(path: &String) -> (yes: bool)
    ensures
        yes == names_hidden(path@),
{
    match file_name(path) {
        Some(name) => hidden(&name),
        None => false,
    }
}

/// The extension of a file name, if it has one.
pub fn extension(name: &String) -> (ext: Option<String>)
    ensures
        match ext {
            Some(e) => extension_of(name@) == Some(e@),
            None => extension_of(name@) is None,
        },
{
    let text: &str = name.as_str();
    let n: usize = text.unicode_len();
    match rfind(text, '.') {
        None => None,
        Some(dot) => {
            if dot == 0 {
                None
            } else {
                Some(String::from_str(text.substring_char(dot + 1, n)))
            }
        },
    }
}

/// The folder that a file of this name belongs in.
pub fn bucket(name: &String) -> (folder: String)
    ensures
        folder@ == bucket_of(name@),
{
    match extension(name) {
        Some(ext) => ext,
        None => String::from_str(INDEFINITE_FILE_NAME),
    }
}

/// Whether a file of this name is hidden.
pub fn hidden(name: &String) -> (yes: bool)
    ensures
        yes == is_hidden(name@),
{
    let text: &str = name.as_str();
    text.unicode_len() > 0 && text.get_char(0) == '.'
}

/// The path of `name` inside the directory `dir`.
pub fn join(dir: &String, name: &String) -> (path: String)
    ensures
        path@ == joined(dir@, name@),
{
    let mut path = dir.clone();
    proof {
        reveal_strlit("/");
    }
    path.append("/");
    path.append(name.as_str());
    assert(path@ =~= joined(dir@, name@));
    path
}

} // verus!
