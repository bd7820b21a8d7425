//! A directory as the library sees it: the entries that were read from it,
//! each with what is known of it. The library never touches the file system;
//! its caller reads the directories and hands over what it has read.

use crate::names::{clean, clean_name};
use crate::text::{chars_of, same_str, starts_with, string_of};
use vstd::prelude::*;

verus! {

/// What kind of thing an entry of a directory is.
#[derive(Debug, Clone, Copy, PartialEq, Eq, Structural)]
pub enum EntryKind {
    Directory,
    File,
    Other,
}

/// One entry of a directory.
///
/// For a file, `text` is its content where it could be read, and
/// `executable` says whether it may be run. For a directory, `entries` is its
/// own listing, as far as it was read.
#[derive(Debug, PartialEq)]
pub struct Entry {
    pub name: String,
    pub kind: EntryKind,
    pub executable: bool,
    pub text: Option<String>,
    pub entries: Vec<Entry>,
}

/// How a name is matched against the entries of a directory.
#[derive(Debug, Clone, Copy, PartialEq, Eq, Structural)]
pub enum Match {
    /// An entry of that name.
    Name,
    /// A directory of that name.
    Directory,
    /// An executable file of that name.
    Script,
    /// An executable file whose name without the script extension is that
    /// name.
    CleanName,
    /// Anything but a directory whose name begins with that name.
    Prefix,
}

/// Whether a name begins with a dot, which hides the entry from listings.
pub open spec fn is_hidden(name: Seq<char>) -> bool {
    name.len() > 0 && name[0] == '.'
}

/// The path of the entry `name` in the directory at `dir`.
pub open spec fn join_path(dir: Seq<char>, name: Seq<char>) -> Seq<char> {
    if dir.len() == 0 {
        name
    } else if dir[dir.len() - 1] == '/' {
        dir + name
    } else {
        dir + seq!['/'] + name
    }
}

/// Whether `entry` is what `name` asks for.
pub open spec fn accepts(how: Match, name: Seq<char>, entry: Entry) -> bool {
    match how {
        Match::Name => entry.name@ == name,
        Match::Directory => entry.kind == EntryKind::Directory && entry.name@ == name,
        Match::Script => entry.kind == EntryKind::File && entry.executable && entry.name@ == name,
        Match::CleanName => entry.kind == EntryKind::File && entry.executable && clean_name(
            entry.name@,
        ) == name,
        Match::Prefix => entry.kind != EntryKind::Directory && name.is_prefix_of(entry.name@),
    }
}

/// The position of the first entry that `name` asks for.
pub open spec fn first_match(entries: Seq<Entry>, how: Match, name: Seq<char>) -> Option<int>
    decreases entries.len(),
{
    if entries.len() == 0 {
        None
    } else if accepts(how, name, entries[0]) {
        Some(0)
    } else {
        match first_match(entries.skip(1), how, name) {
            Some(i) => Some(i + 1),
            None => None,
        }
    }
}

/// Whether `i` is the position of the first entry that `name` asks for.
pub open spec fn is_first_match(entries: Seq<Entry>, how: Match, name: Seq<char>, i: int) -> bool {
    &&& 0 <= i < entries.len()
    &&& accepts(how, name, entries[i])
    &&& forall|j: int| 0 <= j < i ==> !accepts(how, name, #[trigger] entries[j])
}

/// `first_match` gives the first entry that is accepted, and nothing only
/// where none is.
pub proof fn lemma_first_match(entries: Seq<Entry>, how: Match, name: Seq<char>)
    ensures
        match first_match(entries, how, name) {
            Some(i) => is_first_match(entries, how, name, i),
            None => forall|j: int|
                0 <= j < entries.len() ==> !accepts(how, name, #[trigger] entries[j]),
        },
    decreases entries.len(),
{
    if entries.len() > 0 && !accepts(how, name, entries[0]) {
        let rest = entries.skip(1);
        lemma_first_match(rest, how, name);
        assert forall|j: int| 0 < j < entries.len() implies entries[j] == rest[j - 1] by {}
        match first_match(rest, how, name) {
            Some(i) => {
                assert(entries[i + 1] == rest[i]);
                assert forall|j: int| 0 <= j < i + 1 implies !accepts(
                    how,
                    name,
                    #[trigger] entries[j],
                ) by {
                    if j > 0 {
                        assert(entries[j] == rest[j - 1]);
                    }
                }
            },
            None => {
                assert forall|j: int| 0 <= j < entries.len() implies !accepts(
                    how,
                    name,
                    #[trigger] entries[j],
                ) by {
                    if j > 0 {
                        assert(entries[j] == rest[j - 1]);
                    }
                }
            },
        }
    }
}

/// The first entry that is accepted is what `first_match` gives.
pub proof fn lemma_first_match_is(entries: Seq<Entry>, how: Match, name: Seq<char>, i: int)
    requires
        is_first_match(entries, how, name, i),
    ensures
        first_match(entries, how, name) == Some(i),
{
    lemma_first_match(entries, how, name);
}

/// Tells whether a name begins with a dot.
pub fn hidden(name: &str) -> (r: bool)
    ensures
        r == is_hidden(name@),
{
    let v = chars_of(name);
    v.len() > 0 && v[0] == '.'
}

/// The path of the entry `name` in the directory at `dir`.
pub fn path_in(dir: &str, name: &str) -> (r: String)
    ensures
        r@ == join_path(dir@, name@),
{
    let mut path = chars_of(dir);
    let n = path.len();
    if n > 0 && path[n - 1] != '/' {
        path.push('/');
    }
    let ghost base = path@;
    let tail = chars_of(name);
    let mut i: usize = 0;
    while i < tail.len()
        invariant
            i <= tail.len(),
            path@ == base + tail@.take(i as int),
        decreases tail.len() - i,
    {
        path.push(tail[i]);
        assert(tail@.take(i + 1) =~= tail@.take(i as int).push(tail@[i as int]));
        i += 1;
    }
    proof {
        assert(tail@.take(tail.len() as int) =~= tail@);
        if n == 0 {
            assert(path@ =~= name@);
        }
    }
    string_of(&path)
}

/// Tells whether `entry` is what `name` asks for.
pub fn entry_matches(how: Match, name: &str, entry: &Entry) -> (r: bool)
    ensures
        r == accepts(how, name@, *entry),
{
    match how {
        Match::Name => same_str(entry.name.as_str(), name),
        Match::Directory => entry.kind == EntryKind::Directory && same_str(
            entry.name.as_str(),
            name,
        ),
        Match::Script => entry.kind == EntryKind::File && entry.executable && same_str(
            entry.name.as_str(),
            name,
        ),
        Match::CleanName => entry.kind == EntryKind::File && entry.executable && same_str(
            clean(entry.name.as_str()).as_str(),
            name,
        ),
        Match::Prefix => entry.kind != EntryKind::Directory && starts_with(
            &chars_of(entry.name.as_str()),
            &chars_of(name),
        ),
    }
}

/// Finds the first entry that `name` asks for.
pub fn find_entry(entries: &Vec<Entry>, how: Match, name: &str) -> (r: Option<usize>)
    ensures
        match r {
            Some(i) => first_match(entries@, how, name@) == Some(i as int) && i < entries.len(),
            None => first_match(entries@, how, name@) is None,
        },
{
    let mut i: usize = 0;
    while i < entries.len()
        invariant
            i <= entries.len(),
            forall|j: int| 0 <= j < i ==> !accepts(how, name@, #[trigger] entries@[j]),
        decreases entries.len() - i,
    {
        if entry_matches(how, name, &entries[i]) {
            proof {
                lemma_first_match_is(entries@, how, name@, i as int);
            }
            return Some(i);
        }
        i += 1;
    }
    proof {
        lemma_first_match(entries@, how, name@);
    }
    None
}

} // verus!
