//! Command names for the files of one directory: a file is called by its
//! name without the script extension, unless that name is taken twice.

use crate::text::{chars_of, ends_with, lemma_views_push, slice, string_of, views};
use vstd::prelude::*;

verus! {

/// `name` without `extension` at its end.
pub open spec fn without_suffix(name: Seq<char>, extension: Seq<char>) -> Seq<char> {
    name.take(name.len() - extension.len())
}

/// The name of a file without its script extension: one trailing `.sh`,
/// `.py`, `.rb` or `.js` is taken off; any other name stays as it is.
pub open spec fn clean_name(name: Seq<char>) -> Seq<char> {
    if ".sh"@.is_suffix_of(name) {
        without_suffix(name, ".sh"@)
    } else if ".py"@.is_suffix_of(name) {
        without_suffix(name, ".py"@)
    } else if ".rb"@.is_suffix_of(name) {
        without_suffix(name, ".rb"@)
    } else if ".js"@.is_suffix_of(name) {
        without_suffix(name, ".js"@)
    } else {
        name
    }
}

/// Whether the clean name of the file at `i` is taken by another entry of
/// the directory: by a subdirectory, or by another file.
pub open spec fn collides(dirs: Seq<Seq<char>>, files: Seq<Seq<char>>, i: int) -> bool {
    let name = clean_name(files[i]);
    dirs.contains(name) || exists|j: int|
        0 <= j < files.len() && j != i && clean_name(#[trigger] files[j]) == name
}

/// The name under which the file at `i` is listed: its clean name, or its
/// full name where the clean name collides.
pub open spec fn display_name(dirs: Seq<Seq<char>>, files: Seq<Seq<char>>, i: int) -> Seq<char> {
    if collides(dirs, files, i) {
        files[i]
    } else {
        clean_name(files[i])
    }
}

/// The names under which the files are listed, in their order.
pub open spec fn display_names(dirs: Seq<Seq<char>>, files: Seq<Seq<char>>) -> Seq<Seq<char>> {
    Seq::new(files.len(), |i: int| display_name(dirs, files, i))
}

/// A file whose clean name no other entry shares is listed under its clean
/// name.
pub proof fn unique_file_keeps_clean_name(dirs: Seq<Seq<char>>, files: Seq<Seq<char>>, i: int)
    requires
        0 <= i < files.len(),
        !dirs.contains(clean_name(files[i])),
        forall|j: int| 0 <= j < files.len() && j != i ==> clean_name(files[j]) != clean_name(files[i]),
    ensures
        display_names(dirs, files)[i] == clean_name(files[i]),
{
}

/// Two files that share a clean name are both listed under their full
/// names.
pub proof fn colliding_files_keep_full_names(
    dirs: Seq<Seq<char>>,
    files: Seq<Seq<char>>,
    i: int,
    j: int,
)
    requires
        0 <= i < files.len(),
        0 <= j < files.len(),
        i != j,
        clean_name(files[i]) == clean_name(files[j]),
    ensures
        display_names(dirs, files)[i] == files[i],
        display_names(dirs, files)[j] == files[j],
{
    assert(collides(dirs, files, i));
    assert(collides(dirs, files, j));
}

/// A file whose clean name is the name of a subdirectory is listed under its
/// full name.
pub proof fn file_beside_directory_keeps_full_name(
    dirs: Seq<Seq<char>>,
    files: Seq<Seq<char>>,
    i: int,
)
    requires
        0 <= i < files.len(),
        dirs.contains(clean_name(files[i])),
    ensures
        display_names(dirs, files)[i] == files[i],
{
}

/// Takes the script extension off a file name.
pub fn clean(name: &str) -> (r: String)
    ensures
        r@ == clean_name(name@),
{
    let v = chars_of(name);
    let sh = chars_of(".sh");
    let py = chars_of(".py");
    let rb = chars_of(".rb");
    let js = chars_of(".js");
    let cut = if ends_with(&v, &sh) {
        sh.len()
    } else if ends_with(&v, &py) {
        py.len()
    } else if ends_with(&v, &rb) {
        rb.len()
    } else if ends_with(&v, &js) {
        js.len()
    } else {
        0
    };
    let kept = slice(&v, 0, v.len() - cut);
    assert(kept@ =~= v@.take(v.len() - cut));
    assert(v@.take(v.len() as int) =~= v@);
    string_of(&kept)
}

/// Whether `list` holds `name`.
pub fn holds(list: &Vec<String>, name: &String) -> (r: bool)
    ensures
        r == views(list@).contains(name@),
{
    let mut i: usize = 0;
    while i < list.len()
        invariant
            i <= list.len(),
            forall|k: int| 0 <= k < i ==> views(list@)[k] != name@,
        decreases list.len() - i,
    {
        if list[i] == *name {
            assert(views(list@)[i as int] == name@);
            return true;
        }
        i += 1;
    }
    false
}

/// The clean names of the given files.
fn clean_names(files: &Vec<String>) -> (r: Vec<String>)
    ensures
        r.len() == files.len(),
        forall|k: int| 0 <= k < files.len() ==> r@[k]@ == clean_name(#[trigger] files@[k]@),
{
    let mut r: Vec<String> = Vec::new();
    let mut i: usize = 0;
    while i < files.len()
        invariant
            i <= files.len(),
            r.len() == i,
            forall|k: int| 0 <= k < i ==> r@[k]@ == clean_name(#[trigger] files@[k]@),
        decreases files.len() - i,
    {
        r.push(clean(files[i].as_str()));
        i += 1;
    }
    r
}

/// Whether one of the first `i` files has the clean name `x`.
pub open spec fn seen_before(files: Seq<Seq<char>>, i: int, x: Seq<char>) -> bool {
    exists|j: int| 0 <= j < i && j < files.len() && clean_name(#[trigger] files[j]) == x
}

/// Whether one of the first `i` files has the clean name `x` and found it
/// taken: by a subdirectory, or by a file before it.
pub open spec fn clashed(dirs: Seq<Seq<char>>, files: Seq<Seq<char>>, i: int, x: Seq<char>) -> bool {
    exists|j: int|
        0 <= j < i && j < files.len() && clean_name(#[trigger] files[j]) == x && (dirs.contains(x)
            || seen_before(files, j, x))
}

proof fn lemma_seen_step(files: Seq<Seq<char>>, i: int, x: Seq<char>)
    requires
        0 <= i < files.len(),
    ensures
        seen_before(files, i + 1, x) <==> (seen_before(files, i, x) || clean_name(files[i]) == x),
{
    if seen_before(files, i + 1, x) {
        let j = choose|j: int| 0 <= j < i + 1 && j < files.len() && clean_name(#[trigger] files[j]) == x;
        if j < i {
            assert(seen_before(files, i, x));
        }
    }
    if seen_before(files, i, x) {
        let j = choose|j: int| 0 <= j < i && j < files.len() && clean_name(#[trigger] files[j]) == x;
        assert(0 <= j < i + 1 && clean_name(files[j]) == x);
    }
    if clean_name(files[i]) == x {
        assert(0 <= i < i + 1 && clean_name(files[i]) == x);
    }
}

proof fn lemma_clashed_step(dirs: Seq<Seq<char>>, files: Seq<Seq<char>>, i: int, x: Seq<char>)
    requires
        0 <= i < files.len(),
    ensures
        clashed(dirs, files, i + 1, x) <==> (clashed(dirs, files, i, x) || (clean_name(files[i])
            == x && (dirs.contains(x) || seen_before(files, i, x)))),
{
    if clashed(dirs, files, i + 1, x) {
        let j = choose|j: int|
            0 <= j < i + 1 && j < files.len() && clean_name(#[trigger] files[j]) == x && (
            dirs.contains(x) || seen_before(files, j, x));
        if j < i {
            assert(clashed(dirs, files, i, x));
        }
    }
    if clashed(dirs, files, i, x) {
        let j = choose|j: int|
            0 <= j < i && j < files.len() && clean_name(#[trigger] files[j]) == x && (
            dirs.contains(x) || seen_before(files, j, x));
        assert(0 <= j < i + 1 && clean_name(files[j]) == x);
    }
    if clean_name(files[i]) == x && (dirs.contains(x) || seen_before(files, i, x)) {
        assert(0 <= i < i + 1 && clean_name(files[i]) == x);
    }
}

/// A clean name has clashed, all files read, exactly where it collides.
proof fn lemma_clashed_is_collides(dirs: Seq<Seq<char>>, files: Seq<Seq<char>>, i: int)
    requires
        0 <= i < files.len(),
    ensures
        clashed(dirs, files, files.len() as int, clean_name(files[i])) <==> collides(dirs, files, i),
{
    let x = clean_name(files[i]);
    let n = files.len() as int;
    if clashed(dirs, files, n, x) {
        let j = choose|j: int|
            0 <= j < n && j < files.len() && clean_name(#[trigger] files[j]) == x && (
            dirs.contains(x) || seen_before(files, j, x));
        if !dirs.contains(x) {
            let h = choose|h: int| 0 <= h < j && h < files.len() && clean_name(#[trigger] files[h]) == x;
            if j != i {
                assert(0 <= j < files.len() && j != i && clean_name(files[j]) == x);
            } else {
                assert(0 <= h < files.len() && h != i && clean_name(files[h]) == x);
            }
        }
    }
    if collides(dirs, files, i) {
        if dirs.contains(x) {
            assert(0 <= i < n && clean_name(files[i]) == x);
        } else {
            let j = choose|j: int| 0 <= j < files.len() && j != i && clean_name(#[trigger] files[j]) == x;
            if j < i {
                assert(0 <= j < i && clean_name(files[j]) == x);
                assert(seen_before(files, i, x));
                assert(0 <= i < n && clean_name(files[i]) == x);
            } else {
                assert(0 <= i < j && clean_name(files[i]) == x);
                assert(seen_before(files, j, x));
                assert(0 <= j < n && clean_name(files[j]) == x);
            }
        }
    }
}

/// A list with one more name holds what it held before, and that name.
proof fn lemma_holds_push(list: Seq<String>, name: String, x: Seq<char>)
    ensures
        views(list.push(name)).contains(x) <==> (views(list).contains(x) || name@ == x),
{
    let before = views(list);
    let after = views(list.push(name));
    lemma_views_push(list, name);
    if after.contains(x) {
        let k = choose|k: int| 0 <= k < after.len() && after[k] == x;
        if k < before.len() {
            assert(before[k] == x);
        }
    }
    if before.contains(x) {
        let k = choose|k: int| 0 <= k < before.len() && before[k] == x;
        assert(after[k] == x);
    }
    if name@ == x {
        assert(after[after.len() - 1] == x);
    }
}

/// Gives each file of a directory the name under which it is listed.
/// `dirs` holds the names of the subdirectories, which keep their names;
/// `files` the names of the files, in the order of the listing.
pub fn resolve_names(dirs: &Vec<String>, files: &Vec<String>) -> (r: Vec<String>)
    ensures
        views(r@) == display_names(views(dirs@), views(files@)),
{
    let ghost d = views(dirs@);
    let ghost f = views(files@);
    let cleaned = clean_names(files);
    // First pass: note each clean name that is met when it is already taken.
    let mut used: Vec<String> = dirs.clone();
    let mut collided: Vec<String> = Vec::new();
    assert(views(used@) =~= d);
    let mut i: usize = 0;
    while i < files.len()
        invariant
            i <= files.len() == cleaned.len(),
            d == views(dirs@),
            f == views(files@),
            forall|k: int| 0 <= k < files.len() ==> cleaned@[k]@ == clean_name(#[trigger] f[k]),
            forall|x: Seq<char>|
                #[trigger] views(used@).contains(x) <==> (d.contains(x) || seen_before(
                    f,
                    i as int,
                    x,
                )),
            forall|x: Seq<char>|
                #[trigger] views(collided@).contains(x) <==> clashed(d, f, i as int, x),
        decreases files.len() - i,
    {
        let name = cleaned[i].clone();
        let ghost old_used = used@;
        let ghost old_collided = collided@;
        assert(name@ == clean_name(f[i as int]));
        if holds(&used, &name) {
            collided.push(name);
        } else {
            used.push(name);
        }
        proof {
            assert forall|x: Seq<char>|
                #[trigger] views(used@).contains(x) <==> (d.contains(x) || seen_before(
                    f,
                    i + 1,
                    x,
                )) by {
                lemma_seen_step(f, i as int, x);
                lemma_holds_push(old_used, name, x);
                assert(views(old_used).contains(x) <==> (d.contains(x) || seen_before(
                    f,
                    i as int,
                    x,
                )));
            }
            assert forall|x: Seq<char>|
                #[trigger] views(collided@).contains(x) <==> clashed(d, f, i + 1, x) by {
                lemma_clashed_step(d, f, i as int, x);
                lemma_holds_push(old_collided, name, x);
                assert(views(old_collided).contains(x) <==> clashed(d, f, i as int, x));
                assert(views(old_used).contains(name@) <==> (d.contains(name@) || seen_before(
                    f,
                    i as int,
                    name@,
                )));
            }
        }
        i += 1;
    }
    // Second pass: a file is listed under its full name where its clean name
    // was noted.
    let mut names: Vec<String> = Vec::new();
    let mut i: usize = 0;
    assert(views(names@) =~= display_names(d, f).take(0));
    while i < files.len()
        invariant
            i <= files.len() == cleaned.len(),
            d == views(dirs@),
            f == views(files@),
            forall|k: int| 0 <= k < files.len() ==> cleaned@[k]@ == clean_name(#[trigger] f[k]),
            forall|x: Seq<char>|
                #[trigger] views(collided@).contains(x) <==> clashed(d, f, files.len() as int, x),
            views(names@) == display_names(d, f).take(i as int),
        decreases files.len() - i,
    {
        let taken = holds(&collided, &cleaned[i]);
        proof {
            assert(cleaned@[i as int]@ == clean_name(f[i as int]));
            lemma_clashed_is_collides(d, f, i as int);
        }
        let name = if taken {
            files[i].clone()
        } else {
            cleaned[i].clone()
        };
        proof {
            lemma_views_push(names@, name);
            assert(display_names(d, f).take(i + 1) =~= display_names(d, f).take(i as int).push(
                name@,
            ));
        }
        names.push(name);
        i += 1;
    }
    assert(display_names(d, f).take(files.len() as int) =~= display_names(d, f));
    names
}

} // verus!
