//! Turning the files found by a directory walk into a checked plan of
//! (source, destination) changes.
use vstd::prelude::*;
use crate::error::RenameError;
use crate::matcher::{captures_of, Matcher};
use crate::template::{render_pieces, Template};

verus! {

/// One planned change: `source` goes to `destination`.
#[derive(Debug)]
pub struct Change {
    pub source: String,
    pub destination: String,
}

/// One entry of a directory listing, by its own name.
#[derive(Debug)]
pub struct DirEntry {
    pub name: String,
    pub is_dir: bool,
}

/// A file met by the walk: its path from the starting directory, which is what
/// the pattern is matched against, and its own name.
#[derive(Debug)]
pub struct FileEntry {
    pub path: String,
    pub name: String,
}

/// What one directory listing gives the walk: the files to match, and the
/// subdirectories still to visit.
#[derive(Debug)]
pub struct Listing {
    pub files: Vec<FileEntry>,
    pub subdirs: Vec<String>,
}

/// The path of `name` inside `dir`, relative to the starting directory; the
/// starting directory itself is the empty path.
pub open spec fn child_path_spec(dir: Seq<char>, name: Seq<char>) -> Seq<char> {
    if dir.len() == 0 {
        name
    } else {
        dir + seq!['/'] + name
    }
}

/// The files of a listing in `dir`, in listing order.
pub open spec fn listed_files(dir: Seq<char>, entries: Seq<DirEntry>) -> Seq<(Seq<char>, Seq<char>)>
    decreases entries.len(),
{
    if entries.len() == 0 {
        seq![]
    } else {
        let rest = listed_files(dir, entries.drop_last());
        let e = entries.last();
        if e.is_dir {
            rest
        } else {
            rest.push((child_path_spec(dir, e.name@), e.name@))
        }
    }
}

/// The subdirectories of a listing in `dir` to descend into, in listing order:
/// none unless `recursive`.
pub open spec fn listed_dirs(dir: Seq<char>, entries: Seq<DirEntry>, recursive: bool) -> Seq<Seq<char>>
    decreases entries.len(),
{
    if entries.len() == 0 || !recursive {
        seq![]
    } else {
        let rest = listed_dirs(dir, entries.drop_last(), recursive);
        let e = entries.last();
        if e.is_dir {
            rest.push(child_path_spec(dir, e.name@))
        } else {
            rest
        }
    }
}

pub open spec fn file_view(f: FileEntry) -> (Seq<char>, Seq<char>) {
    (f.path@, f.name@)
}

/// The destination after the directory convention: where the rendered text
/// names a directory, the file's own name is put inside it, with exactly one
/// `/` added unless the text already ends in one.
pub open spec fn into_directory_spec(rendered: Seq<char>, name: Seq<char>, is_dir: bool) -> Seq<char> {
    if !is_dir {
        rendered
    } else if rendered.len() > 0 && rendered.last() == '/' {
        rendered + name
    } else {
        rendered + seq!['/'] + name
    }
}

/// Whether two changes of the plan share a destination.
pub open spec fn has_collision(cs: Seq<Change>) -> bool {
    exists|i: int, j: int|
        0 <= i < j < cs.len() && #[trigger] cs[i].destination@ == #[trigger] cs[j].destination@
}

/// The path of `name` inside `dir`, relative to the starting directory.
pub fn child_path(dir: &str, name: &str) -> (r: String)
    ensures
        r@ == child_path_spec(dir@, name@),
{
    let mut r = String::from_str(dir);
    if dir.unicode_len() > 0 {
        r.append("/");
        proof {
            reveal_strlit("/");
        }
    }
    r.append(name);
    r
}

/// Sorts a listing of `dir`: files are kept for matching, directories are
/// visited only when `recursive`, and nothing else is looked at.
pub fn sort_listing(dir: &str, entries: &Vec<DirEntry>, recursive: bool) -> (r: Listing)
    ensures
        r.files@.map_values(|f: FileEntry| file_view(f)) == listed_files(dir@, entries@),
        r.subdirs@.map_values(|d: String| d@) == listed_dirs(dir@, entries@, recursive),
{
    let mut files: Vec<FileEntry> = Vec::new();
    let mut subdirs: Vec<String> = Vec::new();
    let mut k: usize = 0;
    while k < entries.len()
        invariant
            k <= entries@.len(),
            files@.map_values(|f: FileEntry| file_view(f)) == listed_files(dir@, entries@.take(k as int)),
            subdirs@.map_values(|d: String| d@) == listed_dirs(dir@, entries@.take(k as int), recursive),
        decreases entries@.len() - k,
    {
        let e = &entries[k];
        proof {
            assert(entries@.take(k + 1).drop_last() =~= entries@.take(k as int));
            assert(entries@.take(k + 1).last() == entries@[k as int]);
        }
        let path = child_path(dir, e.name.as_str());
        if e.is_dir {
            if recursive {
                let ghost before = subdirs@;
                subdirs.push(path);
                proof {
                    assert(subdirs@.map_values(|d: String| d@) =~= before.map_values(
                        |d: String| d@,
                    ).push(child_path_spec(dir@, e.name@)));
                }
            }
        } else {
            let ghost before = files@;
            let name = e.name.clone();
            files.push(FileEntry { path, name });
            proof {
                assert(files@.map_values(|f: FileEntry| file_view(f)) =~= before.map_values(
                    |f: FileEntry| file_view(f),
                ).push((child_path_spec(dir@, e.name@), e.name@)));
            }
        }
        k = k + 1;
    }
    proof {
        assert(entries@.take(k as int) =~= entries@);
    }
    Listing { files, subdirs }
}

/// Matches `subject` and renders the destination template for it: `Ok(None)`
/// where the pattern does not match, the rendered text where it does, and
/// `CaptureGroupMissing` where the template names a group that the match lacks.
pub fn plan_file(m: &Matcher, t: &Template, subject: &str) -> (r: Result<Option<String>, RenameError>)
    ensures
        captures_of(m.source(), subject@) is None ==> r matches Ok(None),
        captures_of(m.source(), subject@) matches Some(caps) ==> match render_pieces(t@, caps) {
            Ok(d) => (r matches Ok(Some(s)) && s@ == d),
            Err(n) => (r matches Err(RenameError::CaptureGroupMissing { source, index }) && index
                == n && source@ == subject@),
        },
{
    match m.captures(subject) {
        None => Ok(None),
        Some(caps) => match t.render(&caps) {
            Ok(s) => Ok(Some(s)),
            Err(n) => Err(RenameError::CaptureGroupMissing { source: String::from_str(subject), index: n }),
        },
    }
}

/// Applies the directory convention to a rendered destination; `is_dir` says
/// whether `rendered` names an existing directory.
pub fn into_directory(rendered: &str, name: &str, is_dir: bool) -> (r: String)
    ensures
        r@ == into_directory_spec(rendered@, name@, is_dir),
{
    let mut r = String::from_str(rendered);
    if is_dir {
        let n = rendered.unicode_len();
        if n == 0 || rendered.get_char(n - 1) != '/' {
            r.append("/");
            proof {
                reveal_strlit("/");
            }
        }
        r.append(name);
    }
    r
}

/// Checks a plan before anything is done: an empty plan is `NothingToDo`, and
/// two changes with one destination are a `DestinationCollision`, wherever they
/// stand in the plan.
pub fn validate_plan(changes: &Vec<Change>) -> (r: Result<(), RenameError>)
    ensures
        changes@.len() == 0 ==> r matches Err(RenameError::NothingToDo),
        changes@.len() > 0 && !has_collision(changes@) ==> r is Ok,
        changes@.len() > 0 && has_collision(changes@) ==> (r matches Err(
            RenameError::DestinationCollision { destination, first, second },
        ) && first < second < changes@.len() && changes@[first as int].destination@
            == changes@[second as int].destination@ && destination@
            == changes@[first as int].destination@),
{
    let n = changes.len();
    if n == 0 {
        return Err(RenameError::NothingToDo);
    }
    let mut j: usize = 1;
    while j < n
        invariant
            n == changes@.len(),
            1 <= j <= n,
            forall|a: int, b: int|
                0 <= a < b < j ==> #[trigger] changes@[a].destination@
                    != #[trigger] changes@[b].destination@,
        decreases n - j,
    {
        let mut i: usize = 0;
        while i < j
            invariant
                n == changes@.len(),
                1 <= j < n,
                i <= j,
                forall|a: int, b: int|
                    0 <= a < b < j ==> #[trigger] changes@[a].destination@
                        != #[trigger] changes@[b].destination@,
                forall|a: int|
                    0 <= a < i ==> #[trigger] changes@[a].destination@
                        != changes@[j as int].destination@,
            decreases j - i,
        {
            if changes[i].destination == changes[j].destination {
                return Err(
                    RenameError::DestinationCollision {
                        destination: changes[i].destination.clone(),
                        first: i,
                        second: j,
                    },
                );
            }
            i = i + 1;
        }
        j = j + 1;
    }
    Ok(())
}

} // verus!
