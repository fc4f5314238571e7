//! Launchable entries found by scanning directories.

use vstd::prelude::*;
use crate::text::{after_last, find_after_last, find_char, find_from, starts_with};

verus! {

#[derive(Debug, Clone, Copy, PartialEq, Eq, Structural)]
pub enum FileEntryType {
    App,
    Bin,
    File,
}

/// An indexed launchable object. Its identity is its full path.
#[derive(Debug)]
pub struct FileEntry {
    pub file_type: FileEntryType,
    pub full_path: String,
    pub name: String,
}

pub struct EntryView {
    pub kind: FileEntryType,
    pub path: Seq<char>,
    pub name: Seq<char>,
}

impl View for FileEntry {
    type V = EntryView;

    open spec fn view(&self) -> EntryView {
        EntryView { kind: self.file_type, path: self.full_path@, name: self.name@ }
    }
}

impl FileEntry {
    pub fn new(file_type: FileEntryType, full_path: String, name: String) -> (r: FileEntry)
        ensures
            r@ == (EntryView { kind: file_type, path: full_path@, name: name@ }),
    {
        FileEntry { file_type, full_path, name }
    }

    pub fn file_type(&self) -> (r: FileEntryType)
        ensures
            r == self@.kind,
    {
        self.file_type
    }

    pub fn full_path(&self) -> (r: &String)
        ensures
            r@ == self@.path,
    {
        &self.full_path
    }

    pub fn name(&self) -> (r: &String)
        ensures
            r@ == self@.name,
    {
        &self.name
    }

    pub fn duplicate(&self) -> (r: FileEntry)
        ensures
            r@ == self@,
    {
        FileEntry { file_type: self.file_type, full_path: self.full_path.clone(), name: self.name.clone() }
    }
}

/// One child of a scanned directory: its full path and its file name.
pub struct DirChild {
    pub path: String,
    pub name: String,
}

/// A directory that could be read, with its direct children.
pub struct DirListing {
    pub location: String,
    pub children: Vec<DirChild>,
}

pub open spec fn child_pair(c: DirChild) -> (Seq<char>, Seq<char>) {
    (c.path@, c.name@)
}

pub open spec fn listing_view(l: DirListing) -> (Seq<char>, Seq<(Seq<char>, Seq<char>)>) {
    (l.location@, l.children@.map_values(|c: DirChild| child_pair(c)))
}

pub open spec fn listings_view(ls: Seq<DirListing>) -> Seq<
    (Seq<char>, Seq<(Seq<char>, Seq<char>)>),
> {
    ls.map_values(|l: DirListing| listing_view(l))
}

/// End of `s[0..e]` once trailing `c` characters are dropped.
pub open spec fn strip_end(s: Seq<char>, c: char, e: int) -> int
    decreases e,
{
    if 0 < e <= s.len() && s[e - 1] == c {
        strip_end(s, c, e - 1)
    } else {
        e
    }
}

/// Last segment of a path, trailing separators ignored.
pub open spec fn last_segment(s: Seq<char>) -> Seq<char> {
    let e = strip_end(s, '/', s.len() as int);
    s.subrange(after_last(s, '/', e), e)
}

/// The entry that stands for a scanned directory itself: its path ends in
/// exactly one separator, whatever number the location ends in.
pub open spec fn dir_view(location: Seq<char>) -> EntryView {
    let seg = last_segment(location);
    EntryView {
        kind: FileEntryType::File,
        path: location.subrange(0, strip_end(location, '/', location.len() as int)).push('/'),
        name: if seg.len() == 0 {
            seq!['/']
        } else {
            seg.push('/')
        },
    }
}

/// The entry for one child of a directory scanned as `kind`. Hidden names
/// are skipped for applications, and an application's display name stops
/// at its first dot.
pub open spec fn child_view(path: Seq<char>, name: Seq<char>, kind: FileEntryType) -> Option<
    EntryView,
> {
    if kind == FileEntryType::App {
        if name.len() > 0 && name[0] == '.' {
            None
        } else {
            Some(
                EntryView {
                    kind,
                    path,
                    name: name.subrange(0, find_from(name, '.', 0)),
                },
            )
        }
    } else {
        Some(EntryView { kind, path, name })
    }
}

pub open spec fn opt_seq(o: Option<EntryView>) -> Seq<EntryView> {
    match o {
        Some(e) => seq![e],
        None => Seq::empty(),
    }
}

pub open spec fn children_entries(cs: Seq<(Seq<char>, Seq<char>)>, kind: FileEntryType) -> Seq<
    EntryView,
>
    decreases cs.len(),
{
    if cs.len() == 0 {
        Seq::empty()
    } else {
        children_entries(cs.drop_last(), kind) + opt_seq(
            child_view(cs.last().0, cs.last().1, kind),
        )
    }
}

/// Entries of one directory: the directory itself, then its children.
pub open spec fn listing_entries(
    l: (Seq<char>, Seq<(Seq<char>, Seq<char>)>),
    kind: FileEntryType,
) -> Seq<EntryView> {
    seq![dir_view(l.0)] + children_entries(l.1, kind)
}

/// Entries of a scan of several directories, in the order they are found.
pub open spec fn scan_entries(
    ls: Seq<(Seq<char>, Seq<(Seq<char>, Seq<char>)>)>,
    kind: FileEntryType,
) -> Seq<EntryView>
    decreases ls.len(),
{
    if ls.len() == 0 {
        Seq::empty()
    } else {
        scan_entries(ls.drop_last(), kind) + listing_entries(ls.last(), kind)
    }
}

fn strip_trailing(s: &str, c: char) -> (r: usize)
    ensures
        r == strip_end(s@, c, s@.len() as int),
        r <= s@.len(),
{
    let mut e = s.unicode_len();
    while e > 0 && s.get_char(e - 1) == c
        invariant
            e <= s@.len(),
            strip_end(s@, c, s@.len() as int) == strip_end(s@, c, e as int),
        decreases e,
    {
        e = e - 1;
    }
    e
}

/// The entry that stands for the directory at `location`.
pub fn dir_entry(location: &str) -> (r: FileEntry)
    ensures
        r@ == dir_view(location@),
{
    proof {
        reveal_strlit("/");
    }
    let e = strip_trailing(location, '/');
    let full_path = String::from_str(location.substring_char(0, e)).concat("/");
    let b = find_after_last(location, '/', e);
    let seg = location.substring_char(b, e);
    let name = if b == e {
        String::from_str("/")
    } else {
        String::from_str(seg).concat("/")
    };
    proof {
        assert(seq!['/'] =~= "/"@);
        assert(seg@.push('/') =~= seg@ + "/"@);
        assert(full_path@ =~= location@.subrange(0, e as int).push('/'));
    }
    FileEntry { file_type: FileEntryType::File, full_path, name }
}

/// The entry for the child `name` at `path` of a directory scanned as `kind`.
pub fn child_entry(path: &String, name: &String, kind: FileEntryType) -> (r: Option<FileEntry>)
    ensures
        match r {
            Some(e) => child_view(path@, name@, kind) == Some(e@),
            None => child_view(path@, name@, kind) is None,
        },
{
    match kind {
        FileEntryType::App => {
            if starts_with(name.as_str(), ".") {
                proof {
                    reveal_strlit(".");
                    assert(name@.subrange(0, 1)[0] == name@[0]);
                }
                None
            } else {
                proof {
                    reveal_strlit(".");
                    if name@.len() > 0 && name@[0] == '.' {
                        assert(name@.subrange(0, 1) =~= "."@);
                    }
                }
                let k = find_char(name.as_str(), '.');
                let shown = String::from_str(name.as_str().substring_char(0, k));
                Some(FileEntry { file_type: kind, full_path: path.clone(), name: shown })
            }
        },
        _ => Some(FileEntry { file_type: kind, full_path: path.clone(), name: name.clone() }),
    }
}

} // verus!
