//! What the library asks of a file system, and what it is told.
//!
//! Nothing here touches a disk. A job says what it needs next with a [`Request`]; whoever drives
//! it carries the request out and hands back a [`Reply`].
use vstd::prelude::*;

use crate::names::Name;

verus! {

/// The directory that a path is relative to.
#[derive(Debug, Clone, Copy, PartialEq, Eq, Structural)]
pub enum Area {
    /// The live data of one user.
    User,
    /// Where a snapshot is assembled.
    Staging,
    /// Where a snapshot is put back.
    Target,
}

/// A path below one of the areas.
#[derive(Debug)]
pub struct Place {
    pub area: Area,
    pub path: Vec<Name>,
}

/// A [`Place`], its path as a sequence of byte strings.
pub type Spot = (Area, Seq<Seq<u8>>);

impl View for Place {
    type V = Spot;

    open spec fn view(&self) -> Spot {
        (self.area, crate::names::names_of(self.path@))
    }
}

/// What there is at a path, links followed.
#[derive(Debug, Clone, Copy, PartialEq, Eq, Structural)]
pub enum NodeKind {
    File,
    Dir,
    /// Neither a file nor a directory, such as a link that leads nowhere.
    Other,
    /// Nothing.
    Missing,
}

/// What a job needs done next.
#[derive(Debug)]
pub enum Request {
    /// Create a directory, and its parents where they are missing.
    CreateDirAll(Place),
    /// Write a compacted copy of the database at `from` to `to`.
    VacuumInto { from: Place, to: Place },
    /// Read a whole file.
    ReadFile(Place),
    /// Start to walk a directory.
    OpenDir(Place),
    /// Take the next entry of the directory that was opened last.
    NextEntry(Place),
    /// Copy a file.
    CopyFile { from: Place, to: Place },
    /// Read all names of a directory.
    ListDir(Place),
    /// See what there is at a path.
    Inspect(Place),
    /// Remove a file, if it is there.
    RemoveFile(Place),
    /// Remove a directory with everything in it, if it is there.
    RemoveDirAll(Place),
}

/// [`Request`] over [`Spot`]s.
pub enum RequestView {
    CreateDirAll(Spot),
    VacuumInto { from: Spot, to: Spot },
    ReadFile(Spot),
    OpenDir(Spot),
    NextEntry(Spot),
    CopyFile { from: Spot, to: Spot },
    ListDir(Spot),
    Inspect(Spot),
    RemoveFile(Spot),
    RemoveDirAll(Spot),
}

impl View for Request {
    type V = RequestView;

    open spec fn view(&self) -> RequestView {
        match self {
            Request::CreateDirAll(place) => RequestView::CreateDirAll(place@),
            Request::VacuumInto { from, to } => RequestView::VacuumInto { from: from@, to: to@ },
            Request::ReadFile(place) => RequestView::ReadFile(place@),
            Request::OpenDir(place) => RequestView::OpenDir(place@),
            Request::NextEntry(place) => RequestView::NextEntry(place@),
            Request::CopyFile { from, to } => RequestView::CopyFile { from: from@, to: to@ },
            Request::ListDir(place) => RequestView::ListDir(place@),
            Request::Inspect(place) => RequestView::Inspect(place@),
            Request::RemoveFile(place) => RequestView::RemoveFile(place@),
            Request::RemoveDirAll(place) => RequestView::RemoveDirAll(place@),
        }
    }
}

/// What came of a request.
#[derive(Debug)]
pub enum Reply {
    /// It was done.
    Done,
    /// The contents of the file.
    Data(Vec<u8>),
    /// The next entry of the directory.
    Entry { name: Name, is_dir: bool },
    /// The directory has no more entries.
    EndOfDir,
    /// The names in the directory.
    Names(Vec<Name>),
    /// What there is at the path.
    Kind(NodeKind),
    /// It failed; the text says why.
    Failed(String),
}

/// [`Reply`] over sequences.
pub enum ReplyView {
    Done,
    Data(Seq<u8>),
    Entry { name: Seq<u8>, is_dir: bool },
    EndOfDir,
    Names(Seq<Seq<u8>>),
    Kind(NodeKind),
    Failed(Seq<char>),
}

impl View for Reply {
    type V = ReplyView;

    open spec fn view(&self) -> ReplyView {
        match self {
            Reply::Done => ReplyView::Done,
            Reply::Data(bytes) => ReplyView::Data(bytes@),
            Reply::Entry { name, is_dir } => ReplyView::Entry { name: name@, is_dir: *is_dir },
            Reply::EndOfDir => ReplyView::EndOfDir,
            Reply::Names(names) => ReplyView::Names(crate::names::names_of(names@)),
            Reply::Kind(kind) => ReplyView::Kind(*kind),
            Reply::Failed(text) => ReplyView::Failed(text@),
        }
    }
}

/// A copy of a name.
pub fn copy_name(name: &Name) -> (copy: Name)
    ensures
        copy@ == name@,
{
    let mut copy: Name = Vec::new();
    copy.extend_from_slice(name.as_slice());
    assert(copy@ =~= name@);
    copy
}

/// A copy of a path.
pub fn copy_path(path: &Vec<Name>) -> (copy: Vec<Name>)
    ensures
        crate::names::names_of(copy@) == crate::names::names_of(path@),
{
    let mut copy: Vec<Name> = Vec::new();
    let mut i: usize = 0;
    while i < path.len()
        invariant
            i <= path@.len(),
            crate::names::names_of(copy@) == crate::names::names_of(path@).take(i as int),
        decreases path@.len() - i,
    {
        let ghost done = crate::names::names_of(copy@);
        copy.push(copy_name(&path[i]));
        proof {
            let name = path@[i as int]@;
            assert(crate::names::names_of(copy@) =~= done.push(name));
            assert(crate::names::names_of(path@).take(i + 1) =~= done.push(name));
        }
        i += 1;
    }
    assert(crate::names::names_of(copy@) =~= crate::names::names_of(path@));
    copy
}

/// The place of `path` in `area`.
pub fn place(area: Area, path: &Vec<Name>) -> (place: Place)
    ensures
        place@ == (area, crate::names::names_of(path@)),
{
    Place { area, path: copy_path(path) }
}

/// The place of `name` in the directory `path` of `area`.
pub fn child_place(area: Area, path: &Vec<Name>, name: &Name) -> (place: Place)
    ensures
        place@ == (area, crate::names::names_of(path@).push(name@)),
{
    let mut child = copy_path(path);
    let ghost parent = child@;
    child.push(copy_name(name));
    assert(crate::names::names_of(child@) =~= crate::names::names_of(parent).push(name@));
    Place { area, path: child }
}

/// A name, given as text.
pub fn name_from(text: &str) -> (name: Name)
    ensures
        name@ == vstd::utf8::encode_utf8(text@),
{
    let mut name: Name = Vec::new();
    name.extend_from_slice(text.as_bytes());
    assert(name@ =~= vstd::utf8::encode_utf8(text@));
    name
}

} // verus!
