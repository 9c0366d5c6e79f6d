//! The values that go in and out of the store.

use vstd::prelude::*;

verus! {

/// A stored file object.
pub struct ICPFile {
    pub id: u128,
    pub owner: String,
    pub name: String,
    pub data: Vec<u8>,
}

/// What a file object is: its identifier, the text of its owner, its name
/// and its bytes.
pub struct FileView {
    pub id: u128,
    pub owner: Seq<char>,
    pub name: Seq<char>,
    pub data: Seq<u8>,
}

impl View for ICPFile {
    type V = FileView;

    open spec fn view(&self) -> FileView {
        FileView { id: self.id, owner: self.owner@, name: self.name@, data: self.data@ }
    }
}

/// Why an operation on a file object failed.
pub enum ICPFileError {
    Error(String),
    NotAuthorized,
    NotFound,
}

/// The listing entry of a file object.
pub struct ICPFileStat {
    pub name: String,
    pub size: usize,
    pub id: u128,
}

/// What a listing entry is.
pub struct StatView {
    pub name: Seq<char>,
    pub size: nat,
    pub id: u128,
}

impl View for ICPFileStat {
    type V = StatView;

    open spec fn view(&self) -> StatView {
        StatView { name: self.name@, size: self.size as nat, id: self.id }
    }
}

/// The listing entry that describes `file`.
pub open spec fn stat_of(file: FileView) -> StatView {
    StatView { name: file.name, size: file.data.len(), id: file.id }
}

impl ICPFile {
    /// A file object called `name` that holds `data`, not yet stored.
    pub fn new(name: String, data: Vec<u8>) -> (file: ICPFile)
        ensures
            file@ == (FileView { id: 0, owner: Seq::<char>::empty(), name: name@, data: data@ }),
    {
        ICPFile { id: 0, owner: String::new(), name, data }
    }

    /// The listing entry of this file object, computed from its bytes as
    /// they are now.
    pub fn get_stat(&self) -> (stat: ICPFileStat)
        ensures
            stat@ == stat_of(self@),
    {
        ICPFileStat { name: self.name.clone(), size: self.data.len(), id: self.id }
    }
}

} // verus!
