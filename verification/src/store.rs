//! The store itself: the object table, the owner index and the identifier
//! allocator, with the operations that callers run on them.

use crate::index::OwnerIndex;
use crate::model::{lemma_content_wf, lemma_create_wf, lemma_delete_wf, Access, StoreView};
use crate::principal::{
    anonymous_bytes, bytes_equal, bytes_of_text, principal_parse, principal_text, Identity,
};
use crate::types::{FileView, ICPFile, ICPFileError, ICPFileStat};
use std::collections::BTreeMap;
use vstd::prelude::*;
use vstd::std_specs::btree::group_btree_axioms;

verus! {

broadcast use group_btree_axioms;

/// The store: object table, owner index and identifier counter.
pub struct FileStore {
    files: BTreeMap<u128, ICPFile>,
    next_fd: u128,
    user_files: OwnerIndex,
}

/// The object table that a map of file objects stands for.
spec fn table_of_files(files: Map<u128, ICPFile>) -> Map<u128, FileView> {
    files.map_values(|f: ICPFile| f@)
}

/// Issues the next identifier: the counter moves up by one and the new
/// value is the identifier.
pub fn get_id(counter: &mut u128) -> (id: u128)
    requires
        *old(counter) < u128::MAX,
    ensures
        *final(counter) == *old(counter) + 1,
        id == *final(counter),
{
    *counter += 1;
    *counter
}

/// Whether `caller` is the owner of `file`: the owner's text reads as the
/// caller's principal.
pub fn is_owner(file: &ICPFile, caller: &Identity) -> (owns: bool)
    ensures
        owns == (principal_parse(file@.owner) == Some(caller@)),
{
    match bytes_of_text(file.owner.as_str()) {
        Some(bytes) => bytes_equal(&bytes, caller.as_bytes()),
        None => false,
    }
}

impl View for FileStore {
    type V = StoreView;

    closed spec fn view(&self) -> StoreView {
        StoreView {
            files: table_of_files(self.files@),
            index: self.user_files@,
            counter: self.next_fd,
        }
    }
}

impl FileStore {
    /// The store is consistent: its index has one entry for each owner, and
    /// the table and the index agree.
    pub closed spec fn wf(&self) -> bool {
        &&& self.user_files.wf()
        &&& self@.wf()
    }

    /// A consistent store holds a consistent state.
    pub proof fn lemma_wf_view(&self)
        requires
            self.wf(),
        ensures
            self@.wf(),
    {
    }

    /// An empty store, in which no identifier was issued yet.
    pub fn new() -> (store: FileStore)
        ensures
            store.wf(),
            store@ == StoreView::empty(),
    {
        let store = FileStore { files: BTreeMap::new(), next_fd: 0, user_files: OwnerIndex::new() };
        assert(store@.files =~= Map::<u128, FileView>::empty());
        assert(store@.index =~= Map::<Seq<char>, Seq<u128>>::empty());
        store
    }

    /// The last identifier that was issued, 0 before the first.
    pub fn last_id(&self) -> (id: u128)
        ensures
            id == self@.counter,
    {
        self.next_fd
    }

    /// The authorization policy, the same for every operation on one
    /// object: an identifier without an object is not found; an object of
    /// another owner is refused; the owner passes.
    pub fn authorize(&self, caller: &Identity, id: u128) -> (verdict: Result<(), ICPFileError>)
        ensures
            match self@.access(caller@, id) {
                Access::Granted => verdict is Ok,
                Access::NotFound => verdict == Err::<(), ICPFileError>(ICPFileError::NotFound),
                Access::NotAuthorized => verdict == Err::<(), ICPFileError>(
                    ICPFileError::NotAuthorized,
                ),
            },
    {
        match self.files.get(&id) {
            None => Err(ICPFileError::NotFound),
            Some(file) => {
                if is_owner(file, caller) {
                    Ok(())
                } else {
                    Err(ICPFileError::NotAuthorized)
                }
            },
        }
    }

    /// Stores `file` as a new object of `caller` and returns its
    /// identifier. The identifier and the owner that `file` came with are
    /// replaced; its name and its content are kept.
    pub fn create_file(&mut self, caller: &Identity, file: ICPFile) -> (created: Result<
        u128,
        ICPFileError,
    >)
        requires
            old(self).wf(),
            caller@ != anonymous_bytes(),
            old(self)@.counter < u128::MAX,
        ensures
            final(self).wf(),
            created == Ok::<u128, ICPFileError>(old(self)@.next_id()),
            final(self)@ == old(self)@.create(caller@, file@.name, file@.data),
    {
        let fd = get_id(&mut self.next_fd);
        let stored = ICPFile { id: fd, owner: caller.to_text(), name: file.name, data: file.data };
        let key = caller.to_text();
        proof {
            lemma_create_wf(old(self)@, caller@, file@.name, file@.data);
        }
        self.files.insert(fd, stored);
        self.user_files.record(key, fd);
        assert(self@.files =~= old(self)@.create(caller@, file@.name, file@.data).files);
        Ok(fd)
    }

    /// Appends `chunk` to the content of the object `id`, if `caller` owns
    /// it. A refused call changes nothing.
    pub fn add_chunk(&mut self, caller: &Identity, id: u128, chunk: Vec<u8>) -> (done: Result<
        (),
        ICPFileError,
    >)
        requires
            old(self).wf(),
        ensures
            final(self).wf(),
            final(self)@ == old(self)@.add_chunk(caller@, id, chunk@),
            match old(self)@.access(caller@, id) {
                Access::Granted => done is Ok,
                Access::NotFound => done == Err::<(), ICPFileError>(ICPFileError::NotFound),
                Access::NotAuthorized => done == Err::<(), ICPFileError>(
                    ICPFileError::NotAuthorized,
                ),
            },
    {
        match self.authorize(caller, id) {
            Err(refusal) => {
                return Err(refusal);
            },
            Ok(()) => {},
        }
        let taken = self.files.remove(&id);
        let mut file = taken.unwrap();
        let mut rest = chunk;
        file.data.append(&mut rest);
        proof {
            lemma_content_wf(old(self)@, id, file@.data);
        }
        self.files.insert(id, file);
        assert(self@.files =~= old(self)@.append(id, chunk@).files);
        Ok(())
    }

    /// Empties the object `id`, if `caller` owns it: its identifier, owner
    /// and name stay. A refused call changes nothing.
    pub fn truncate_file(&mut self, caller: &Identity, id: u128) -> (done: Result<
        (),
        ICPFileError,
    >)
        requires
            old(self).wf(),
        ensures
            final(self).wf(),
            final(self)@ == old(self)@.truncate_file(caller@, id),
            match old(self)@.access(caller@, id) {
                Access::Granted => done is Ok,
                Access::NotFound => done == Err::<(), ICPFileError>(ICPFileError::NotFound),
                Access::NotAuthorized => done == Err::<(), ICPFileError>(
                    ICPFileError::NotAuthorized,
                ),
            },
    {
        match self.authorize(caller, id) {
            Err(refusal) => {
                return Err(refusal);
            },
            Ok(()) => {},
        }
        let taken = self.files.remove(&id);
        let mut file = taken.unwrap();
        file.data.clear();
        proof {
            lemma_content_wf(old(self)@, id, file@.data);
        }
        self.files.insert(id, file);
        assert(self@.files =~= old(self)@.truncate(id).files);
        Ok(())
    }

    /// Deletes the object `id`, if `caller` owns it, and returns the freed
    /// identifier. The identifier is first struck from the caller's index
    /// entry, whatever the table then says; in a consistent store that
    /// strikes nothing unless the caller owns the object, so a refused
    /// call changes nothing.
    pub fn delete_file(&mut self, caller: &Identity, id: u128) -> (freed: Result<
        u128,
        ICPFileError,
    >)
        requires
            old(self).wf(),
        ensures
            final(self).wf(),
            final(self)@ == old(self)@.delete_file(caller@, id),
            match old(self)@.access(caller@, id) {
                Access::Granted => freed == Ok::<u128, ICPFileError>(id),
                Access::NotFound => freed == Err::<u128, ICPFileError>(ICPFileError::NotFound),
                Access::NotAuthorized => freed == Err::<u128, ICPFileError>(
                    ICPFileError::NotAuthorized,
                ),
            },
    {
        let key = caller.to_text();
        let ghost before = old(self)@;
        let ghost granted = before.access(caller@, id) is Granted;
        proof {
            if before.files.contains_key(id) {
                assert(before.file_ok(id));
            }
        }
        self.user_files.unrecord(&key, id);
        proof {
            if before.index.contains_key(key@) && before.index[key@].contains(id) {
                let j = choose|j: int| 0 <= j < before.index[key@].len() && before.index[key@][j] == id;
                assert(before.files.contains_key(before.index[key@][j]));
                assert(granted);
            }
            if !granted {
                assert(self@.index =~= before.index);
            }
        }
        match self.authorize(caller, id) {
            Err(refusal) => {
                return Err(refusal);
            },
            Ok(()) => {},
        }
        proof {
            lemma_delete_wf(before, id);
        }
        self.files.remove(&id);
        assert(self@.files =~= before.delete(id).files);
        Ok(id)
    }

    /// The listing of `caller`: an entry for each object it created and
    /// did not delete, oldest first, each with the size its content has
    /// now. Every entry is of an object that `caller` owns.
    pub fn get_files(&self, caller: &Identity) -> (stats: Vec<ICPFileStat>)
        requires
            self.wf(),
        ensures
            stats@.len() == self@.listing(caller@).len(),
            forall|j: int| 0 <= j < stats@.len() ==> (#[trigger] stats@[j])@ == self@.listing(caller@)[j],
            forall|j: int| 0 <= j < stats@.len() ==> self@.owned_by((#[trigger] stats@[j]).id, caller@),
    {
        let key = caller.to_text();
        let mut stats: Vec<ICPFileStat> = Vec::new();
        let ids = self.user_files.list(&key);
        let mut j: usize = 0;
        while j < ids.len()
            invariant
                self.wf(),
                j <= ids@.len(),
                ids@ == self@.ids_of(key@),
                key@ == principal_text(caller@),
                principal_parse(key@) == Some(caller@),
                stats@.len() == j,
                forall|q: int|
                    0 <= q < j ==> (#[trigger] stats@[q])@ == self@.listing(caller@)[q],
                forall|q: int|
                    0 <= q < j ==> self@.owned_by((#[trigger] stats@[q]).id, caller@),
            decreases ids@.len() - j,
        {
            let fd = ids[j];
            assert(self@.files.contains_key(self@.index[key@][j as int]));
            assert(self@.file_ok(fd));
            match self.files.get(&fd) {
                // A listed identifier without an object would be passed over.
                None => {},
                Some(file) => {
                    stats.push(file.get_stat());
                },
            }
            j += 1;
        }
        stats
    }

    /// The object `id` as it is now, if `caller` owns it.
    pub fn get_file(&self, caller: &Identity, id: u128) -> (fetched: Result<ICPFile, ICPFileError>)
        ensures
            match self@.access(caller@, id) {
                Access::Granted => fetched matches Ok(file) && file@ == self@.files[id],
                Access::NotFound => fetched matches Err(ICPFileError::NotFound),
                Access::NotAuthorized => fetched matches Err(ICPFileError::NotAuthorized),
            },
    {
        match self.authorize(caller, id) {
            Err(refusal) => {
                return Err(refusal);
            },
            Ok(()) => {},
        }
        match self.files.get(&id) {
            None => Err(ICPFileError::NotFound),
            Some(file) => {
                let data = file.data.clone();
                assert(data@ =~= file.data@);
                Ok(ICPFile { id: file.id, owner: file.owner.clone(), name: file.name.clone(), data })
            },
        }
    }
}

} // verus!
