//! The store as a mathematical value, and what each operation makes of it.

use crate::index::{first_place, lemma_first_place, listed, recorded, unrecorded};
use crate::principal::{anonymous_bytes, principal_parse, principal_text, valid_identity};
use crate::types::{stat_of, FileView, StatView};
use vstd::prelude::*;

verus! {

/// The state of a store: the object table, the owner index and the last
/// identifier that was issued.
pub struct StoreView {
    pub files: Map<u128, FileView>,
    pub index: Map<Seq<char>, Seq<u128>>,
    pub counter: u128,
}

/// What the authorization check says of a caller and an identifier.
pub enum Access {
    Granted,
    NotFound,
    NotAuthorized,
}

impl StoreView {
    /// The store in which nothing was created yet.
    pub open spec fn empty() -> StoreView {
        StoreView { files: Map::empty(), index: Map::empty(), counter: 0 }
    }

    /// The identifiers recorded for the owner whose text is `owner`, in the
    /// order of their creation; none for an owner that never created one.
    pub open spec fn ids_of(self, owner: Seq<char>) -> Seq<u128> {
        listed(self.index, owner)
    }

    /// The object `id` exists and its owner is the principal `caller`.
    pub open spec fn owned_by(self, id: u128, caller: Seq<u8>) -> bool {
        self.files.contains_key(id) && principal_parse(self.files[id].owner) == Some(caller)
    }

    /// The authorization policy: a missing object is not found, an object
    /// of another owner is refused.
    pub open spec fn access(self, caller: Seq<u8>, id: u128) -> Access {
        if !self.files.contains_key(id) {
            Access::NotFound
        } else if principal_parse(self.files[id].owner) == Some(caller) {
            Access::Granted
        } else {
            Access::NotAuthorized
        }
    }

    /// What holds of the stored object `id`: it is filed under its own
    /// identifier, which was issued; its owner is the text of a principal
    /// other than the anonymous one; and its owner's index entry lists it.
    pub open spec fn file_ok(self, id: u128) -> bool {
        let f = self.files[id];
        &&& f.id == id
        &&& 0 < id <= self.counter
        &&& principal_parse(f.owner) is Some
        &&& principal_text(principal_parse(f.owner).unwrap()) == f.owner
        &&& principal_parse(f.owner).unwrap() != anonymous_bytes()
        &&& self.index.contains_key(f.owner)
        &&& self.index[f.owner].contains(id)
    }

    /// The object table and the owner index agree: every object is listed
    /// under its owner, every listed identifier is an object of that owner,
    /// and no identifier is listed twice.
    pub open spec fn wf(self) -> bool {
        &&& forall|id: u128| self.files.contains_key(id) ==> #[trigger] self.file_ok(id)
        &&& forall|k: Seq<char>, j: int|
            self.index.contains_key(k) && 0 <= j < self.index[k].len() ==> {
                &&& self.files.contains_key(#[trigger] self.index[k][j])
                &&& self.files[self.index[k][j]].owner == k
            }
        &&& forall|k: Seq<char>|
            self.index.contains_key(k) ==> (#[trigger] self.index[k]).no_duplicates()
    }

    /// The identifier that the next creation issues.
    pub open spec fn next_id(self) -> u128 {
        (self.counter + 1) as u128
    }

    /// The store after `caller` created an object called `name` with the
    /// initial content `data`.
    pub open spec fn create(self, caller: Seq<u8>, name: Seq<char>, data: Seq<u8>) -> StoreView {
        let id = self.next_id();
        let owner = principal_text(caller);
        StoreView {
            files: self.files.insert(id, FileView { id, owner, name, data }),
            index: recorded(self.index, owner, id),
            counter: id,
        }
    }

    /// The store after `chunk` was appended to the object `id`.
    pub open spec fn append(self, id: u128, chunk: Seq<u8>) -> StoreView {
        let f = self.files[id];
        StoreView { files: self.files.insert(id, FileView { data: f.data + chunk, ..f }), ..self }
    }

    /// The store after the object `id` was emptied.
    pub open spec fn truncate(self, id: u128) -> StoreView {
        let f = self.files[id];
        StoreView {
            files: self.files.insert(id, FileView { data: Seq::<u8>::empty(), ..f }),
            ..self
        }
    }

    /// The store after the object `id` left the table and its owner's
    /// index entry.
    pub open spec fn delete(self, id: u128) -> StoreView {
        StoreView {
            files: self.files.remove(id),
            index: unrecorded(self.index, self.files[id].owner, id),
            ..self
        }
    }

    /// The store after `caller` asked to append `chunk` to `id`: changed
    /// only where access is granted.
    pub open spec fn add_chunk(self, caller: Seq<u8>, id: u128, chunk: Seq<u8>) -> StoreView {
        if self.access(caller, id) is Granted {
            self.append(id, chunk)
        } else {
            self
        }
    }

    /// The store after `caller` asked to empty `id`.
    pub open spec fn truncate_file(self, caller: Seq<u8>, id: u128) -> StoreView {
        if self.access(caller, id) is Granted {
            self.truncate(id)
        } else {
            self
        }
    }

    /// The store after `caller` asked to delete `id`.
    pub open spec fn delete_file(self, caller: Seq<u8>, id: u128) -> StoreView {
        if self.access(caller, id) is Granted {
            self.delete(id)
        } else {
            self
        }
    }

    /// The listing of `caller`: one entry for each identifier recorded
    /// under its text, in the order of the record.
    pub open spec fn listing(self, caller: Seq<u8>) -> Seq<StatView> {
        let ids = self.ids_of(principal_text(caller));
        Seq::new(ids.len(), |j: int| stat_of(self.files[ids[j]]))
    }
}

/// Creation keeps the table and the index in agreement.
pub proof fn lemma_create_wf(s: StoreView, caller: Seq<u8>, name: Seq<char>, data: Seq<u8>)
    requires
        s.wf(),
        valid_identity(caller),
        caller != anonymous_bytes(),
        s.counter < u128::MAX,
    ensures
        s.create(caller, name, data).wf(),
        !s.files.contains_key(s.next_id()),
{
    let t = s.create(caller, name, data);
    let id = s.next_id();
    let owner = principal_text(caller);
    if s.files.contains_key(id) {
        assert(s.file_ok(id));
    }
    assert forall|i: u128| t.files.contains_key(i) implies #[trigger] t.file_ok(i) by {
        if i == id {
            assert(t.index[owner].last() == id);
        } else {
            assert(s.file_ok(i));
            let k = s.files[i].owner;
            let j = choose|j: int| 0 <= j < s.index[k].len() && s.index[k][j] == i;
            if k == owner {
                assert(t.index[k][j] == i);
            }
        }
    }
    assert forall|k: Seq<char>, j: int|
        t.index.contains_key(k) && 0 <= j < t.index[k].len() implies {
        &&& t.files.contains_key(#[trigger] t.index[k][j])
        &&& t.files[t.index[k][j]].owner == k
    } by {
        if k == owner {
            if j < s.ids_of(owner).len() {
                assert(s.index[k][j] == t.index[k][j]);
                assert(s.file_ok(s.index[k][j]));
            }
        } else {
            assert(s.index[k][j] == t.index[k][j]);
            assert(s.file_ok(s.index[k][j]));
        }
    }
    assert forall|k: Seq<char>| t.index.contains_key(k) implies (#[trigger] t.index[k]).no_duplicates() by {
        if k == owner {
            let old_ids = s.ids_of(owner);
            assert forall|a: int, b: int|
                0 <= a < t.index[k].len() && 0 <= b < t.index[k].len() && a != b implies t.index[k][a]
                != t.index[k][b] by {
                if a < old_ids.len() {
                    assert(s.files.contains_key(s.index[k][a]));
                }
                if b < old_ids.len() {
                    assert(s.files.contains_key(s.index[k][b]));
                }
            }
        } else {
            assert(s.index[k].no_duplicates());
        }
    }
}

/// A change of an object's content keeps the table and the index in
/// agreement.
pub proof fn lemma_content_wf(s: StoreView, id: u128, data: Seq<u8>)
    requires
        s.wf(),
        s.files.contains_key(id),
    ensures
        (StoreView { files: s.files.insert(id, FileView { data, ..s.files[id] }), ..s }).wf(),
{
    let t = StoreView { files: s.files.insert(id, FileView { data, ..s.files[id] }), ..s };
    assert forall|i: u128| t.files.contains_key(i) implies #[trigger] t.file_ok(i) by {
        assert(s.file_ok(i));
    }
    assert forall|k: Seq<char>, j: int|
        t.index.contains_key(k) && 0 <= j < t.index[k].len() implies {
        &&& t.files.contains_key(#[trigger] t.index[k][j])
        &&& t.files[t.index[k][j]].owner == k
    } by {
        assert(s.files.contains_key(s.index[k][j]));
    }
}

/// Deletion keeps the table and the index in agreement, and the deleted
/// identifier is listed nowhere afterwards.
pub proof fn lemma_delete_wf(s: StoreView, id: u128)
    requires
        s.wf(),
        s.files.contains_key(id),
    ensures
        s.delete(id).wf(),
        forall|k: Seq<char>| !(#[trigger] s.delete(id).ids_of(k)).contains(id),
{
    let t = s.delete(id);
    assert(s.file_ok(id));
    let owner = s.files[id].owner;
    let ids = s.index[owner];
    let p = first_place(ids, id);
    lemma_first_place(ids, id);
    assert(ids.no_duplicates());
    assert forall|k: Seq<char>, j: int|
        t.index.contains_key(k) && 0 <= j < t.index[k].len() implies {
        &&& t.files.contains_key(#[trigger] t.index[k][j])
        &&& t.files[t.index[k][j]].owner == k
        &&& t.index[k][j] != id
    } by {
        if k == owner {
            let j0 = if j < p { j } else { j + 1 };
            assert(t.index[k][j] == s.index[k][j0]);
            assert(s.files.contains_key(s.index[k][j0]));
        } else {
            assert(t.index[k][j] == s.index[k][j]);
            assert(s.files.contains_key(s.index[k][j]));
        }
    }
    assert forall|i: u128| t.files.contains_key(i) implies #[trigger] t.file_ok(i) by {
        assert(s.file_ok(i));
        let k = s.files[i].owner;
        let j = choose|j: int| 0 <= j < s.index[k].len() && s.index[k][j] == i;
        if k == owner {
            let j1 = if j < p { j } else { j - 1 };
            assert(t.index[k][j1] == i);
        }
    }
    assert forall|k: Seq<char>| t.index.contains_key(k) implies (#[trigger] t.index[k]).no_duplicates() by {
        assert(s.index[k].no_duplicates());
        if k == owner {
            assert forall|a: int, b: int|
                0 <= a < t.index[k].len() && 0 <= b < t.index[k].len() && a != b implies t.index[k][a]
                != t.index[k][b] by {
                let a0 = if a < p { a } else { a + 1 };
                let b0 = if b < p { b } else { b + 1 };
                assert(t.index[k][a] == ids[a0]);
                assert(t.index[k][b] == ids[b0]);
            }
        }
    }
    assert forall|k: Seq<char>| !(#[trigger] t.ids_of(k)).contains(id) by {
        if t.index.contains_key(k) && t.index[k].contains(id) {
            let j = choose|j: int| 0 <= j < t.index[k].len() && t.index[k][j] == id;
            assert(t.index[k][j] != id);
        }
    }
}

/// One mutating request to the store, as a value.
pub enum Op {
    Create { caller: Seq<u8>, name: Seq<char>, data: Seq<u8> },
    AddChunk { caller: Seq<u8>, id: u128, chunk: Seq<u8> },
    Truncate { caller: Seq<u8>, id: u128 },
    Delete { caller: Seq<u8>, id: u128 },
}

impl StoreView {
    /// Whether the store takes the request: a creation needs a usable
    /// identity other than the anonymous one, and an identifier left to
    /// issue. The other requests are always taken.
    pub open spec fn admits(self, op: Op) -> bool {
        match op {
            Op::Create { caller, .. } => {
                &&& valid_identity(caller)
                &&& caller != anonymous_bytes()
                &&& self.counter < u128::MAX
            },
            _ => true,
        }
    }

    /// The store after one request.
    pub open spec fn step(self, op: Op) -> StoreView {
        match op {
            Op::Create { caller, name, data } => self.create(caller, name, data),
            Op::AddChunk { caller, id, chunk } => self.add_chunk(caller, id, chunk),
            Op::Truncate { caller, id } => self.truncate_file(caller, id),
            Op::Delete { caller, id } => self.delete_file(caller, id),
        }
    }

    /// The store after the requests `ops`, in order.
    pub open spec fn run(self, ops: Seq<Op>) -> StoreView
        decreases ops.len(),
    {
        if ops.len() == 0 {
            self
        } else {
            self.run(ops.drop_last()).step(ops.last())
        }
    }

    /// Whether the store takes each of the requests `ops` in its turn.
    pub open spec fn admits_all(self, ops: Seq<Op>) -> bool
        decreases ops.len(),
    {
        if ops.len() == 0 {
            true
        } else {
            self.admits_all(ops.drop_last()) && self.run(ops.drop_last()).admits(ops.last())
        }
    }
}

/// Every request leaves a consistent store consistent, and never moves the
/// identifier counter down.
pub proof fn law_step_keeps_consistency(s: StoreView, op: Op)
    requires
        s.wf(),
        s.admits(op),
    ensures
        s.step(op).wf(),
        s.step(op).counter >= s.counter,
{
    match op {
        Op::Create { caller, name, data } => {
            lemma_create_wf(s, caller, name, data);
        },
        Op::AddChunk { caller, id, chunk } => {
            if s.access(caller, id) is Granted {
                lemma_content_wf(s, id, s.files[id].data + chunk);
            }
        },
        Op::Truncate { caller, id } => {
            if s.access(caller, id) is Granted {
                lemma_content_wf(s, id, Seq::<u8>::empty());
            }
        },
        Op::Delete { caller, id } => {
            if s.access(caller, id) is Granted {
                lemma_delete_wf(s, id);
            }
        },
    }
}

/// After any sequence of requests on a consistent store, the store is
/// consistent.
pub proof fn law_run_keeps_consistency(s: StoreView, ops: Seq<Op>)
    requires
        s.wf(),
        s.admits_all(ops),
    ensures
        s.run(ops).wf(),
    decreases ops.len(),
{
    if ops.len() > 0 {
        law_run_keeps_consistency(s, ops.drop_last());
        law_step_keeps_consistency(s.run(ops.drop_last()), ops.last());
    }
}

/// After any sequence of requests on the empty store, every entry of the
/// listing of an owner is of an object that exists and that this owner
/// owns.
pub proof fn law_listing_is_owned(ops: Seq<Op>, caller: Seq<u8>, j: int)
    requires
        StoreView::empty().admits_all(ops),
        valid_identity(caller),
        0 <= j < StoreView::empty().run(ops).listing(caller).len(),
    ensures
        StoreView::empty().run(ops).owned_by(
            StoreView::empty().run(ops).listing(caller)[j].id,
            caller,
        ),
{
    let s = StoreView::empty().run(ops);
    law_run_keeps_consistency(StoreView::empty(), ops);
    lemma_listing_owned(s, caller, j);
}

/// In a consistent store, every entry of the listing of an owner names an
/// object that exists and that this owner owns.
pub proof fn lemma_listing_owned(s: StoreView, caller: Seq<u8>, j: int)
    requires
        s.wf(),
        valid_identity(caller),
        0 <= j < s.listing(caller).len(),
    ensures
        s.listing(caller)[j].id == s.ids_of(principal_text(caller))[j],
        s.owned_by(s.listing(caller)[j].id, caller),
{
    let k = principal_text(caller);
    let id = s.index[k][j];
    assert(s.files.contains_key(id));
    assert(s.file_ok(id));
}

/// Appending one chunk and then another gives what appending the two
/// chunks joined gives, whoever asks and whatever the identifier.
pub proof fn law_append_concatenates(
    s: StoreView,
    caller: Seq<u8>,
    id: u128,
    first: Seq<u8>,
    second: Seq<u8>,
)
    ensures
        s.add_chunk(caller, id, first).add_chunk(caller, id, second) == s.add_chunk(
            caller,
            id,
            first + second,
        ),
        s.access(caller, id) is Granted ==> s.add_chunk(caller, id, first).add_chunk(
            caller,
            id,
            second,
        ).files[id].data == s.files[id].data + first + second,
{
    if s.access(caller, id) is Granted {
        let a = s.add_chunk(caller, id, first).add_chunk(caller, id, second);
        let b = s.add_chunk(caller, id, first + second);
        assert((s.files[id].data + first) + second =~= s.files[id].data + (first + second));
        assert(a.files =~= b.files);
    }
}

/// Appending no bytes changes nothing.
pub proof fn law_append_nothing(s: StoreView, caller: Seq<u8>, id: u128)
    ensures
        s.add_chunk(caller, id, Seq::<u8>::empty()) == s,
{
    if s.access(caller, id) is Granted {
        assert(s.files[id].data + Seq::<u8>::empty() =~= s.files[id].data);
        assert(s.add_chunk(caller, id, Seq::<u8>::empty()).files =~= s.files);
    }
}

/// Emptying an object and then appending to it leaves exactly the appended
/// bytes as its content, and its identifier, owner and name as they were.
pub proof fn law_truncate_then_append(s: StoreView, caller: Seq<u8>, id: u128, chunk: Seq<u8>)
    requires
        s.access(caller, id) is Granted,
    ensures
        s.truncate_file(caller, id).add_chunk(caller, id, chunk).files[id] == (FileView {
            data: chunk,
            ..s.files[id]
        }),
{
    assert(Seq::<u8>::empty() + chunk =~= chunk);
}

/// Once its owner deleted an object, nobody finds it, and no owner's index
/// entry or listing names it.
pub proof fn law_delete_forgets(s: StoreView, caller: Seq<u8>, id: u128)
    requires
        s.wf(),
        s.access(caller, id) is Granted,
    ensures
        forall|anyone: Seq<u8>| #[trigger] s.delete_file(caller, id).access(anyone, id) is NotFound,
        forall|owner: Seq<char>| !(#[trigger] s.delete_file(caller, id).ids_of(owner)).contains(id),
        forall|anyone: Seq<u8>, j: int|
            0 <= j < s.delete_file(caller, id).listing(anyone).len() ==> (
            #[trigger] s.delete_file(caller, id).listing(anyone)[j]).id != id,
{
    let t = s.delete_file(caller, id);
    lemma_delete_wf(s, id);
    assert forall|anyone: Seq<u8>, j: int| 0 <= j < t.listing(anyone).len() implies (
    #[trigger] t.listing(anyone)[j]).id != id by {
        let k = principal_text(anyone);
        let listed = t.index[k][j];
        assert(t.files.contains_key(listed));
        assert(t.file_ok(listed));
    }
}

/// A request on an object of another owner changes nothing in the store.
pub proof fn law_refused_changes_nothing(s: StoreView, caller: Seq<u8>, id: u128, chunk: Seq<u8>)
    requires
        s.access(caller, id) is NotAuthorized,
    ensures
        s.files.contains_key(id) && !s.owned_by(id, caller),
        s.add_chunk(caller, id, chunk) == s,
        s.truncate_file(caller, id) == s,
        s.delete_file(caller, id) == s,
{
}

/// A request on an identifier that names no object changes nothing in the
/// store.
pub proof fn law_missing_changes_nothing(s: StoreView, caller: Seq<u8>, id: u128, chunk: Seq<u8>)
    requires
        s.access(caller, id) is NotFound,
    ensures
        !s.files.contains_key(id),
        s.add_chunk(caller, id, chunk) == s,
        s.truncate_file(caller, id) == s,
        s.delete_file(caller, id) == s,
{
}

/// No sequence of requests moves the identifier counter down.
pub proof fn law_counter_never_falls(s: StoreView, ops: Seq<Op>)
    requires
        s.admits_all(ops),
    ensures
        s.run(ops).counter >= s.counter,
    decreases ops.len(),
{
    if ops.len() > 0 {
        law_counter_never_falls(s, ops.drop_last());
    }
}

/// Of two creations, the later is given the greater identifier, whatever
/// requests lie between them, deletions included.
pub proof fn law_identifiers_increase(
    s: StoreView,
    caller: Seq<u8>,
    name: Seq<char>,
    data: Seq<u8>,
    between: Seq<Op>,
)
    requires
        s.admits(Op::Create { caller, name, data }),
        s.create(caller, name, data).admits_all(between),
        s.create(caller, name, data).run(between).counter < u128::MAX,
    ensures
        s.next_id() < s.create(caller, name, data).run(between).next_id(),
{
    law_counter_never_falls(s.create(caller, name, data), between);
}

} // verus!
