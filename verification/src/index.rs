//! The owner index: for each owner, the identifiers it created and still
//! has, oldest first.

use vstd::prelude::*;

verus! {

/// The identifiers listed under `owner`; none where the index has no entry
/// for it.
pub open spec fn listed(index: Map<Seq<char>, Seq<u128>>, owner: Seq<char>) -> Seq<u128> {
    if index.contains_key(owner) {
        index[owner]
    } else {
        Seq::empty()
    }
}

/// The first place at which `id` stands in `ids`.
pub open spec fn first_place(ids: Seq<u128>, id: u128) -> int {
    choose|j: int|
        0 <= j < ids.len() && ids[j] == id && forall|q: int| 0 <= q < j ==> ids[q] != id
}

/// `ids` without the first occurrence of `id`; `ids` itself where `id`
/// does not occur.
pub open spec fn without_first(ids: Seq<u128>, id: u128) -> Seq<u128> {
    if ids.contains(id) {
        ids.remove(first_place(ids, id))
    } else {
        ids
    }
}

/// Where `id` occurs in `ids`, its first place is a place of `ids` that
/// holds it.
pub proof fn lemma_first_place(ids: Seq<u128>, id: u128)
    requires
        ids.contains(id),
    ensures
        0 <= first_place(ids, id) < ids.len(),
        ids[first_place(ids, id)] == id,
        forall|q: int| 0 <= q < first_place(ids, id) ==> ids[q] != id,
    decreases ids.len(),
{
    if ids[0] == id {
        assert(0 <= 0 < ids.len() && ids[0] == id && forall|q: int| 0 <= q < 0 ==> ids[q] != id);
    } else {
        let rest = ids.subrange(1, ids.len() as int);
        let w = choose|w: int| 0 <= w < ids.len() && ids[w] == id;
        assert(rest[w - 1] == id);
        lemma_first_place(rest, id);
        let p = first_place(rest, id) + 1;
        assert forall|q: int| 0 <= q < p implies ids[q] != id by {
            if q > 0 {
                assert(rest[q - 1] == ids[q]);
            }
        }
        assert(0 <= p < ids.len() && ids[p] == id && forall|q: int| 0 <= q < p ==> ids[q] != id);
    }
}

/// The index after `id` was added at the end of the entry of `owner`,
/// which is made if it was not there.
pub open spec fn recorded(index: Map<Seq<char>, Seq<u128>>, owner: Seq<char>, id: u128) -> Map<
    Seq<char>,
    Seq<u128>,
> {
    index.insert(owner, listed(index, owner).push(id))
}

/// The index after the first occurrence of `id` left the entry of
/// `owner`; the index itself where there is no such entry or occurrence.
pub open spec fn unrecorded(index: Map<Seq<char>, Seq<u128>>, owner: Seq<char>, id: u128) -> Map<
    Seq<char>,
    Seq<u128>,
> {
    if index.contains_key(owner) {
        index.insert(owner, without_first(index[owner], id))
    } else {
        index
    }
}

/// The index entry of one owner.
pub struct OwnerEntry {
    owner: String,
    ids: Vec<u128>,
}

/// The owner index, one entry for each owner that ever created an object.
pub struct OwnerIndex {
    entries: Vec<OwnerEntry>,
}

/// No two entries speak of the same owner.
spec fn distinct_owners(entries: Seq<OwnerEntry>) -> bool {
    forall|a: int, b: int|
        0 <= a < entries.len() && 0 <= b < entries.len() && a != b ==> entries[a].owner@
            != entries[b].owner@
}

/// Some entry speaks of `owner`.
spec fn has_owner(entries: Seq<OwnerEntry>, owner: Seq<char>) -> bool {
    exists|i: int| 0 <= i < entries.len() && entries[i].owner@ == owner
}

/// The place of an entry that speaks of `owner`.
spec fn place_of(entries: Seq<OwnerEntry>, owner: Seq<char>) -> int {
    choose|i: int| 0 <= i < entries.len() && entries[i].owner@ == owner
}

/// The map that a list of entries stands for.
spec fn index_of_entries(entries: Seq<OwnerEntry>) -> Map<Seq<char>, Seq<u128>> {
    Map::new(
        |k: Seq<char>| has_owner(entries, k),
        |k: Seq<char>| entries[place_of(entries, k)].ids@,
    )
}

/// The entry at place `i` is the one that the map shows for its owner.
proof fn lemma_entry_lookup(entries: Seq<OwnerEntry>, i: int)
    requires
        distinct_owners(entries),
        0 <= i < entries.len(),
    ensures
        index_of_entries(entries).contains_key(entries[i].owner@),
        index_of_entries(entries)[entries[i].owner@] == entries[i].ids@,
{
    assert(has_owner(entries, entries[i].owner@));
}

/// An entry for a new owner, added at the end, is an insertion into the map.
proof fn lemma_entry_pushed(entries: Seq<OwnerEntry>, e: OwnerEntry)
    requires
        distinct_owners(entries),
        !has_owner(entries, e.owner@),
    ensures
        distinct_owners(entries.push(e)),
        index_of_entries(entries.push(e)) == index_of_entries(entries).insert(e.owner@, e.ids@),
{
    let after = entries.push(e);
    assert forall|a: int, b: int|
        0 <= a < after.len() && 0 <= b < after.len() && a != b implies after[a].owner@
        != after[b].owner@ by {
        if a < entries.len() && b < entries.len() {
        } else if a < entries.len() {
            assert(entries[a].owner@ != e.owner@);
        } else {
            assert(entries[b].owner@ != e.owner@);
        }
    }
    let m1 = index_of_entries(after);
    let m2 = index_of_entries(entries).insert(e.owner@, e.ids@);
    assert forall|k: Seq<char>| m1.contains_key(k) <==> m2.contains_key(k) by {
        if has_owner(after, k) {
            let i = place_of(after, k);
            if i < entries.len() {
                assert(entries[i].owner@ == k);
            }
        }
        if has_owner(entries, k) {
            let i = place_of(entries, k);
            assert(after[i].owner@ == k);
        }
        if k == e.owner@ {
            assert(after[entries.len() as int].owner@ == k);
        }
    }
    assert forall|k: Seq<char>| m1.contains_key(k) implies m1[k] == m2[k] by {
        let i = place_of(after, k);
        lemma_entry_lookup(after, i);
        if i < entries.len() {
            lemma_entry_lookup(entries, i);
        }
    }
    assert(m1 =~= m2);
}

/// A change of the identifiers of the entry at place `i` is an insertion
/// into the map under that entry's owner.
proof fn lemma_entry_changed(entries: Seq<OwnerEntry>, i: int, e: OwnerEntry)
    requires
        distinct_owners(entries),
        0 <= i < entries.len(),
        e.owner@ == entries[i].owner@,
    ensures
        distinct_owners(entries.update(i, e)),
        index_of_entries(entries.update(i, e)) == index_of_entries(entries).insert(
            e.owner@,
            e.ids@,
        ),
{
    let after = entries.update(i, e);
    assert forall|a: int, b: int|
        0 <= a < after.len() && 0 <= b < after.len() && a != b implies after[a].owner@
        != after[b].owner@ by {
        assert(after[a].owner@ == entries[a].owner@);
        assert(after[b].owner@ == entries[b].owner@);
    }
    let m1 = index_of_entries(after);
    let m2 = index_of_entries(entries).insert(e.owner@, e.ids@);
    assert forall|k: Seq<char>| m1.contains_key(k) <==> m2.contains_key(k) by {
        if has_owner(after, k) {
            let p = place_of(after, k);
            assert(entries[p].owner@ == k);
        }
        if has_owner(entries, k) {
            let p = place_of(entries, k);
            assert(after[p].owner@ == k);
        }
        if k == e.owner@ {
            assert(after[i].owner@ == k);
        }
    }
    assert forall|k: Seq<char>| m1.contains_key(k) implies m1[k] == m2[k] by {
        let p = place_of(after, k);
        lemma_entry_lookup(after, p);
        assert(entries[p].owner@ == k);
        lemma_entry_lookup(entries, p);
    }
    assert(m1 =~= m2);
}

/// The place of the entry of `owner`, if it has one.
fn find_entry(entries: &Vec<OwnerEntry>, owner: &String) -> (found: Option<usize>)
    ensures
        found matches Some(i) ==> i < entries@.len() && entries@[i as int].owner@ == owner@,
        found is None ==> !has_owner(entries@, owner@),
{
    let mut i: usize = 0;
    while i < entries.len()
        invariant
            i <= entries@.len(),
            forall|j: int| 0 <= j < i ==> entries@[j].owner@ != owner@,
        decreases entries@.len() - i,
    {
        if entries[i].owner == *owner {
            return Some(i);
        }
        i += 1;
    }
    None
}

/// The first place of `id` in `ids`, if it occurs.
fn find_id(ids: &Vec<u128>, id: u128) -> (found: Option<usize>)
    ensures
        found matches Some(j) ==> j < ids@.len() && ids@.contains(id) && j == first_place(
            ids@,
            id,
        ),
        found is None ==> !ids@.contains(id),
{
    let mut j: usize = 0;
    while j < ids.len()
        invariant
            j <= ids@.len(),
            forall|q: int| 0 <= q < j ==> ids@[q] != id,
        decreases ids@.len() - j,
    {
        if ids[j] == id {
            let ghost p = first_place(ids@, id);
            assert(0 <= p < ids@.len() && ids@[p] == id && forall|q: int|
                0 <= q < p ==> ids@[q] != id);
            return Some(j);
        }
        j += 1;
    }
    None
}

impl View for OwnerIndex {
    type V = Map<Seq<char>, Seq<u128>>;

    closed spec fn view(&self) -> Map<Seq<char>, Seq<u128>> {
        index_of_entries(self.entries@)
    }
}

impl OwnerIndex {
    /// The index has at most one entry for each owner.
    pub closed spec fn wf(&self) -> bool {
        distinct_owners(self.entries@)
    }

    /// An index without entries.
    pub fn new() -> (index: OwnerIndex)
        ensures
            index.wf(),
            index@ == Map::<Seq<char>, Seq<u128>>::empty(),
    {
        let index = OwnerIndex { entries: Vec::new() };
        assert(index@ =~= Map::<Seq<char>, Seq<u128>>::empty());
        index
    }

    /// Adds `id` at the end of the entry of `owner`, and makes the entry
    /// if this is the owner's first identifier.
    pub fn record(&mut self, owner: String, id: u128)
        requires
            old(self).wf(),
        ensures
            final(self).wf(),
            final(self)@ == recorded(old(self)@, owner@, id),
    {
        match find_entry(&self.entries, &owner) {
            None => {
                let mut ids: Vec<u128> = Vec::new();
                ids.push(id);
                let entry = OwnerEntry { owner, ids };
                proof {
                    lemma_entry_pushed(self.entries@, entry);
                    assert(entry.ids@ =~= listed(self@, entry.owner@).push(id));
                }
                self.entries.push(entry);
            },
            Some(i) => {
                proof {
                    lemma_entry_lookup(self.entries@, i as int);
                }
                self.entries[i].ids.push(id);
                proof {
                    lemma_entry_changed(old(self).entries@, i as int, self.entries@[i as int]);
                }
            },
        }
    }

    /// Strikes the first occurrence of `id` from the entry of `owner`.
    /// Nothing happens where the owner has no entry or the entry does not
    /// hold `id`.
    pub fn unrecord(&mut self, owner: &String, id: u128)
        requires
            old(self).wf(),
        ensures
            final(self).wf(),
            final(self)@ == unrecorded(old(self)@, owner@, id),
    {
        match find_entry(&self.entries, owner) {
            Some(i) => {
                proof {
                    lemma_entry_lookup(self.entries@, i as int);
                }
                match find_id(&self.entries[i].ids, id) {
                    Some(j) => {
                        self.entries[i].ids.remove(j);
                        proof {
                            lemma_entry_changed(
                                old(self).entries@,
                                i as int,
                                self.entries@[i as int],
                            );
                        }
                    },
                    None => {
                        assert(self@.insert(owner@, self@[owner@]) =~= self@);
                    },
                }
            },
            None => {},
        }
    }

    /// The identifiers of `owner`, oldest first; none where the owner
    /// never created an object.
    pub fn list(&self, owner: &String) -> (ids: Vec<u128>)
        requires
            self.wf(),
        ensures
            ids@ == listed(self@, owner@),
    {
        match find_entry(&self.entries, owner) {
            Some(i) => {
                proof {
                    lemma_entry_lookup(self.entries@, i as int);
                }
                let ids = self.entries[i].ids.clone();
                assert(ids@ =~= self.entries@[i as int].ids@);
                ids
            },
            None => Vec::new(),
        }
    }
}

} // verus!
