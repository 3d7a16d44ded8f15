//! In-memory storage for records keyed by a string id, with the operations
//! the repositories share: insert, replace, find and delete, each exact about
//! what it does to the collection.

use crate::common::{GetId, HasId};
use crate::repo::{DeleteError, InsertError, ReplaceError};
use vstd::prelude::*;

verus! {

/// An in-memory collection of records. Its mathematical image is the sequence
/// of records it holds, in insertion order.
pub struct Collection<T> {
    items: Vec<T>,
}

impl<T> View for Collection<T> {
    type V = Seq<T>;

    closed spec fn view(&self) -> Seq<T> {
        self.items@
    }
}

impl<T> Collection<T> {
    /// An empty collection.
    pub fn new() -> (r: Self)
        ensures
            r@ == Seq::<T>::empty(),
    {
        Collection { items: Vec::new() }
    }
}

/// Whether some record in `s` has the id `k`.
pub open spec fn contains_id<T: GetId + HasId<Id = String>>(s: Seq<T>, k: Seq<char>) -> bool {
    exists|i: int| 0 <= i < s.len() && (#[trigger] s[i].spec_id())@ == k
}

/// No two records share an id.
pub open spec fn unique_ids<T: GetId + HasId<Id = String>>(s: Seq<T>) -> bool {
    forall|i: int, j: int|
        0 <= i < j < s.len() ==> (#[trigger] s[i].spec_id())@ != (#[trigger] s[j].spec_id())@
}

/// The records of `s` as a map from id to mathematical image. A later record
/// wins, though under [`unique_ids`] there is at most one per id.
pub open spec fn id_map<T: GetId + HasId<Id = String> + View>(s: Seq<T>) -> Map<Seq<char>, T::V>
    decreases s.len(),
{
    if s.len() == 0 {
        Map::empty()
    } else {
        id_map(s.drop_last()).insert(s.last().spec_id()@, s.last()@)
    }
}

/// The map holds exactly the ids the sequence holds.
pub proof fn lemma_id_map_domain<T: GetId + HasId<Id = String> + View>(s: Seq<T>)
    ensures
        forall|k: Seq<char>| #[trigger] id_map(s).contains_key(k) <==> contains_id(s, k),
    decreases s.len(),
{
    if s.len() > 0 {
        lemma_id_map_domain(s.drop_last());
        assert forall|k: Seq<char>| #[trigger] id_map(s).contains_key(k) <==> contains_id(
            s,
            k,
        ) by {
            if id_map(s).contains_key(k) {
                if k == s.last().spec_id()@ {
                    assert((s[s.len() - 1].spec_id())@ == k);
                } else {
                    assert(id_map(s.drop_last()).contains_key(k));
                    assert(contains_id(s.drop_last(), k));
                    let i = choose|i: int|
                        0 <= i < s.drop_last().len() && (#[trigger] s.drop_last()[i].spec_id())@
                            == k;
                    assert(s.drop_last()[i] == s[i]);
                    assert((s[i].spec_id())@ == k);
                }
                assert(contains_id(s, k));
            }
            if contains_id(s, k) {
                let i = choose|i: int| 0 <= i < s.len() && (#[trigger] s[i].spec_id())@ == k;
                if i < s.len() - 1 {
                    assert(s.drop_last()[i] == s[i]);
                    assert((s.drop_last()[i].spec_id())@ == k);
                    assert(contains_id(s.drop_last(), k));
                    assert(id_map(s.drop_last()).contains_key(k));
                } else {
                    assert(k == s.last().spec_id()@);
                }
                assert(id_map(s).contains_key(k));
            }
        }
    }
}

/// Under unique ids, the map sends each record's id to that record's image.
pub proof fn lemma_id_map_get<T: GetId + HasId<Id = String> + View>(s: Seq<T>, i: int)
    requires
        unique_ids(s),
        0 <= i < s.len(),
    ensures
        id_map(s).contains_key(s[i].spec_id()@),
        id_map(s)[s[i].spec_id()@] == s[i]@,
    decreases s.len(),
{
    if i == s.len() - 1 {
    } else {
        assert(s[i].spec_id()@ != s[s.len() - 1].spec_id()@);
        assert(s.drop_last()[i] == s[i]);
        lemma_id_map_get(s.drop_last(), i);
    }
}

/// Replacing the record at `i` with one of the same id updates the map at
/// that id.
pub proof fn lemma_id_map_update<T: GetId + HasId<Id = String> + View>(s: Seq<T>, i: int, x: T)
    requires
        unique_ids(s),
        0 <= i < s.len(),
        s[i].spec_id()@ == x.spec_id()@,
    ensures
        id_map(s.update(i, x)) =~= id_map(s).insert(x.spec_id()@, x@),
    decreases s.len(),
{
    let k = x.spec_id()@;
    if i == s.len() - 1 {
        assert(s.update(i, x).drop_last() =~= s.drop_last());
        assert(s.update(i, x).last() == x);
    } else {
        assert(s.update(i, x).drop_last() =~= s.drop_last().update(i, x));
        assert(s.update(i, x).last() == s.last());
        assert(s.drop_last()[i] == s[i]);
        lemma_id_map_update(s.drop_last(), i, x);
        assert(s[i].spec_id()@ != s[s.len() - 1].spec_id()@);
        assert(id_map(s.update(i, x)) =~= id_map(s.drop_last()).insert(k, x@).insert(
            s.last().spec_id()@,
            s.last()@,
        ));
    }
}

/// Appending a record inserts its id into the map.
pub proof fn lemma_id_map_push<T: GetId + HasId<Id = String> + View>(s: Seq<T>, x: T)
    ensures
        id_map(s.push(x)) =~= id_map(s).insert(x.spec_id()@, x@),
{
    assert(s.push(x).drop_last() =~= s);
    assert(s.push(x).last() == x);
}

/// Removing the record at `i` removes its id from the map.
pub proof fn lemma_id_map_remove<T: GetId + HasId<Id = String> + View>(s: Seq<T>, i: int)
    requires
        unique_ids(s),
        0 <= i < s.len(),
    ensures
        id_map(s.remove(i)) =~= id_map(s).remove(s[i].spec_id()@),
    decreases s.len(),
{
    let k = s[i].spec_id()@;
    lemma_id_map_domain(s.drop_last());
    if i == s.len() - 1 {
        assert(s.remove(i) =~= s.drop_last());
        assert(!contains_id(s.drop_last(), k)) by {
            if contains_id(s.drop_last(), k) {
                let j = choose|j: int|
                    0 <= j < s.drop_last().len() && (#[trigger] s.drop_last()[j].spec_id())@ == k;
                assert(s[j].spec_id()@ == s[i].spec_id()@);
            }
        }
        assert(id_map(s.remove(i)) =~= id_map(s).remove(k));
    } else {
        assert(s.remove(i).drop_last() =~= s.drop_last().remove(i));
        assert(s.remove(i).last() == s.last());
        assert(s.drop_last()[i] == s[i]);
        lemma_id_map_remove(s.drop_last(), i);
        assert(s[i].spec_id()@ != s[s.len() - 1].spec_id()@);
        assert(id_map(s.remove(i)) =~= id_map(s.drop_last()).remove(k).insert(
            s.last().spec_id()@,
            s.last()@,
        ));
    }
}

/// The position of the record with id `k`, if any.
fn find_index<T: GetId + HasId<Id = String>>(id: &String, collection: &Collection<T>) -> (r:
    Option<usize>)
    ensures
        r matches Some(i) ==> 0 <= i < collection@.len() && collection@[i as int].spec_id()@ == id@,
        r is None ==> !contains_id(collection@, id@),
{
    let n = collection.items.len();
    let mut i: usize = 0;
    while i < n
        invariant
            0 <= i <= n,
            n == collection@.len(),
            collection@ == collection.items@,
            forall|j: int| 0 <= j < i ==> (#[trigger] collection@[j].spec_id())@ != id@,
        decreases n - i,
    {
        if *collection.items[i].id() == *id {
            return Some(i);
        }
        i = i + 1;
    }
    None
}

/// Adds a record, refusing an id that is already present.
pub fn insert_one<T: GetId + HasId<Id = String>>(item: T, collection: &mut Collection<T>) -> (r:
    Result<(), InsertError>)
    ensures
        r is Ok <==> !contains_id(old(collection)@, item.spec_id()@),
        r is Ok ==> final(collection)@ == old(collection)@.push(item),
        r is Err ==> final(collection)@ == old(collection)@ && r matches Err(
            InsertError::AlreadyExists,
        ),
        unique_ids(old(collection)@) ==> unique_ids(final(collection)@),
{
    match find_index(item.id(), collection) {
        Some(_) => Err(InsertError::AlreadyExists),
        None => {
            collection.items.push(item);
            Ok(())
        },
    }
}

/// Replaces the record that has the same id as `item`, failing if none does.
pub fn replace_one<T: GetId + HasId<Id = String>>(item: T, collection: &mut Collection<T>) -> (r:
    Result<(), ReplaceError>)
    requires
        unique_ids(old(collection)@),
    ensures
        unique_ids(final(collection)@),
        r is Ok <==> contains_id(old(collection)@, item.spec_id()@),
        r is Ok ==> exists|i: int|
            0 <= i < old(collection)@.len() && (#[trigger] old(collection)@[i].spec_id())@
                == item.spec_id()@ && final(collection)@ == old(collection)@.update(i, item),
        r is Err ==> final(collection)@ == old(collection)@ && r matches Err(ReplaceError::NotFound),
{
    match find_index(item.id(), collection) {
        None => Err(ReplaceError::NotFound),
        Some(i) => {
            collection.items.set(i, item);
            proof {
                assert forall|x: int, y: int|
                    0 <= x < y < collection@.len() implies (#[trigger] collection@[x].spec_id())@
                    != (#[trigger] collection@[y].spec_id())@ by {
                    if x != i && y != i {
                        assert(collection@[x] == old(collection)@[x]);
                        assert(collection@[y] == old(collection)@[y]);
                    }
                }
            }
            Ok(())
        },
    }
}

/// The record with the given id, if any.
pub fn find_one<'a, T: GetId + HasId<Id = String>>(
    id: &String,
    collection: &'a Collection<T>,
) -> (r: Option<&'a T>)
    ensures
        r matches Some(t) ==> exists|i: int|
            0 <= i < collection@.len() && collection@[i] == *t && (
            #[trigger] collection@[i].spec_id())@ == id@,
        r is Some <==> contains_id(collection@, id@),
{
    match find_index(id, collection) {
        None => None,
        Some(i) => Some(&collection.items[i]),
    }
}

/// Removes the record with the given id, failing if none has it.
pub fn delete_one<T: GetId + HasId<Id = String>>(id: &String, collection: &mut Collection<T>) -> (r:
    Result<(), DeleteError>)
    requires
        unique_ids(old(collection)@),
    ensures
        unique_ids(final(collection)@),
        r is Ok <==> contains_id(old(collection)@, id@),
        r is Ok ==> exists|i: int|
            0 <= i < old(collection)@.len() && (#[trigger] old(collection)@[i].spec_id())@ == id@
                && final(collection)@ == old(collection)@.remove(i),
        r is Err ==> final(collection)@ == old(collection)@ && r matches Err(DeleteError::NotFound),
{
    match find_index(id, collection) {
        None => Err(DeleteError::NotFound),
        Some(i) => {
            collection.items.remove(i);
            proof {
                let s = old(collection)@.remove(i as int);
                assert forall|x: int, y: int|
                    0 <= x < y < s.len() implies (#[trigger] s[x].spec_id())@ != (
                #[trigger] s[y].spec_id())@ by {
                    assert(s[x] == if x < i {
                        old(collection)@[x]
                    } else {
                        old(collection)@[x + 1]
                    });
                    assert(s[y] == if y < i {
                        old(collection)@[y]
                    } else {
                        old(collection)@[y + 1]
                    });
                }
            }
            Ok(())
        },
    }
}

} // verus!
