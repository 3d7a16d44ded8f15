//! People: the workers the service tracks.

use crate::common::{GetId, HasId};
use crate::repo::memory_op::{
    delete_one, find_one, id_map, insert_one, lemma_id_map_domain, lemma_id_map_get,
    lemma_id_map_push, lemma_id_map_remove, unique_ids, Collection,
};
use crate::repo::{DeleteError, InsertError, StoreError};
use vstd::prelude::*;

verus! {

/// A person, employed by one company.
#[derive(Debug, Clone)]
pub struct Person {
    pub id: String,
    pub name: String,
    pub company_id: String,
}

/// Mathematical image of a [`Person`].
pub ghost struct PersonView {
    pub id: Seq<char>,
    pub name: Seq<char>,
    pub company_id: Seq<char>,
}

impl View for Person {
    type V = PersonView;

    open spec fn view(&self) -> PersonView {
        PersonView { id: self.id@, name: self.name@, company_id: self.company_id@ }
    }
}

impl HasId for Person {
    type Id = String;

    open spec fn spec_id(&self) -> String {
        self.id
    }
}

impl GetId for Person {
    fn id(&self) -> (r: &String)
        ensures
            *r == self.spec_id(),
    {
        &self.id
    }
}

impl Person {
    pub fn name(&self) -> (r: &str)
        ensures
            r@ == self.name@,
    {
        self.name.as_str()
    }
}

/// Filter for listing people.
#[derive(Debug, Clone)]
pub struct PersonFilter {
    pub company_ids: Option<Vec<String>>,
}

impl Default for PersonFilter {
    fn default() -> (r: Self)
        ensures
            r.company_ids is None,
    {
        PersonFilter { company_ids: None }
    }
}

/// What person persistence owes its callers; a store may fail at any call.
pub trait PersonRepo {
    /// The people the store holds, by id.
    spec fn people(&self) -> Map<Seq<char>, PersonView>;

    fn insert_one(&mut self, person: &Person) -> (r: Result<(), InsertError>)
        ensures
            r is Ok ==> !old(self).people().contains_key(person@.id) && final(self).people() == old(self).people().insert(person@.id, person@),
    ;

    fn find_one(&self, id: &str) -> (r: Result<Option<Person>, StoreError>)
        ensures
            r matches Ok(o) ==> {
                &&& o is Some <==> self.people().contains_key(id@)
                &&& o matches Some(p) ==> p@ == self.people()[id@]
            },
    ;

    fn delete_one(&mut self, id: &str) -> (r: Result<(), DeleteError>)
        ensures
            r is Ok ==> old(self).people().contains_key(id@) && final(self).people() == old(self).people().remove(id@),
            r matches Err(DeleteError::NotFound) ==> !old(self).people().contains_key(id@) && final(self).people() == old(self).people(),
    ;
}

/// An in-memory person store: the reference implementation of [`PersonRepo`].
pub struct MemoryPersonRepo {
    items: Collection<Person>,
}

impl MemoryPersonRepo {
    #[verifier::type_invariant]
    spec fn inv(&self) -> bool {
        unique_ids(self.items@)
    }

    /// An empty store.
    pub fn new() -> (r: Self)
        ensures
            r.people() == Map::<Seq<char>, PersonView>::empty(),
    {
        MemoryPersonRepo { items: Collection::new() }
    }
}

impl PersonRepo for MemoryPersonRepo {
    closed spec fn people(&self) -> Map<Seq<char>, PersonView> {
        id_map(self.items@)
    }

    fn insert_one(&mut self, person: &Person) -> (r: Result<(), InsertError>) {
        proof {
            use_type_invariant(&*self);
            lemma_id_map_domain(self.items@);
        }
        let ghost old_items = self.items@;
        let copy = Person {
            id: person.id.clone(),
            name: person.name.clone(),
            company_id: person.company_id.clone(),
        };
        let mut items = Collection::new();
        core::mem::swap(&mut items, &mut self.items);
        let r = insert_one(copy, &mut items);
        proof {
            if r is Ok {
                lemma_id_map_push(old_items, copy);
            }
        }
        core::mem::swap(&mut items, &mut self.items);
        r
    }

    fn find_one(&self, id: &str) -> (r: Result<Option<Person>, StoreError>) {
        proof {
            use_type_invariant(&*self);
            lemma_id_map_domain(self.items@);
        }
        let key = id.to_owned();
        match find_one(&key, &self.items) {
            None => Ok(None),
            Some(found) => {
                proof {
                    let i = choose|i: int|
                        0 <= i < self.items@.len() && self.items@[i] == *found && (
                        #[trigger] self.items@[i].spec_id())@ == key@;
                    lemma_id_map_get(self.items@, i);
                }
                Ok(
                    Some(
                        Person {
                            id: found.id.clone(),
                            name: found.name.clone(),
                            company_id: found.company_id.clone(),
                        },
                    ),
                )
            },
        }
    }

    fn delete_one(&mut self, id: &str) -> (r: Result<(), DeleteError>) {
        proof {
            use_type_invariant(&*self);
            lemma_id_map_domain(self.items@);
        }
        let ghost old_items = self.items@;
        let key = id.to_owned();
        let mut items = Collection::new();
        core::mem::swap(&mut items, &mut self.items);
        let r = delete_one(&key, &mut items);
        proof {
            if r is Ok {
                let i = choose|i: int|
                    0 <= i < old_items.len() && (#[trigger] old_items[i].spec_id())@ == key@
                        && items@ == old_items.remove(i);
                lemma_id_map_remove(old_items, i);
            }
        }
        core::mem::swap(&mut items, &mut self.items);
        r
    }
}

} // verus!
