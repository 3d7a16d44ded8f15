//! Teams: named groups of people within a company, plus the membership
//! records that tie a person to a team.

use crate::common::{GetId, HasId};
use crate::repo::memory_op::{
    delete_one, find_one, id_map, insert_one, lemma_id_map_domain, lemma_id_map_get,
    lemma_id_map_push, lemma_id_map_remove, unique_ids, Collection,
};
use crate::repo::{DeleteError, InsertError, StoreError};
use vstd::prelude::*;

verus! {

/// A team, owned by one company.
#[derive(Debug, Clone)]
pub struct Team {
    pub id: String,
    pub name: String,
    pub company_id: String,
}

/// Mathematical image of a [`Team`].
pub ghost struct TeamView {
    pub id: Seq<char>,
    pub name: Seq<char>,
    pub company_id: Seq<char>,
}

impl View for Team {
    type V = TeamView;

    open spec fn view(&self) -> TeamView {
        TeamView { id: self.id@, name: self.name@, company_id: self.company_id@ }
    }
}

impl HasId for Team {
    type Id = String;

    open spec fn spec_id(&self) -> String {
        self.id
    }
}

impl GetId for Team {
    fn id(&self) -> (r: &String)
        ensures
            *r == self.spec_id(),
    {
        &self.id
    }
}

impl Team {
    pub fn name(&self) -> (r: &str)
        ensures
            r@ == self.name@,
    {
        self.name.as_str()
    }
}

/// Membership of one person in one team.
#[derive(Debug, Clone)]
pub struct TeamPerson {
    pub team_id: String,
    pub person_id: String,
}

/// Filter for listing teams.
#[derive(Debug, Clone)]
pub struct TeamFilter {
    pub company_ids: Option<Vec<String>>,
}

impl Default for TeamFilter {
    fn default() -> (r: Self)
        ensures
            r.company_ids is None,
    {
        TeamFilter { company_ids: None }
    }
}

/// What team persistence owes its callers; a store may fail at any call.
pub trait TeamRepo {
    /// The teams the store holds, by id.
    spec fn teams(&self) -> Map<Seq<char>, TeamView>;

    fn insert_one(&mut self, team: &Team) -> (r: Result<(), InsertError>)
        ensures
            r is Ok ==> !old(self).teams().contains_key(team@.id) && final(self).teams() == old(self).teams().insert(team@.id, team@),
    ;

    fn find_one(&self, id: &str) -> (r: Result<Option<Team>, StoreError>)
        ensures
            r matches Ok(o) ==> {
                &&& o is Some <==> self.teams().contains_key(id@)
                &&& o matches Some(t) ==> t@ == self.teams()[id@]
            },
    ;

    fn delete_one(&mut self, id: &str) -> (r: Result<(), DeleteError>)
        ensures
            r is Ok ==> old(self).teams().contains_key(id@) && final(self).teams() == old(self).teams().remove(id@),
            r matches Err(DeleteError::NotFound) ==> !old(self).teams().contains_key(id@) && final(self).teams() == old(self).teams(),
    ;
}

/// An in-memory team store: the reference implementation of [`TeamRepo`].
pub struct MemoryTeamRepo {
    items: Collection<Team>,
}

impl MemoryTeamRepo {
    #[verifier::type_invariant]
    spec fn inv(&self) -> bool {
        unique_ids(self.items@)
    }

    /// An empty store.
    pub fn new() -> (r: Self)
        ensures
            r.teams() == Map::<Seq<char>, TeamView>::empty(),
    {
        MemoryTeamRepo { items: Collection::new() }
    }
}

impl TeamRepo for MemoryTeamRepo {
    closed spec fn teams(&self) -> Map<Seq<char>, TeamView> {
        id_map(self.items@)
    }

    fn insert_one(&mut self, team: &Team) -> (r: Result<(), InsertError>) {
        proof {
            use_type_invariant(&*self);
            lemma_id_map_domain(self.items@);
        }
        let ghost old_items = self.items@;
        let copy = Team {
            id: team.id.clone(),
            name: team.name.clone(),
            company_id: team.company_id.clone(),
        };
        let mut items = Collection::new();
        core::mem::swap(&mut items, &mut self.items);
        let r = insert_one(copy, &mut items);
        proof {
            if r is Ok {
                lemma_id_map_push(old_items, copy);
            }
        }
        core::mem::swap(&mut items, &mut self.items);
        r
    }

    fn find_one(&self, id: &str) -> (r: Result<Option<Team>, StoreError>) {
        proof {
            use_type_invariant(&*self);
            lemma_id_map_domain(self.items@);
        }
        let key = id.to_owned();
        match find_one(&key, &self.items) {
            None => Ok(None),
            Some(found) => {
                proof {
                    let i = choose|i: int|
                        0 <= i < self.items@.len() && self.items@[i] == *found && (
                        #[trigger] self.items@[i].spec_id())@ == key@;
                    lemma_id_map_get(self.items@, i);
                }
                Ok(
                    Some(
                        Team {
                            id: found.id.clone(),
                            name: found.name.clone(),
                            company_id: found.company_id.clone(),
                        },
                    ),
                )
            },
        }
    }

    fn delete_one(&mut self, id: &str) -> (r: Result<(), DeleteError>) {
        proof {
            use_type_invariant(&*self);
            lemma_id_map_domain(self.items@);
        }
        let ghost old_items = self.items@;
        let key = id.to_owned();
        let mut items = Collection::new();
        core::mem::swap(&mut items, &mut self.items);
        let r = delete_one(&key, &mut items);
        proof {
            if r is Ok {
                let i = choose|i: int|
                    0 <= i < old_items.len() && (#[trigger] old_items[i].spec_id())@ == key@
                        && items@ == old_items.remove(i);
                lemma_id_map_remove(old_items, i);
            }
        }
        core::mem::swap(&mut items, &mut self.items);
        r
    }
}

} // verus!
