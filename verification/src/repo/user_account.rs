//! User accounts and their credential records, and the abstract store that
//! persists them.

use crate::access::Access;
use crate::common::{GetId, HasId};
use crate::repo::memory_op::{
    delete_one, find_one, id_map, insert_one, lemma_id_map_domain, lemma_id_map_get,
    lemma_id_map_push, lemma_id_map_remove, lemma_id_map_update, replace_one, unique_ids,
    Collection,
};
use crate::repo::{DeleteError, InsertError, ReplaceError, StoreError};
use vstd::prelude::*;

verus! {

/// A user account. `access` is the account's current access level; tokens
/// copy it at issue time.
#[derive(Debug, Clone)]
pub struct UserAccount {
    pub id: String,
    pub name: String,
    pub title: String,
    pub email: String,
    pub phone: String,
    pub company_id: String,
    pub access: Access,
}

/// Mathematical image of a [`UserAccount`].
pub ghost struct UserAccountView {
    pub id: Seq<char>,
    pub name: Seq<char>,
    pub title: Seq<char>,
    pub email: Seq<char>,
    pub phone: Seq<char>,
    pub company_id: Seq<char>,
    pub access: Access,
}

impl View for UserAccount {
    type V = UserAccountView;

    open spec fn view(&self) -> UserAccountView {
        UserAccountView {
            id: self.id@,
            name: self.name@,
            title: self.title@,
            email: self.email@,
            phone: self.phone@,
            company_id: self.company_id@,
            access: self.access,
        }
    }
}

impl UserAccount {
    pub fn name(&self) -> (r: &str)
        ensures
            r@ == self.name@,
    {
        self.name.as_str()
    }

    pub fn title(&self) -> (r: &str)
        ensures
            r@ == self.title@,
    {
        self.title.as_str()
    }

    pub fn email(&self) -> (r: &str)
        ensures
            r@ == self.email@,
    {
        self.email.as_str()
    }

    pub fn phone(&self) -> (r: &str)
        ensures
            r@ == self.phone@,
    {
        self.phone.as_str()
    }
}

/// A stored credential record: the iterated password hash and the salt it was
/// derived with, both as lowercase hex. Always written and read as a matched
/// pair; a hash is never checked against a salt from another derivation.
#[derive(Debug, Clone)]
pub struct Creds {
    pub password_hash: String,
    pub salt: String,
}

/// Mathematical image of a [`Creds`] record.
pub ghost struct CredsView {
    pub password_hash: Seq<char>,
    pub salt: Seq<char>,
}

impl View for Creds {
    type V = CredsView;

    open spec fn view(&self) -> CredsView {
        CredsView { password_hash: self.password_hash@, salt: self.salt@ }
    }
}

/// A credential record as the store keeps it, keyed by the account id.
#[derive(Debug, Clone)]
pub struct DbCreds {
    pub user_account_id: String,
    pub password_hash: String,
    pub salt: String,
}

impl DbCreds {
    /// The credential pair of this record.
    pub fn creds(&self) -> (r: Creds)
        ensures
            r@.password_hash == self.password_hash@,
            r@.salt == self.salt@,
    {
        Creds { password_hash: self.password_hash.clone(), salt: self.salt.clone() }
    }
}

/// Filter for listing user accounts.
#[derive(Debug, Clone)]
pub struct UserAccountFilter {
    pub company_ids: Option<Vec<String>>,
}

impl Default for UserAccountFilter {
    fn default() -> (r: Self)
        ensures
            r.company_ids is None,
    {
        UserAccountFilter { company_ids: None }
    }
}

/// What the auth layer asks of user-account persistence: accounts and
/// credential records, each keyed by account id. A store may fail at any
/// call (`StoreError`, kept opaque); what it returns on success must reflect
/// its contents.
pub trait UserAccountRepo {
    /// The accounts the store holds, by id.
    spec fn accounts(&self) -> Map<Seq<char>, UserAccountView>;

    /// The credential records the store holds, by account id.
    spec fn creds(&self) -> Map<Seq<char>, CredsView>;

    fn insert_one(&mut self, user_account: UserAccount) -> (r: Result<(), InsertError>)
        ensures
            r is Ok ==> {
                &&& !old(self).accounts().contains_key(user_account@.id)
                &&& final(self).accounts() == old(self).accounts().insert(
                    user_account@.id,
                    user_account@,
                )
                &&& final(self).creds() == old(self).creds()
            },
            r matches Err(InsertError::AlreadyExists) ==> {
                &&& old(self).accounts().contains_key(user_account@.id)
                &&& final(self).accounts() == old(self).accounts()
                &&& final(self).creds() == old(self).creds()
            },
    ;

    fn replace_one(&mut self, user_account: UserAccount) -> (r: Result<(), ReplaceError>)
        ensures
            r is Ok ==> {
                &&& old(self).accounts().contains_key(user_account@.id)
                &&& final(self).accounts() == old(self).accounts().insert(
                    user_account@.id,
                    user_account@,
                )
                &&& final(self).creds() == old(self).creds()
            },
            r matches Err(ReplaceError::NotFound) ==> {
                &&& !old(self).accounts().contains_key(user_account@.id)
                &&& final(self).accounts() == old(self).accounts()
                &&& final(self).creds() == old(self).creds()
            },
    ;

    fn find_one(&self, id: &str) -> (r: Result<Option<UserAccount>, StoreError>)
        ensures
            r matches Ok(o) ==> {
                &&& o is Some <==> self.accounts().contains_key(id@)
                &&& o matches Some(ua) ==> ua@ == self.accounts()[id@]
            },
    ;

    fn delete_one(&mut self, id: &str) -> (r: Result<(), DeleteError>)
        ensures
            r is Ok ==> {
                &&& old(self).accounts().contains_key(id@)
                &&& final(self).accounts() == old(self).accounts().remove(id@)
                &&& final(self).creds() == old(self).creds()
            },
            r matches Err(DeleteError::NotFound) ==> {
                &&& !old(self).accounts().contains_key(id@)
                &&& final(self).accounts() == old(self).accounts()
                &&& final(self).creds() == old(self).creds()
            },
    ;

    /// The stored credential record for the account, or none if no password
    /// was ever set.
    fn credentials(&self, user_account_id: &str) -> (r: Result<Option<Creds>, StoreError>)
        ensures
            r matches Ok(o) ==> {
                &&& o is Some <==> self.creds().contains_key(user_account_id@)
                &&& o matches Some(c) ==> c@ == self.creds()[user_account_id@]
            },
    ;

    /// Replaces any prior credential record unconditionally: last write wins.
    fn set_creds(&mut self, user_account_id: &str, creds: Creds) -> (r: Result<(), StoreError>)
        ensures
            r is Ok ==> {
                &&& final(self).creds() == old(self).creds().insert(user_account_id@, creds@)
                &&& final(self).accounts() == old(self).accounts()
            },
    ;
}

impl HasId for UserAccount {
    type Id = String;

    open spec fn spec_id(&self) -> String {
        self.id
    }
}

impl GetId for UserAccount {
    fn id(&self) -> (r: &String)
        ensures
            *r == self.spec_id(),
    {
        &self.id
    }
}

impl HasId for DbCreds {
    type Id = String;

    open spec fn spec_id(&self) -> String {
        self.user_account_id
    }
}

impl GetId for DbCreds {
    fn id(&self) -> (r: &String)
        ensures
            *r == self.spec_id(),
    {
        &self.user_account_id
    }
}

impl View for DbCreds {
    type V = CredsView;

    open spec fn view(&self) -> CredsView {
        CredsView { password_hash: self.password_hash@, salt: self.salt@ }
    }
}

/// An in-memory user-account store: the reference implementation of
/// [`UserAccountRepo`], as tests and database-free deployments use it.
pub struct MemoryUserAccountRepo {
    account_items: Collection<UserAccount>,
    creds_items: Collection<DbCreds>,
}

impl MemoryUserAccountRepo {
    #[verifier::type_invariant]
    spec fn inv(&self) -> bool {
        unique_ids(self.account_items@) && unique_ids(self.creds_items@)
    }

    /// An empty store: no accounts, no credential records.
    pub fn new() -> (r: Self)
        ensures
            r.accounts() == Map::<Seq<char>, UserAccountView>::empty(),
            r.creds() == Map::<Seq<char>, CredsView>::empty(),
    {
        MemoryUserAccountRepo { account_items: Collection::new(), creds_items: Collection::new() }
    }
}

impl UserAccountRepo for MemoryUserAccountRepo {
    closed spec fn accounts(&self) -> Map<Seq<char>, UserAccountView> {
        id_map(self.account_items@)
    }

    closed spec fn creds(&self) -> Map<Seq<char>, CredsView> {
        id_map(self.creds_items@)
    }

    fn insert_one(&mut self, user_account: UserAccount) -> (r: Result<(), InsertError>) {
        proof {
            use_type_invariant(&*self);
            lemma_id_map_domain(self.account_items@);
        }
        let ghost old_items = self.account_items@;
        let mut items = Collection::new();
        core::mem::swap(&mut items, &mut self.account_items);
        let r = insert_one(user_account, &mut items);
        proof {
            if r is Ok {
                lemma_id_map_push(old_items, user_account);
            }
        }
        core::mem::swap(&mut items, &mut self.account_items);
        r
    }

    fn replace_one(&mut self, user_account: UserAccount) -> (r: Result<(), ReplaceError>) {
        proof {
            use_type_invariant(&*self);
            lemma_id_map_domain(self.account_items@);
        }
        let ghost old_items = self.account_items@;
        let mut items = Collection::new();
        core::mem::swap(&mut items, &mut self.account_items);
        let r = replace_one(user_account, &mut items);
        proof {
            if r is Ok {
                let i = choose|i: int|
                    0 <= i < old_items.len() && (#[trigger] old_items[i].spec_id())@
                        == user_account.spec_id()@ && items@ == old_items.update(i, user_account);
                lemma_id_map_update(old_items, i, user_account);
            }
        }
        core::mem::swap(&mut items, &mut self.account_items);
        r
    }

    fn find_one(&self, id: &str) -> (r: Result<Option<UserAccount>, StoreError>) {
        proof {
            use_type_invariant(&*self);
            lemma_id_map_domain(self.account_items@);
        }
        let key = id.to_owned();
        match find_one(&key, &self.account_items) {
            None => Ok(None),
            Some(found) => {
                proof {
                    let i = choose|i: int|
                        0 <= i < self.account_items@.len() && self.account_items@[i] == *found && (
                        #[trigger] self.account_items@[i].spec_id())@ == key@;
                    lemma_id_map_get(self.account_items@, i);
                }
                Ok(
                    Some(
                        UserAccount {
                            id: found.id.clone(),
                            name: found.name.clone(),
                            title: found.title.clone(),
                            email: found.email.clone(),
                            phone: found.phone.clone(),
                            company_id: found.company_id.clone(),
                            access: found.access,
                        },
                    ),
                )
            },
        }
    }

    fn delete_one(&mut self, id: &str) -> (r: Result<(), DeleteError>) {
        proof {
            use_type_invariant(&*self);
            lemma_id_map_domain(self.account_items@);
        }
        let ghost old_items = self.account_items@;
        let key = id.to_owned();
        let mut items = Collection::new();
        core::mem::swap(&mut items, &mut self.account_items);
        let r = delete_one(&key, &mut items);
        proof {
            if r is Ok {
                let i = choose|i: int|
                    0 <= i < old_items.len() && (#[trigger] old_items[i].spec_id())@ == key@
                        && items@ == old_items.remove(i);
                lemma_id_map_remove(old_items, i);
            }
        }
        core::mem::swap(&mut items, &mut self.account_items);
        r
    }

    fn credentials(&self, user_account_id: &str) -> (r: Result<Option<Creds>, StoreError>) {
        proof {
            use_type_invariant(&*self);
            lemma_id_map_domain(self.creds_items@);
        }
        let key = user_account_id.to_owned();
        match find_one(&key, &self.creds_items) {
            None => Ok(None),
            Some(found) => {
                proof {
                    let i = choose|i: int|
                        0 <= i < self.creds_items@.len() && self.creds_items@[i] == *found && (
                        #[trigger] self.creds_items@[i].spec_id())@ == key@;
                    lemma_id_map_get(self.creds_items@, i);
                }
                Ok(Some(found.creds()))
            },
        }
    }

    fn set_creds(&mut self, user_account_id: &str, creds: Creds) -> (r: Result<(), StoreError>) {
        proof {
            use_type_invariant(&*self);
            lemma_id_map_domain(self.creds_items@);
        }
        let ghost old_items = self.creds_items@;
        let key = user_account_id.to_owned();
        let record = DbCreds {
            user_account_id: key,
            password_hash: creds.password_hash,
            salt: creds.salt,
        };
        let again = DbCreds {
            user_account_id: record.user_account_id.clone(),
            password_hash: record.password_hash.clone(),
            salt: record.salt.clone(),
        };
        let ghost rec = record;
        let mut items = Collection::new();
        core::mem::swap(&mut items, &mut self.creds_items);
        match replace_one(record, &mut items) {
            Ok(()) => {
                proof {
                    let i = choose|i: int|
                        0 <= i < old_items.len() && (#[trigger] old_items[i].spec_id())@
                            == rec.spec_id()@ && items@ == old_items.update(i, rec);
                    lemma_id_map_update(old_items, i, rec);
                }
            },
            Err(_) => {
                let inserted = insert_one(again, &mut items);
                proof {
                    assert(inserted is Ok);
                    lemma_id_map_push(old_items, rec);
                }
            },
        }
        core::mem::swap(&mut items, &mut self.creds_items);
        Ok(())
    }
}

} // verus!
