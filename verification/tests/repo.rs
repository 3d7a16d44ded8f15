use sw_api::access::Access;
use sw_api::crockford::random_id;
use sw_api::repo::memory_op::{delete_one, find_one, insert_one, replace_one, Collection};
use sw_api::repo::person::{MemoryPersonRepo, Person, PersonRepo};
use sw_api::repo::team::{MemoryTeamRepo, Team, TeamRepo};
use sw_api::repo::user_account::{Creds, MemoryUserAccountRepo, UserAccount, UserAccountRepo};
use sw_api::repo::{DeleteError, ReplaceError};

fn item(id: String, name: &str) -> Person {
    Person { id, name: name.to_string(), company_id: "company-1".to_string() }
}

#[test]
fn test_insert_one_new() {
    // Arrange.
    let mut collection: Collection<Person> = Collection::new();
    let id = random_id();
    let person = item(id.clone(), "first");

    // Act.
    insert_one(person, &mut collection).unwrap();

    // Assert.
    let found = find_one(&id, &collection).expect("not found");
    assert_eq!(found.id, id);
    assert_eq!(found.name, "first");
}

#[test]
fn test_insert_one_existing() {
    // Arrange.
    let mut collection: Collection<Person> = Collection::new();
    let id = random_id();
    insert_one(item(id.clone(), "first"), &mut collection).unwrap();

    // Act.
    let res = insert_one(item(id, "second"), &mut collection);

    // Assert.
    assert!(res.is_err());
}

#[test]
fn test_replace_one_modified() {
    // Arrange.
    let mut collection: Collection<Person> = Collection::new();
    let id = random_id();
    insert_one(item(id.clone(), "first"), &mut collection).unwrap();

    // Act.
    replace_one(item(id.clone(), "second"), &mut collection).unwrap();

    // Assert.
    let found = find_one(&id, &collection).expect("not found");
    assert_eq!(found.name, "second");
}

#[test]
fn test_replace_one_unmodified() {
    // Arrange.
    let mut collection: Collection<Person> = Collection::new();
    let id = random_id();
    insert_one(item(id.clone(), "same"), &mut collection).unwrap();

    // Act.
    replace_one(item(id.clone(), "same"), &mut collection).unwrap();

    // Assert.
    let found = find_one(&id, &collection).expect("not found");
    assert_eq!(found.name, "same");
}

#[test]
fn test_replace_one_missing() {
    // Arrange.
    let mut collection: Collection<Person> = Collection::new();

    // Act.
    let res = replace_one(item(random_id(), "nobody"), &mut collection);

    // Assert.
    assert!(matches!(res, Err(ReplaceError::NotFound)));
}

#[test]
fn test_find_one_exists() {
    // Arrange.
    let mut collection: Collection<Person> = Collection::new();
    let id = random_id();
    insert_one(item(id.clone(), "someone"), &mut collection).unwrap();

    // Act.
    let opt = find_one(&id, &collection);

    // Assert.
    let found = opt.expect("not found");
    assert_eq!(found.id, id);
}

#[test]
fn test_find_one_missing() {
    // Arrange.
    let collection: Collection<Person> = Collection::new();

    // Act.
    let opt = find_one(&random_id(), &collection);

    // Assert.
    assert!(opt.is_none());
}

#[test]
fn test_delete_one_existing() {
    // Arrange.
    let mut collection: Collection<Person> = Collection::new();
    let id = random_id();
    insert_one(item(id.clone(), "someone"), &mut collection).unwrap();

    // Act.
    delete_one(&id, &mut collection).unwrap();

    // Assert.
    assert!(find_one(&id, &collection).is_none());
}

#[test]
fn test_delete_one_missing() {
    // Arrange.
    let mut collection: Collection<Person> = Collection::new();

    // Act.
    let res = delete_one(&random_id(), &mut collection);

    // Assert.
    assert!(matches!(res, Err(DeleteError::NotFound)));
}

fn account(id: &str) -> UserAccount {
    UserAccount {
        id: id.to_string(),
        name: "Jo Doe".to_string(),
        title: "Engineer".to_string(),
        email: "jo@example.com".to_string(),
        phone: "555-0100".to_string(),
        company_id: "company-1".to_string(),
        access: Access::View,
    }
}

#[test]
fn test_user_account_store_round_trip() {
    let mut repo = MemoryUserAccountRepo::new();
    repo.insert_one(account("u1")).unwrap();
    assert!(repo.insert_one(account("u1")).is_err());

    let found = repo.find_one("u1").unwrap().expect("not found");
    assert_eq!(found.name, "Jo Doe");
    assert!(repo.find_one("u2").unwrap().is_none());

    let mut changed = account("u1");
    changed.name = "Jo Q. Doe".to_string();
    repo.replace_one(changed).unwrap();
    assert_eq!(repo.find_one("u1").unwrap().unwrap().name, "Jo Q. Doe");

    repo.delete_one("u1").unwrap();
    assert!(repo.find_one("u1").unwrap().is_none());
    assert!(matches!(repo.delete_one("u1"), Err(DeleteError::NotFound)));
}

#[test]
fn test_user_account_store_credentials() {
    let mut repo = MemoryUserAccountRepo::new();
    assert!(repo.credentials("u1").unwrap().is_none());

    let first = Creds { password_hash: "00ff".to_string(), salt: "11ee".to_string() };
    repo.set_creds("u1", first).unwrap();
    let got = repo.credentials("u1").unwrap().expect("no record");
    assert_eq!(got.password_hash, "00ff");
    assert_eq!(got.salt, "11ee");

    // Last write wins, and the pair is replaced together.
    let second = Creds { password_hash: "aa".to_string(), salt: "bb".to_string() };
    repo.set_creds("u1", second).unwrap();
    let got = repo.credentials("u1").unwrap().expect("no record");
    assert_eq!(got.password_hash, "aa");
    assert_eq!(got.salt, "bb");
}

#[test]
fn test_person_repo_round_trip() {
    let mut repo = MemoryPersonRepo::new();
    let person = item("p1".to_string(), "someone");
    repo.insert_one(&person).unwrap();
    assert!(repo.insert_one(&person).is_err());
    assert_eq!(repo.find_one("p1").unwrap().unwrap().name, "someone");
    assert!(repo.find_one("p2").unwrap().is_none());
    repo.delete_one("p1").unwrap();
    assert!(repo.find_one("p1").unwrap().is_none());
}

#[test]
fn test_team_repo_round_trip() {
    let mut repo = MemoryTeamRepo::new();
    let team = Team {
        id: "t1".to_string(),
        name: "night shift".to_string(),
        company_id: "company-1".to_string(),
    };
    repo.insert_one(&team).unwrap();
    assert_eq!(repo.find_one("t1").unwrap().unwrap().name, "night shift");
    repo.delete_one("t1").unwrap();
    assert!(repo.find_one("t1").unwrap().is_none());
}

#[test]
fn test_random_id_len() {
    // Act.
    let id = random_id();

    // Assert.
    assert_eq!(id.len(), 24);
}

#[test]
fn test_random_id_unique() {
    // Act.
    let (a, b) = (random_id(), random_id());

    // Assert.
    assert_ne!(a, b);
}

#[test]
fn test_random_id_lowercase_crockford() {
    let id = random_id();
    assert!(id.chars().all(|c| c.is_ascii_digit() || c.is_ascii_lowercase()));
    // The Crockford alphabet leaves out i, l, o and u.
    assert!(id.chars().all(|c| c != 'i' && c != 'l' && c != 'o' && c != 'u'));
}
