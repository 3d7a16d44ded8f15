use sw_api::access::Access;
use sw_api::auth::{
    create_creds, creds_from_salt, login, verify_password, AuthProvider, LoginError, VerifyError,
};
use sw_api::repo::user_account::{Creds, MemoryUserAccountRepo, UserAccount, UserAccountRepo};
use sw_api::token::TokenProvider;

fn account(id: &str, access: Access) -> UserAccount {
    UserAccount {
        id: id.to_string(),
        name: "Jo Doe".to_string(),
        title: "Engineer".to_string(),
        email: "jo@example.com".to_string(),
        phone: "555-0100".to_string(),
        company_id: "company-1".to_string(),
        access,
    }
}

#[test]
fn test_verify_correct() {
    // Arrange.
    let password = "rightpass";
    let creds = create_creds(password).unwrap();

    // Act.
    let res = verify_password(password, &creds);

    // Assert.
    assert!(res.is_ok());
}

#[test]
fn test_verify_incorrect() {
    // Arrange.
    let password = "rightpass";
    let creds = create_creds(password).unwrap();

    // Act.
    let res = verify_password("wrongpass", &creds);

    // Assert.
    assert!(matches!(res, Err(VerifyError::IncorrectCredential)));
}

#[test]
fn test_derive_is_randomized() {
    let c1 = create_creds("same password").unwrap();
    let c2 = create_creds("same password").unwrap();
    assert_ne!(c1.salt, c2.salt);
    assert_ne!(c1.password_hash, c2.password_hash);
}

#[test]
fn test_creds_encoding_exact() {
    let salt: Vec<u8> = (0u8..64).collect();
    let creds = creds_from_salt(&salt, "pw");
    assert_eq!(
        creds.salt,
        "000102030405060708090a0b0c0d0e0f101112131415161718191a1b1c1d1e1f\
         202122232425262728292a2b2c2d2e2f303132333435363738393a3b3c3d3e3f"
    );
    assert_eq!(creds.password_hash.len(), 128);
    assert!(creds.password_hash.chars().all(|c| c.is_ascii_hexdigit() && !c.is_ascii_uppercase()));
}

#[test]
fn test_verify_empty_password_against_derived_empty() {
    let creds = create_creds("").unwrap();
    assert!(verify_password("", &creds).is_ok());
    assert!(matches!(verify_password("x", &creds), Err(VerifyError::IncorrectCredential)));
}

#[test]
fn test_corrupt_record_not_hex() {
    let creds = Creds {
        password_hash: "zz-not-hex".to_string(),
        salt: "00ff".to_string(),
    };
    assert!(matches!(verify_password("pw", &creds), Err(VerifyError::CorruptRecord)));
}

#[test]
fn test_corrupt_record_odd_length() {
    let creds = Creds {
        password_hash: "abc".to_string(),
        salt: "00ff".to_string(),
    };
    assert!(matches!(verify_password("pw", &creds), Err(VerifyError::CorruptRecord)));
}

#[test]
fn test_wrong_length_hash_is_incorrect_not_corrupt() {
    // Valid hex, but not the digest length: decodes fine, then mismatches.
    let creds = Creds {
        password_hash: "00ff".to_string(),
        salt: "00ff".to_string(),
    };
    assert!(matches!(verify_password("pw", &creds), Err(VerifyError::IncorrectCredential)));
}

#[test]
fn test_verify_password_no_creds_bootstrap() {
    // An account with no stored credentials accepts exactly the empty password.
    let provider = AuthProvider { user_account_repo: MemoryUserAccountRepo::new() };
    assert!(provider.verify_password("someone", "").unwrap().is_ok());
    assert!(matches!(
        provider.verify_password("someone", "anything-nonempty").unwrap(),
        Err(VerifyError::IncorrectCredential)
    ));
}

#[test]
fn test_set_password_then_verify() {
    let mut provider = AuthProvider { user_account_repo: MemoryUserAccountRepo::new() };
    provider.set_password("u1", "pw1").unwrap();
    assert!(provider.verify_password("u1", "pw1").unwrap().is_ok());
    assert!(matches!(
        provider.verify_password("u1", "pw2").unwrap(),
        Err(VerifyError::IncorrectCredential)
    ));
    // Setting again replaces the record unconditionally: last write wins.
    provider.set_password("u1", "pw2").unwrap();
    assert!(provider.verify_password("u1", "pw2").unwrap().is_ok());
    assert!(matches!(
        provider.verify_password("u1", "pw1").unwrap(),
        Err(VerifyError::IncorrectCredential)
    ));
}

#[test]
fn test_login_issues_verifiable_token() {
    let mut repo = MemoryUserAccountRepo::new();
    repo.insert_one(account("user-1", Access::Admin)).unwrap();
    let mut provider = AuthProvider { user_account_repo: repo };
    provider.set_password("user-1", "hunter2").unwrap();
    let tokens = TokenProvider { private_key: "test signing key".to_string() };

    let token = login(&provider, &tokens, "user-1", "hunter2").unwrap();

    let claims = tokens.verify_token(&token).unwrap();
    assert_eq!(claims.sub, "user-1");
    assert!(matches!(claims.access, Access::Admin));
}

#[test]
fn test_login_wrong_password() {
    let mut repo = MemoryUserAccountRepo::new();
    repo.insert_one(account("user-1", Access::View)).unwrap();
    let mut provider = AuthProvider { user_account_repo: repo };
    provider.set_password("user-1", "hunter2").unwrap();
    let tokens = TokenProvider { private_key: "test signing key".to_string() };

    let res = login(&provider, &tokens, "user-1", "wrong");
    assert!(matches!(res, Err(LoginError::IncorrectCredential)));
}

#[test]
fn test_login_unknown_account() {
    let provider = AuthProvider { user_account_repo: MemoryUserAccountRepo::new() };
    let tokens = TokenProvider { private_key: "test signing key".to_string() };

    // The bootstrap empty password passes the credential check, but there is
    // no account to issue a token for: refused like a wrong password.
    let res = login(&provider, &tokens, "ghost", "");
    assert!(matches!(res, Err(LoginError::IncorrectCredential)));
}
