use nb_lib::db::nova_db::NovaDB;
use nb_lib::errors::{AuthError, StoreError};
use nb_lib::models::person::{LogInCreds, PersonCheck, SignUpState};
use nb_lib::repos::r_persons::PersonsRepo;
use nb_lib::services::s_persons::{PersonsService, SYSTEM_ID};
use nb_lib::utils::person_ref;

fn state(username: &str, email: &str, password: &str) -> SignUpState {
    SignUpState {
        username: username.to_string(),
        email: email.to_string(),
        password: password.to_string(),
        pass_hash: None,
    }
}

fn creds(email: &str, password: &str) -> LogInCreds {
    LogInCreds { email: email.to_string(), password: password.to_string() }
}

#[test]
fn sign_up_then_log_in() {
    let mut db = NovaDB::new();
    let svc = PersonsService::new();
    let p = svc.sign_up(&mut db, state("ann", "ann@example.com", "s3cret")).unwrap();
    assert_eq!(p.id, 0);
    assert_eq!(p.username, "ann");
    assert!(!p.is_admin);
    assert_eq!(p.meta.created_by, SYSTEM_ID);
    let logged = svc.log_in_with_creds(&db, creds("ann@example.com", "s3cret")).unwrap();
    assert_eq!(logged.id, p.id);
    assert_eq!(
        svc.log_in_with_creds(&db, creds("ann@example.com", "wrong")).unwrap_err(),
        AuthError::WrongCredentials
    );
    assert_eq!(
        svc.log_in_with_creds(&db, creds("bob@example.com", "s3cret")).unwrap_err(),
        AuthError::NotFound
    );
}

#[test]
fn stored_hash_is_not_the_password() {
    let mut db = NovaDB::new();
    let svc = PersonsService::new();
    let repo = PersonsRepo::new();
    svc.sign_up(&mut db, state("ann", "ann@example.com", "s3cret")).unwrap();
    let hash = repo.select_person_hash_by_email(&db, "ann@example.com".to_string()).unwrap();
    assert_ne!(hash, "s3cret");
    assert!(hash.starts_with("$argon2"));
}

#[test]
fn email_and_username_are_unique() {
    let mut db = NovaDB::new();
    let svc = PersonsService::new();
    svc.sign_up(&mut db, state("ann", "ann@example.com", "pw")).unwrap();
    assert_eq!(
        svc.sign_up(&mut db, state("ann", "other@example.com", "pw")).unwrap_err(),
        AuthError::NotUnique
    );
    assert_eq!(
        svc.sign_up(&mut db, state("other", "ann@example.com", "pw")).unwrap_err(),
        AuthError::NotUnique
    );
    assert_eq!(svc.get_persons(&db).len(), 1);
    let check = svc.check_person_validity(
        &db,
        PersonCheck { email: Some("ann@example.com".to_string()), username: Some("zed".to_string()) },
    );
    assert!(!check.email);
    assert!(check.username);
    let none = svc.check_person_validity(&db, PersonCheck { email: None, username: None });
    assert!(!none.email && !none.username);
}

#[test]
fn insert_person_needs_a_hash() {
    let mut db = NovaDB::new();
    let repo = PersonsRepo::new();
    let r = repo.insert_person(&mut db, state("a", "a@x", "pw"), "admin".to_string(), 1);
    assert_eq!(r.unwrap_err(), AuthError::MissingHash);
}

#[test]
fn refresh_token_ends_earlier_sessions() {
    let mut db = NovaDB::new();
    let svc = PersonsService::new();
    let who = "person:01ARZ3NDEKTSV4RRFFQ69G5FAV".to_string();
    let first = svc.create_refresh_token_at(&mut db, who.clone(), 100);
    assert_eq!(first.person, who);
    assert_eq!(first.created_on, 100);
    assert!(first.deleted_on.is_none());
    let second = svc.create_refresh_token_at(&mut db, who.clone(), 200);
    assert_ne!(first.id, second.id);
    let old = svc.get_token_record(&db, first.id).unwrap();
    assert_eq!(old.meta.deleted_on, Some(200));
    assert_eq!(old.meta.deleted_by.as_deref(), Some(who.as_str()));
    let new = svc.get_token_record(&db, second.id).unwrap();
    assert!(new.meta.deleted_on.is_none());
    assert_eq!(svc.get_token_record(&db, 9).unwrap_err(), StoreError::NotFound);
}

#[test]
fn signed_token_and_soft_delete() {
    let mut db = NovaDB::new();
    let svc = PersonsService::new();
    let t = svc.create_refresh_token(&mut db, "p".to_string());
    assert!(svc.set_signed_token(&mut db, t.id, "signed".to_string()));
    assert_eq!(svc.get_token_record(&db, t.id).unwrap().signed_token.as_deref(), Some("signed"));
    assert!(!svc.set_signed_token(&mut db, 5, "x".to_string()));
    assert!(svc.soft_delete_token_record(&mut db, t.id));
    assert!(svc.get_token_record(&db, t.id).unwrap().meta.deleted_on.is_some());
    assert!(!svc.soft_delete_token_record(&mut db, 5));
}

#[test]
fn logout_ends_only_that_persons_sessions() {
    let mut db = NovaDB::new();
    let svc = PersonsService::new();
    let ann = svc.sign_up(&mut db, state("ann", "ann@example.com", "pw")).unwrap();
    let ann_ref = person_ref(ann.id);
    let a = svc.create_refresh_token(&mut db, ann_ref.clone());
    let b = svc.create_refresh_token(&mut db, "person:other".to_string());
    svc.logout(&mut db, ann.clone());
    assert!(svc.get_token_record(&db, a.id).unwrap().meta.deleted_on.is_some());
    assert!(svc.get_token_record(&db, b.id).unwrap().meta.deleted_on.is_none());
    assert!(svc.invalidate_refresh(&mut db, "person:other".to_string()));
    assert!(svc.get_token_record(&db, b.id).unwrap().meta.deleted_on.is_some());
    assert!(svc.get_person(&db, ann.id).is_some());
    assert!(svc.get_person(&db, 4).is_none());
}

#[test]
fn person_reference_text() {
    assert_eq!(person_ref(0), "person:00000000000000000000000000");
    assert_eq!(person_ref(32), "person:00000000000000000000000010");
}
