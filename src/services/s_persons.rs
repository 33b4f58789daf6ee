use vstd::prelude::*;

use crate::db::nova_db::{NovaDB, TablesView, TokenRow};
use crate::errors::{AuthError, StoreError};
use crate::models::meta::Timestamp;
use crate::models::person::{LogInCreds, Person, PersonCheck, PersonCheckResponse, SignUpState};
use crate::models::token::{Token, TokenRecord};
use crate::repos::r_persons::{email_taken, sessions_ended, username_taken, PersonsRepo};
use crate::utils::{current_time, person_ref, person_ref_text};
use argon2::password_hash::rand_core::OsRng;
use argon2::password_hash::SaltString;
use argon2::{PasswordHasher, PasswordVerifier};

verus! {

/// The actor that people who sign themselves up are created by.
pub const SYSTEM_ID: &'static str = "person:system";

/// Whether argon2 accepts `password` for the PHC hash string `pass_hash`.
pub uninterp spec fn argon2_verifies(password: Seq<char>, pass_hash: Seq<char>) -> bool;

/// Relies on argon2's `PasswordHash::new` and `Argon2::verify_password`:
/// whether `password` matches the PHC string `pass_hash`. A string that does
/// not parse matches no password.
#[verifier::external_body]
fn password_matches(password: &str, pass_hash: &str) -> (r: bool)
    ensures
        r == argon2_verifies(password@, pass_hash@),
{
    match argon2::PasswordHash::new(pass_hash) {
        Ok(parsed) => argon2::Argon2::default().verify_password(password.as_bytes(), &parsed).is_ok(),
        Err(_) => false,
    }
}

/// Relies on argon2's `Argon2::hash_password` (default parameters) with a
/// salt from `SaltString::generate` over the operating system's generator:
/// the PHC string of the hash, which the same password verifies against. It
/// fails only for passwords longer than `u32::MAX` bytes.
#[verifier::external_body]
fn hash_password(password: &str) -> (r: Option<String>)
    ensures
        r matches Some(h) ==> argon2_verifies(password@, h@),
        vstd::utf8::encode_utf8(password@).len() <= 0xFFFF_FFFF ==> r is Some,
{
    let salt = SaltString::generate(&mut OsRng);
    match argon2::Argon2::default().hash_password(password.as_bytes(), &salt) {
        Ok(h) => Some(h.to_string()),
        Err(_) => None,
    }
}

/// Person `i` has the email `email`.
pub open spec fn has_email(t: TablesView, i: int, email: Seq<char>) -> bool {
    0 <= i < t.persons.len() && t.persons[i].email@ == email
}

/// Persons and their sessions.
#[derive(Debug, Clone, Copy)]
pub struct PersonsService {
    repo: PersonsRepo,
}

impl PersonsService {
    pub fn new() -> (r: PersonsService) {
        PersonsService { repo: PersonsRepo::new() }
    }

    /// Whether the email and the username of `check` are given and free.
    pub fn check_person_validity(&self, db: &NovaDB, check: PersonCheck) -> (r: PersonCheckResponse)
        ensures
            r.email == match check.email {
                Some(e) => !email_taken(db@.tables, e@),
                None => false,
            },
            r.username == match check.username {
                Some(u) => !username_taken(db@.tables, u@),
                None => false,
            },
    {
        self.repo.is_person_unique(db, check)
    }

    /// Signs a person up: hashes the password and writes the person, created
    /// by the system; the person can then log in with that password.
    /// `NotUnique` when the email or the username is taken, `HashFailed` when
    /// the password is too long to hash.
    pub fn sign_up(&self, db: &mut NovaDB, sign_up_state: SignUpState) -> (r: Result<
        Person,
        AuthError,
    >)
        requires
            old(db)@.wf(),
        ensures
            final(db)@.wf(),
            match r {
                Ok(p) => {
                    let t = old(db)@.tables;
                    let u = final(db)@.tables;
                    &&& !email_taken(t, sign_up_state.email@)
                    &&& !username_taken(t, sign_up_state.username@)
                    &&& u.posts == t.posts
                    &&& u.drafts == t.drafts
                    &&& u.tokens == t.tokens
                    &&& u.persons.len() == t.persons.len() + 1
                    &&& u.persons.drop_last() == t.persons
                    &&& u.persons.last().username == sign_up_state.username
                    &&& u.persons.last().email == sign_up_state.email
                    &&& !u.persons.last().is_admin
                    &&& argon2_verifies(sign_up_state.password@, u.persons.last().pass_hash@)
                    &&& p.describes(u, t.persons.len() as int)
                    &&& p.meta.created_by@ == SYSTEM_ID@
                },
                Err(e) => final(db)@ == old(db)@ && ((vstd::utf8::encode_utf8(sign_up_state.password@).len()
                    > 0xFFFF_FFFF && e == AuthError::HashFailed) || ((email_taken(
                    old(db)@.tables,
                    sign_up_state.email@,
                ) || username_taken(old(db)@.tables, sign_up_state.username@)) && e
                    == AuthError::NotUnique)),
            },
    {
        let hash = match hash_password(sign_up_state.password.as_str()) {
            Some(h) => h,
            None => return Err(AuthError::HashFailed),
        };
        let state = SignUpState {
            username: sign_up_state.username,
            email: sign_up_state.email,
            password: sign_up_state.password,
            pass_hash: Some(hash),
        };
        let now = current_time();
        let ghost t = db@.tables;
        let r = self.repo.insert_person(db, state, SYSTEM_ID.to_owned(), now);
        proof {
            if r is Ok {
                assert(db@.tables.persons.drop_last() =~= t.persons);
            }
        }
        r
    }

    /// Logs a person in by email and password. `NotFound` when no person has
    /// the email, `WrongCredentials` when the password does not match.
    pub fn log_in_with_creds(&self, db: &NovaDB, creds: LogInCreds) -> (r: Result<Person, AuthError>)
        requires
            db@.wf(),
        ensures
            match r {
                Ok(p) => has_email(db@.tables, p.id as int, creds.email@) && argon2_verifies(
                    creds.password@,
                    db@.tables.persons[p.id as int].pass_hash@,
                ) && p.describes(db@.tables, p.id as int),
                Err(AuthError::NotFound) => !email_taken(db@.tables, creds.email@),
                Err(AuthError::WrongCredentials) => exists|i: int|
                    #[trigger] has_email(db@.tables, i, creds.email@) && !argon2_verifies(
                        creds.password@,
                        db@.tables.persons[i].pass_hash@,
                    ),
                Err(_) => false,
            },
    {
        let pass_hash = match self.repo.select_person_hash_by_email(db, creds.email.clone()) {
            Some(h) => h,
            None => return Err(AuthError::NotFound),
        };
        let matches = password_matches(creds.password.as_str(), pass_hash.as_str());
        let r = self.person_for_login(db, creds.email, matches);
        proof {
            let t = db@.tables;
            let i = choose|i: int|
                0 <= i < t.persons.len() && #[trigger] t.persons[i].email@ == creds.email@ && pass_hash
                    == t.persons[i].pass_hash;
            assert(has_email(t, i, creds.email@));
            if r is Ok {
                assert(r->Ok_0.id == i);
            }
        }
        r
    }

    /// The person logging in with email `email`, given whether the password
    /// matched that person's hash. `NotFound` when no person has the email,
    /// `WrongCredentials` when the password did not match.
    pub fn person_for_login(&self, db: &NovaDB, email: String, password_ok: bool) -> (r: Result<
        Person,
        AuthError,
    >)
        requires
            db@.wf(),
        ensures
            match r {
                Ok(p) => password_ok && has_email(db@.tables, p.id as int, email@) && p.describes(
                    db@.tables,
                    p.id as int,
                ),
                Err(e) => if email_taken(db@.tables, email@) {
                    !password_ok && e == AuthError::WrongCredentials
                } else {
                    e == AuthError::NotFound
                },
            },
    {
        let ghost t = db@.tables;
        match self.repo.select_person_by_email(db, email) {
            Some(p) => {
                if password_ok {
                    Ok(p)
                } else {
                    proof {
                        assert(t.persons[p.id as int].email@ == p.email@);
                    }
                    Err(AuthError::WrongCredentials)
                }
            },
            None => Err(AuthError::NotFound),
        }
    }

    /// Ends every session of `person_id`, then issues a new session token to
    /// that person, all stamped now.
    pub fn create_refresh_token(&self, db: &mut NovaDB, person_id: String) -> (r: TokenRecord)
        requires
            old(db)@.wf(),
        ensures
            final(db)@.wf(),
            exists|now: Timestamp| refresh_outcome(old(db)@.tables, final(db)@.tables, person_id, now, r),
    {
        let now = current_time();
        self.create_refresh_token_at(db, person_id, now)
    }

    /// `create_refresh_token`, stamped `now`.
    pub fn create_refresh_token_at(&self, db: &mut NovaDB, person_id: String, now: Timestamp) -> (r:
        TokenRecord)
        requires
            old(db)@.wf(),
        ensures
            final(db)@.wf(),
            final(db)@.saved == old(db)@.saved,
            refresh_outcome(old(db)@.tables, final(db)@.tables, person_id, now, r),
    {
        self.repo.delete_all_sessions_for_person(db, person_id.clone(), now);
        self.repo.insert_token_record(db, person_id, now)
    }

    /// Ends every session of `person`.
    pub fn logout(&self, db: &mut NovaDB, person: Person)
        requires
            old(db)@.wf(),
        ensures
            final(db)@.wf(),
            exists|who: String, now: Timestamp|
                who@ == person_ref_text(person.id) && #[trigger] sessions_end_outcome(
                    old(db)@.tables,
                    final(db)@.tables,
                    who,
                    now,
                ),
    {
        let who = person_ref(person.id);
        self.logout_by_id(db, who);
    }

    /// Ends every session of `person_id`.
    pub fn logout_by_id(&self, db: &mut NovaDB, person_id: String)
        requires
            old(db)@.wf(),
        ensures
            final(db)@.wf(),
            exists|now: Timestamp|
                sessions_end_outcome(old(db)@.tables, final(db)@.tables, person_id, now),
    {
        self.invalidate_refresh(db, person_id);
    }

    /// Session token `token_id`; `NotFound` when there is none.
    pub fn get_token_record(&self, db: &NovaDB, token_id: usize) -> (r: Result<Token, StoreError>)
        requires
            db@.wf(),
        ensures
            match r {
                Ok(t) => t.describes(db@.tables, token_id as int),
                Err(e) => token_id >= db@.tables.tokens.len() && e == StoreError::NotFound,
            },
    {
        self.repo.select_token_record(db, token_id)
    }

    /// Stores the signed form of session token `token_id`; false when there
    /// is no such token.
    pub fn set_signed_token(&self, db: &mut NovaDB, token_id: usize, signed_token: String) -> (r:
        bool)
        requires
            old(db)@.wf(),
        ensures
            final(db)@.wf(),
            r == (token_id < old(db)@.tables.tokens.len()),
            r ==> final(db)@.tables.tokens == old(db)@.tables.tokens.update(
                token_id as int,
                TokenRow {
                    signed_token: Some(signed_token),
                    ..old(db)@.tables.tokens[token_id as int]
                },
            ),
            !r ==> final(db)@ == old(db)@,
    {
        self.repo.set_signed_token(db, token_id, signed_token)
    }

    /// Stamps session token `token_id` deleted now; false when there is no
    /// such token.
    pub fn soft_delete_token_record(&self, db: &mut NovaDB, token_id: usize) -> (r: bool)
        requires
            old(db)@.wf(),
        ensures
            final(db)@.wf(),
            r == (token_id < old(db)@.tables.tokens.len()),
            r ==> final(db)@.tables.metas[old(db)@.tables.tokens[token_id as int].meta as int].deleted_on is Some,
            !r ==> final(db)@ == old(db)@,
            final(db)@.tables.tokens == old(db)@.tables.tokens,
            final(db)@.tables.persons == old(db)@.tables.persons,
    {
        let now = current_time();
        self.repo.soft_delete_token_record(db, token_id, now)
    }

    /// Person `person_id`, if there is one.
    pub fn get_person(&self, db: &NovaDB, person_id: usize) -> (r: Option<Person>)
        requires
            db@.wf(),
        ensures
            match r {
                Some(p) => p.describes(db@.tables, person_id as int),
                None => person_id >= db@.tables.persons.len(),
            },
    {
        self.repo.select_person(db, person_id)
    }

    /// Every person, in order of id.
    pub fn get_persons(&self, db: &NovaDB) -> (r: Vec<Person>)
        requires
            db@.wf(),
        ensures
            r@.len() == db@.tables.persons.len(),
            forall|i: int| 0 <= i < r@.len() ==> #[trigger] r@[i].describes(db@.tables, i),
    {
        self.repo.select_persons(db)
    }

    /// Ends every session of `person_id`; always succeeds.
    pub fn invalidate_refresh(&self, db: &mut NovaDB, person_id: String) -> (r: bool)
        requires
            old(db)@.wf(),
        ensures
            r,
            final(db)@.wf(),
            exists|now: Timestamp|
                sessions_end_outcome(old(db)@.tables, final(db)@.tables, person_id, now),
    {
        let now = current_time();
        let ghost t = db@.tables;
        let ghost who = person_id;
        let r = self.repo.delete_all_sessions_for_person(db, person_id, now);
        assert(sessions_end_outcome(t, db@.tables, who, now));
        r
    }
}

/// Every session of `person` in `t` is stamped deleted at `now`, ending in `u`;
/// nothing else changes.
pub open spec fn sessions_end_outcome(t: TablesView, u: TablesView, person: String, now: Timestamp) -> bool {
    &&& u.metas == sessions_ended(t, person, now)
    &&& u.posts == t.posts
    &&& u.drafts == t.drafts
    &&& u.persons == t.persons
    &&& u.tokens == t.tokens
}

/// What `create_refresh_token` does to the tables `t`, ending in `u`, when
/// stamped `now`: the person's sessions end, then a token is issued.
pub open spec fn refresh_outcome(
    t: TablesView,
    u: TablesView,
    person_id: String,
    now: Timestamp,
    r: TokenRecord,
) -> bool {
    &&& u.posts == t.posts
    &&& u.drafts == t.drafts
    &&& u.persons == t.persons
    &&& u.metas.len() == t.metas.len() + 1
    &&& u.metas.drop_last() == sessions_ended(t, person_id, now)
    &&& u.metas.last().is_fresh(t.metas.len() as int, person_id, now)
    &&& u.tokens == t.tokens.push(
        TokenRow { person: person_id, signed_token: None, meta: t.metas.len() as usize },
    )
    &&& r.id == t.tokens.len()
    &&& r.person == person_id
    &&& r.created_by == person_id
    &&& r.created_on == now
    &&& r.deleted_on is None
    &&& r.meta == t.metas.len()
}

} // verus!
