use vstd::prelude::*;

use crate::db::nova_db::{lemma_posts_untouched, NovaDB, PersonRow, Tables, TablesView, TokenRow};
use crate::errors::{AuthError, StoreError};
use crate::models::meta::{Duplicate, InsertMetaArgs, Meta, Timestamp};
use crate::models::person::{Person, PersonCheck, PersonCheckResponse, SignUpState};
use crate::models::token::{Token, TokenRecord};
use crate::repos::r_meta::MetaRepo;

verus! {

/// Some person has the email `email`.
pub open spec fn email_taken(t: TablesView, email: Seq<char>) -> bool {
    exists|i: int| 0 <= i < t.persons.len() && #[trigger] t.persons[i].email@ == email
}

/// Some person has the username `username`.
pub open spec fn username_taken(t: TablesView, username: Seq<char>) -> bool {
    exists|i: int| 0 <= i < t.persons.len() && #[trigger] t.persons[i].username@ == username
}

/// The audit record `m` stamped deleted by `by` at `now`.
pub open spec fn stamp_deleted(m: Meta, by: Option<String>, now: Timestamp) -> Meta {
    Meta { deleted_on: Some(now), deleted_by: by, ..m }
}

/// Audit record `mi` belongs to a session token of person `person`.
pub open spec fn is_session_meta(t: TablesView, person: Seq<char>, mi: int) -> bool {
    exists|k: int|
        0 <= k < t.tokens.len() && t.tokens[k].person@ == person && #[trigger] t.tokens[k].meta
            == mi
}

/// The audit records after every session of `person` is stamped deleted at
/// `now`, by that person.
pub open spec fn sessions_ended(t: TablesView, person: String, now: Timestamp) -> Seq<Meta> {
    t.metas.map(
        |mi: int, m: Meta|
            if is_session_meta(t, person@, mi) {
                stamp_deleted(m, Some(person), now)
            } else {
                m
            },
    )
}

/// Person `i` with its audit record.
fn hydrate_person(t: &Tables, i: usize) -> (r: Person)
    requires
        t@.wf(),
        i < t@.persons.len(),
    ensures
        r.describes(t@, i as int),
{
    let row = &t.persons[i];
    assert(t@.persons[i as int].meta < t@.metas.len());
    Person {
        id: i,
        username: row.username.duplicate(),
        email: row.email.duplicate(),
        is_admin: row.is_admin,
        meta: t.metas[row.meta].duplicate(),
    }
}

/// The person with email `email`, if any.
fn find_by_email(t: &Tables, email: &String) -> (r: Option<usize>)
    ensures
        match r {
            Some(i) => i < t@.persons.len() && t@.persons[i as int].email@ == email@,
            None => !email_taken(t@, email@),
        },
{
    let mut i: usize = 0;
    while i < t.persons.len()
        invariant
            i <= t@.persons.len(),
            forall|j: int| 0 <= j < i ==> #[trigger] t@.persons[j].email@ != email@,
        decreases t@.persons.len() - i,
    {
        if t.persons[i].email == *email {
            return Some(i);
        }
        i = i + 1;
    }
    None
}

/// The person with username `username`, if any.
fn find_by_username(t: &Tables, username: &String) -> (r: Option<usize>)
    ensures
        match r {
            Some(i) => i < t@.persons.len() && t@.persons[i as int].username@ == username@,
            None => !username_taken(t@, username@),
        },
{
    let mut i: usize = 0;
    while i < t.persons.len()
        invariant
            i <= t@.persons.len(),
            forall|j: int| 0 <= j < i ==> #[trigger] t@.persons[j].username@ != username@,
        decreases t@.persons.len() - i,
    {
        if t.persons[i].username == *username {
            return Some(i);
        }
        i = i + 1;
    }
    None
}

/// The persons repository: persons and their session tokens.
#[derive(Debug, Clone, Copy)]
pub struct PersonsRepo {
    meta: MetaRepo,
}

impl PersonsRepo {
    pub fn new() -> (r: PersonsRepo) {
        PersonsRepo { meta: MetaRepo::new() }
    }

    /// No person has the email `email` yet.
    pub fn is_unique_email(&self, db: &NovaDB, email: &String) -> (r: bool)
        ensures
            r == !email_taken(db@.tables, email@),
    {
        find_by_email(&db.tables, email).is_none()
    }

    /// No person has the username `username` yet.
    pub fn is_unique_username(&self, db: &NovaDB, username: &String) -> (r: bool)
        ensures
            r == !username_taken(db@.tables, username@),
    {
        find_by_username(&db.tables, username).is_none()
    }

    /// Whether the email and the username of `check` are given and free.
    pub fn is_person_unique(&self, db: &NovaDB, check: PersonCheck) -> (r: PersonCheckResponse)
        ensures
            r.email == match check.email {
                Some(e) => !email_taken(db@.tables, e@),
                None => false,
            },
            r.username == match check.username {
                Some(u) => !username_taken(db@.tables, u@),
                None => false,
            },
    {
        let mut response = PersonCheckResponse { email: false, username: false };
        if let Some(email) = &check.email {
            response.email = self.is_unique_email(db, email);
        }
        if let Some(username) = &check.username {
            response.username = self.is_unique_username(db, username);
        }
        response
    }

    /// Writes a new person (never an admin) with a fresh audit record created
    /// by `created_by` at `now`. `MissingHash` without a password hash,
    /// `NotUnique` when the email or the username is taken.
    pub fn insert_person(
        &self,
        db: &mut NovaDB,
        new_person: SignUpState,
        created_by: String,
        now: Timestamp,
    ) -> (r: Result<Person, AuthError>)
        requires
            old(db)@.wf(),
        ensures
            final(db)@.wf(),
            match r {
                Ok(p) => {
                    let t = old(db)@.tables;
                    &&& new_person.pass_hash is Some
                    &&& !email_taken(t, new_person.email@)
                    &&& !username_taken(t, new_person.username@)
                    &&& final(db)@.saved == old(db)@.saved
                    &&& final(db)@.tables.posts == t.posts
                    &&& final(db)@.tables.drafts == t.drafts
                    &&& final(db)@.tables.tokens == t.tokens
                    &&& final(db)@.tables.metas == t.metas.push(p.meta)
                    &&& p.meta.is_fresh(t.metas.len() as int, created_by, now)
                    &&& final(db)@.tables.persons == t.persons.push(
                        PersonRow {
                            username: new_person.username,
                            email: new_person.email,
                            pass_hash: new_person.pass_hash.unwrap(),
                            is_admin: false,
                            meta: t.metas.len() as usize,
                        },
                    )
                    &&& p.describes(final(db)@.tables, t.persons.len() as int)
                },
                Err(e) => final(db)@ == old(db)@ && if new_person.pass_hash is None {
                    e == AuthError::MissingHash
                } else {
                    (email_taken(old(db)@.tables, new_person.email@) || username_taken(
                        old(db)@.tables,
                        new_person.username@,
                    )) && e == AuthError::NotUnique
                },
            },
    {
        let pass_hash = match new_person.pass_hash {
            Some(h) => h,
            None => return Err(AuthError::MissingHash),
        };
        if find_by_email(&db.tables, &new_person.email).is_some() || find_by_username(
            &db.tables,
            &new_person.username,
        ).is_some() {
            return Err(AuthError::NotUnique);
        }
        let ghost before = db@.tables;
        let meta = self.meta.insert_meta(db, InsertMetaArgs { created_by }, now);
        let ghost mid = db@.tables;
        let i = db.tables.persons.len();
        db.tables.persons.push(
            PersonRow {
                username: new_person.username,
                email: new_person.email,
                pass_hash,
                is_admin: false,
                meta: meta.id,
            },
        );
        proof {
            let t = db@.tables;
            assert forall|k: int| 0 <= k < t.persons.len() implies (#[trigger] t.persons[k]).meta
                < t.metas.len() by {
                if k < mid.persons.len() {
                    assert(t.persons[k] == mid.persons[k]);
                }
            }
            assert forall|a: int, b: int|
                0 <= a < t.persons.len() && 0 <= b < t.persons.len() && (#[trigger] t.persons[a]).email@
                    == (#[trigger] t.persons[b]).email@ implies a == b by {
                if a < mid.persons.len() && b < mid.persons.len() {
                    assert(t.persons[a] == mid.persons[a] && t.persons[b] == mid.persons[b]);
                } else if a < mid.persons.len() {
                    assert(t.persons[a] == before.persons[a]);
                } else if b < mid.persons.len() {
                    assert(t.persons[b] == before.persons[b]);
                }
            }
            assert forall|a: int, b: int|
                0 <= a < t.persons.len() && 0 <= b < t.persons.len() && (
                #[trigger] t.persons[a]).username@ == (#[trigger] t.persons[b]).username@ implies a
                == b by {
                if a < mid.persons.len() && b < mid.persons.len() {
                    assert(t.persons[a] == mid.persons[a] && t.persons[b] == mid.persons[b]);
                } else if a < mid.persons.len() {
                    assert(t.persons[a] == before.persons[a]);
                } else if b < mid.persons.len() {
                    assert(t.persons[b] == before.persons[b]);
                }
            }
            lemma_posts_untouched(mid, t);
            assert(t.metas[meta.id as int] == meta);
        }
        Ok(hydrate_person(&db.tables, i))
    }

    /// Person `person_id`, if there is one.
    pub fn select_person(&self, db: &NovaDB, person_id: usize) -> (r: Option<Person>)
        requires
            db@.wf(),
        ensures
            match r {
                Some(p) => p.describes(db@.tables, person_id as int),
                None => person_id >= db@.tables.persons.len(),
            },
    {
        if person_id < db.tables.persons.len() {
            Some(hydrate_person(&db.tables, person_id))
        } else {
            None
        }
    }

    /// The person with email `email`, if there is one.
    pub fn select_person_by_email(&self, db: &NovaDB, email: String) -> (r: Option<Person>)
        requires
            db@.wf(),
        ensures
            match r {
                Some(p) => p.describes(db@.tables, p.id as int) && p.email@ == email@,
                None => !email_taken(db@.tables, email@),
            },
    {
        match find_by_email(&db.tables, &email) {
            Some(i) => Some(hydrate_person(&db.tables, i)),
            None => None,
        }
    }

    /// The password hash of the person with email `email`, if there is one.
    pub fn select_person_hash_by_email(&self, db: &NovaDB, email: String) -> (r: Option<String>)
        requires
            db@.wf(),
        ensures
            match r {
                Some(h) => exists|i: int|
                    0 <= i < db@.tables.persons.len() && #[trigger] db@.tables.persons[i].email@
                        == email@ && h == db@.tables.persons[i].pass_hash,
                None => !email_taken(db@.tables, email@),
            },
    {
        match find_by_email(&db.tables, &email) {
            Some(i) => Some(db.tables.persons[i].pass_hash.duplicate()),
            None => None,
        }
    }

    /// Every person, in order of id.
    pub fn select_persons(&self, db: &NovaDB) -> (r: Vec<Person>)
        requires
            db@.wf(),
        ensures
            r@.len() == db@.tables.persons.len(),
            forall|i: int| 0 <= i < r@.len() ==> #[trigger] r@[i].describes(db@.tables, i),
    {
        let mut r: Vec<Person> = Vec::new();
        let mut i: usize = 0;
        while i < db.tables.persons.len()
            invariant
                db@.wf(),
                i <= db@.tables.persons.len(),
                r@.len() == i,
                forall|j: int| 0 <= j < i ==> #[trigger] r@[j].describes(db@.tables, j),
            decreases db@.tables.persons.len() - i,
        {
            r.push(hydrate_person(&db.tables, i));
            i = i + 1;
        }
        r
    }

    /// Session token `token_id`; `NotFound` when there is none.
    pub fn select_token_record(&self, db: &NovaDB, token_id: usize) -> (r: Result<
        Token,
        StoreError,
    >)
        requires
            db@.wf(),
        ensures
            match r {
                Ok(t) => t.describes(db@.tables, token_id as int),
                Err(e) => token_id >= db@.tables.tokens.len() && e == StoreError::NotFound,
            },
    {
        if token_id >= db.tables.tokens.len() {
            return Err(StoreError::NotFound);
        }
        let row = &db.tables.tokens[token_id];
        assert(db@.tables.tokens[token_id as int].meta < db@.tables.metas.len());
        Ok(
            Token {
                id: token_id,
                person: row.person.duplicate(),
                signed_token: row.signed_token.duplicate(),
                meta: db.tables.metas[row.meta].duplicate(),
            },
        )
    }

    /// Issues a session token to `person_id` at `now`, with a fresh audit
    /// record created by that person.
    pub fn insert_token_record(&self, db: &mut NovaDB, person_id: String, now: Timestamp) -> (r:
        TokenRecord)
        requires
            old(db)@.wf(),
        ensures
            final(db)@.wf(),
            final(db)@.saved == old(db)@.saved,
            final(db)@.tables.posts == old(db)@.tables.posts,
            final(db)@.tables.drafts == old(db)@.tables.drafts,
            final(db)@.tables.persons == old(db)@.tables.persons,
            final(db)@.tables.metas.len() == old(db)@.tables.metas.len() + 1,
            final(db)@.tables.metas.drop_last() == old(db)@.tables.metas,
            final(db)@.tables.metas.last().is_fresh(
                old(db)@.tables.metas.len() as int,
                person_id,
                now,
            ),
            final(db)@.tables.tokens == old(db)@.tables.tokens.push(
                TokenRow {
                    person: person_id,
                    signed_token: None,
                    meta: old(db)@.tables.metas.len() as usize,
                },
            ),
            r.id == old(db)@.tables.tokens.len(),
            r.person == person_id,
            r.created_by == person_id,
            r.created_on == now,
            r.deleted_on is None,
            r.meta == old(db)@.tables.metas.len(),
    {
        let ghost before = db@.tables;
        let meta = self.meta.insert_meta(db, InsertMetaArgs { created_by: person_id.duplicate() }, now);
        let ghost mid = db@.tables;
        let id = db.tables.tokens.len();
        db.tables.tokens.push(
            TokenRow { person: person_id.duplicate(), signed_token: None, meta: meta.id },
        );
        proof {
            let t = db@.tables;
            assert forall|k: int| 0 <= k < t.tokens.len() implies (#[trigger] t.tokens[k]).meta
                < t.metas.len() by {
                if k < mid.tokens.len() {
                    assert(t.tokens[k] == mid.tokens[k]);
                }
            }
            lemma_posts_untouched(mid, t);
            assert(t.metas.drop_last() =~= before.metas);
        }
        TokenRecord {
            created_by: meta.created_by,
            created_on: meta.created_on,
            deleted_on: meta.deleted_on,
            id,
            person: person_id,
            meta: meta.id,
        }
    }

    /// Stores the signed form of session token `token_id`; false when there
    /// is no such token.
    pub fn set_signed_token(&self, db: &mut NovaDB, token_id: usize, signed_token: String) -> (r:
        bool)
        requires
            old(db)@.wf(),
        ensures
            final(db)@.wf(),
            r == (token_id < old(db)@.tables.tokens.len()),
            r ==> final(db)@.tables.tokens == old(db)@.tables.tokens.update(
                token_id as int,
                TokenRow {
                    signed_token: Some(signed_token),
                    ..old(db)@.tables.tokens[token_id as int]
                },
            ),
            !r ==> final(db)@ == old(db)@,
            final(db)@.saved == old(db)@.saved,
            final(db)@.tables.metas == old(db)@.tables.metas,
            final(db)@.tables.posts == old(db)@.tables.posts,
            final(db)@.tables.drafts == old(db)@.tables.drafts,
            final(db)@.tables.persons == old(db)@.tables.persons,
    {
        if token_id >= db.tables.tokens.len() {
            return false;
        }
        let ghost before = db@.tables;
        let mut row = db.tables.tokens[token_id].duplicate();
        row.signed_token = Some(signed_token);
        db.tables.tokens.set(token_id, row);
        proof {
            let t = db@.tables;
            assert forall|k: int| 0 <= k < t.tokens.len() implies (#[trigger] t.tokens[k]).meta
                < t.metas.len() by {
                assert(t.tokens[k].meta == before.tokens[k].meta);
            }
            lemma_posts_untouched(before, t);
        }
        true
    }

    /// Stamps session token `token_id` deleted at `now`; false when there is
    /// no such token.
    pub fn soft_delete_token_record(&self, db: &mut NovaDB, token_id: usize, now: Timestamp) -> (r:
        bool)
        requires
            old(db)@.wf(),
        ensures
            final(db)@.wf(),
            r == (token_id < old(db)@.tables.tokens.len()),
            r ==> {
                let t = old(db)@.tables;
                let mi = t.tokens[token_id as int].meta as int;
                final(db)@.tables.metas == t.metas.update(
                    mi,
                    Meta { deleted_on: Some(now), ..t.metas[mi] },
                )
            },
            !r ==> final(db)@ == old(db)@,
            final(db)@.saved == old(db)@.saved,
            final(db)@.tables.posts == old(db)@.tables.posts,
            final(db)@.tables.drafts == old(db)@.tables.drafts,
            final(db)@.tables.persons == old(db)@.tables.persons,
            final(db)@.tables.tokens == old(db)@.tables.tokens,
    {
        if token_id >= db.tables.tokens.len() {
            return false;
        }
        let ghost before = db@.tables;
        let mi = db.tables.tokens[token_id].meta;
        assert(before.tokens[token_id as int].meta < before.metas.len());
        let mut m = db.tables.metas[mi].duplicate();
        m.deleted_on = Some(now);
        db.tables.metas.set(mi, m);
        proof {
            let t = db@.tables;
            assert forall|k: int| 0 <= k < t.metas.len() implies (#[trigger] t.metas[k]).id == k by {
                assert(t.metas[k].id == before.metas[k].id);
            }
            assert forall|i: int| 0 <= i < t.persons.len() implies (#[trigger] t.persons[i]).meta
                < t.metas.len() by {
                assert(t.persons[i] == before.persons[i]);
            }
            assert forall|i: int| 0 <= i < t.tokens.len() implies (#[trigger] t.tokens[i]).meta
                < t.metas.len() by {
                assert(t.tokens[i] == before.tokens[i]);
            }
            lemma_posts_untouched(before, t);
        }
        true
    }

    /// Stamps every session token of `person_id` deleted at `now`, by that
    /// person.
    pub fn delete_all_sessions_for_person(
        &self,
        db: &mut NovaDB,
        person_id: String,
        now: Timestamp,
    ) -> (r: bool)
        requires
            old(db)@.wf(),
        ensures
            r,
            final(db)@.wf(),
            final(db)@.tables.metas == sessions_ended(old(db)@.tables, person_id, now),
            final(db)@.saved == old(db)@.saved,
            final(db)@.tables.posts == old(db)@.tables.posts,
            final(db)@.tables.drafts == old(db)@.tables.drafts,
            final(db)@.tables.persons == old(db)@.tables.persons,
            final(db)@.tables.tokens == old(db)@.tables.tokens,
    {
        let ghost before = db@.tables;
        let n = db.tables.tokens.len();
        let mut k: usize = 0;
        while k < n
            invariant
                n == before.tokens.len(),
                k <= n,
                before.wf(),
                db@.saved == old(db)@.saved,
                db@.tables.posts == before.posts,
                db@.tables.drafts == before.drafts,
                db@.tables.persons == before.persons,
                db@.tables.tokens == before.tokens,
                db@.tables.metas.len() == before.metas.len(),
                forall|mi: int|
                    0 <= mi < before.metas.len() ==> #[trigger] db@.tables.metas[mi] == if exists|
                        j: int,
                    |
                        0 <= j < k && before.tokens[j].person@ == person_id@
                            && #[trigger] before.tokens[j].meta == mi {
                        stamp_deleted(before.metas[mi], Some(person_id), now)
                    } else {
                        before.metas[mi]
                    },
            decreases n - k,
        {
            let ghost prev = db@.tables.metas;
            if db.tables.tokens[k].person == person_id {
                let mi = db.tables.tokens[k].meta;
                assert(before.tokens[k as int].meta < before.metas.len());
                let mut m = db.tables.metas[mi].duplicate();
                m.deleted_on = Some(now);
                m.deleted_by = Some(person_id.duplicate());
                db.tables.metas.set(mi, m);
                assert forall|x: int| 0 <= x < before.metas.len() implies #[trigger] db@.tables.metas[x]
                    == if exists|j: int|
                    0 <= j < k + 1 && before.tokens[j].person@ == person_id@
                        && #[trigger] before.tokens[j].meta == x {
                    stamp_deleted(before.metas[x], Some(person_id), now)
                } else {
                    before.metas[x]
                } by {
                    if x == mi {
                        assert(before.tokens[k as int].meta == x);
                    } else {
                        assert(db@.tables.metas[x] == prev[x]);
                        if exists|j: int|
                            0 <= j < k + 1 && before.tokens[j].person@ == person_id@
                                && #[trigger] before.tokens[j].meta == x {
                            let j = choose|j: int|
                                0 <= j < k + 1 && before.tokens[j].person@ == person_id@
                                    && #[trigger] before.tokens[j].meta == x;
                            assert(j != k);
                        }
                    }
                }
            } else {
                assert forall|x: int| 0 <= x < before.metas.len() implies #[trigger] db@.tables.metas[x]
                    == if exists|j: int|
                    0 <= j < k + 1 && before.tokens[j].person@ == person_id@
                        && #[trigger] before.tokens[j].meta == x {
                    stamp_deleted(before.metas[x], Some(person_id), now)
                } else {
                    before.metas[x]
                } by {
                    if exists|j: int|
                        0 <= j < k + 1 && before.tokens[j].person@ == person_id@
                            && #[trigger] before.tokens[j].meta == x {
                        let j = choose|j: int|
                            0 <= j < k + 1 && before.tokens[j].person@ == person_id@
                                && #[trigger] before.tokens[j].meta == x;
                        assert(j != k);
                    }
                }
            }
            k = k + 1;
        }
        proof {
            let t = db@.tables;
            assert(t.metas =~= sessions_ended(before, person_id, now));
            assert forall|i: int| 0 <= i < t.metas.len() implies (#[trigger] t.metas[i]).id == i by {
                assert(t.metas[i].id == before.metas[i].id);
            }
            assert forall|i: int| 0 <= i < t.persons.len() implies (#[trigger] t.persons[i]).meta
                < t.metas.len() by {
                assert(t.persons[i] == before.persons[i]);
            }
            assert forall|i: int| 0 <= i < t.tokens.len() implies (#[trigger] t.tokens[i]).meta
                < t.metas.len() by {
                assert(t.tokens[i] == before.tokens[i]);
            }
            lemma_posts_untouched(before, t);
        }
        true
    }
}

} // verus!
