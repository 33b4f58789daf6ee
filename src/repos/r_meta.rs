use vstd::prelude::*;

use crate::db::nova_db::{draft_of, same_people, NovaDB};
use crate::models::meta::{Duplicate, InsertMetaArgs, Meta, Timestamp};

verus! {

/// The audit substrate: creates and reads audit records.
#[derive(Debug, Clone, Copy)]
pub struct MetaRepo {}

impl MetaRepo {
    pub fn new() -> (r: MetaRepo) {
        MetaRepo {}
    }

    /// Appends a new audit record created by `new_meta.created_by` at `now`,
    /// inside the open unit of work if there is one.
    pub fn insert_meta(&self, db: &mut NovaDB, new_meta: InsertMetaArgs, now: Timestamp) -> (r:
        Meta)
        requires
            old(db)@.wf(),
        ensures
            final(db)@.wf(),
            final(db)@.saved == old(db)@.saved,
            final(db)@.tables.posts == old(db)@.tables.posts,
            final(db)@.tables.drafts == old(db)@.tables.drafts,
            same_people(old(db)@.tables, final(db)@.tables),
            final(db)@.tables.metas == old(db)@.tables.metas.push(r),
            r.is_fresh(old(db)@.tables.metas.len() as int, new_meta.created_by, now),
    {
        let meta = Meta {
            id: db.tables.metas.len(),
            created_by: new_meta.created_by,
            modified_by: None,
            deleted_by: None,
            created_on: now,
            modified_on: None,
            deleted_on: None,
        };
        let r = meta.duplicate();
        db.tables.metas.push(meta);
        proof {
            let t = db@.tables;
            assert(t.drafts == old(db)@.tables.drafts);
            assert(t.posts == old(db)@.tables.posts);
            assert(t.persons == old(db)@.tables.persons);
            assert(t.tokens == old(db)@.tables.tokens);
            assert forall|i: int| 0 <= i < t.persons.len() implies (#[trigger] t.persons[i]).meta
                < t.metas.len() by {
                assert(t.persons[i] == old(db)@.tables.persons[i]);
            }
            assert forall|i: int| 0 <= i < t.tokens.len() implies (#[trigger] t.tokens[i]).meta
                < t.metas.len() by {
                assert(t.tokens[i] == old(db)@.tables.tokens[i]);
            }
            assert forall|i: int| 0 <= i < t.metas.len() implies (#[trigger] t.metas[i]).id == i by {
                if i < old(db)@.tables.metas.len() {
                    assert(t.metas[i] == old(db)@.tables.metas[i]);
                }
            }
            assert forall|p: int| 0 <= p < t.posts.len() implies #[trigger] t.has_draft(p) <==> old(
                db,
            )@.tables.has_draft(p) by {
                if old(db)@.tables.has_draft(p) {
                    let d = choose|d: int| draft_of(old(db)@.tables.drafts, d, p);
                    assert(draft_of(t.drafts, d, p));
                }
            }
        }
        r
    }

    /// The audit record with id `meta_id`, if there is one.
    pub fn select_meta(&self, db: &NovaDB, meta_id: usize) -> (r: Option<Meta>)
        requires
            db@.wf(),
        ensures
            r == (if meta_id < db@.tables.metas.len() {
                Some(db@.tables.metas[meta_id as int])
            } else {
                None
            }),
    {
        if meta_id < db.tables.metas.len() {
            Some(db.tables.metas[meta_id].duplicate())
        } else {
            None
        }
    }
}

} // verus!
