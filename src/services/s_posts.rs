use vstd::prelude::*;

use crate::db::nova_db::{
    any_selected, at_most_one_published, is_newest, lemma_draft_appended, lemma_flags_only,
    with_post_unpublished, published_swap, with_flag, DbView, DraftFilter,
    NovaDB, PostRow, same_people,
};
use crate::errors::StoreError;
use crate::models::meta::Timestamp;
use crate::models::post::{
    post_listed, post_newer, DraftPostArgs, Post, PostHydrated, PostVersion,
};
use crate::repos::r_posts::{
    is_unpublished_post, lemma_listing_unique, lemma_stamp_time_bounds, lists_newest_first, new_draft_row, stamp_time,
    PostsRepo,
};
use crate::utils::{current_time, random_index};

verus! {

/// What `create_draft` does to the store `before`, ending in `after`, when
/// the clock reads `now`. A draft added to an existing post is stamped with
/// `stamp_time`, so it is the post's newest; a published one first
/// unpublishes the post's other drafts. An open unit of work is joined, else
/// one is opened and committed.
pub open spec fn create_draft_outcome(
    before: DbView,
    after: DbView,
    draft: DraftPostArgs,
    author_id: String,
    now: Timestamp,
    r: Result<PostVersion, StoreError>,
) -> bool {
    let t = before.tables;
    match draft.id {
        Some(post_id) => match r {
            Ok(v) => {
                &&& post_id < t.posts.len()
                &&& after.saved == before.saved
                &&& after.tables.metas == t.metas
                &&& after.tables.posts == t.posts
                &&& same_people(t, after.tables)
                &&& after.tables.drafts == (if draft.published {
                    with_post_unpublished(t.drafts, post_id as int)
                } else {
                    t.drafts
                }).push(
                    new_draft_row(
                        t,
                        post_id as int,
                        draft.title,
                        draft.markdown,
                        author_id,
                        draft.published,
                        draft.image,
                        stamp_time(t.drafts, post_id as int, now),
                    ),
                )
                &&& v.describes(after.tables, t.drafts.len() as int)
            },
            Err(e) => post_id >= t.posts.len() && e == StoreError::NotFound && after == before,
        },
        None => match r {
            Ok(v) => {
                &&& after.saved == before.saved
                &&& v.id == t.posts.len()
                &&& after.tables.metas.len() == t.metas.len() + 1
                &&& after.tables.metas.drop_last() == t.metas
                &&& after.tables.metas.last().is_fresh(t.metas.len() as int, author_id, now)
                &&& after.tables.posts == t.posts.push(PostRow { meta: t.metas.len() as usize })
                &&& same_people(t, after.tables)
                &&& after.tables.drafts == t.drafts.push(
                    new_draft_row(
                        after.tables,
                        t.posts.len() as int,
                        draft.title,
                        draft.markdown,
                        author_id,
                        draft.published,
                        draft.image,
                        now,
                    ),
                )
                &&& v.describes(after.tables, t.drafts.len() as int)
            },
            Err(_) => false,
        },
    }
}

/// What `publish_draft` does to the store `before`, ending in `after`. An
/// open unit of work is joined, else one is opened and committed.
pub open spec fn publish_outcome(
    before: DbView,
    after: DbView,
    draft_id: usize,
    r: Result<bool, StoreError>,
) -> bool {
    match r {
        Ok(b) => {
            &&& b
            &&& draft_id < before.tables.drafts.len()
            &&& after.saved == before.saved
            &&& after.tables.metas == before.tables.metas
            &&& after.tables.posts == before.tables.posts
            &&& same_people(before.tables, after.tables)
            &&& after.tables.drafts == published_swap(before.tables.drafts, draft_id as int)
        },
        Err(e) => after == before && draft_id >= before.tables.drafts.len() && e
            == StoreError::NotFound,
    }
}

/// What `unpublish_post` does to the store `before`, ending in `after`.
pub open spec fn unpublish_outcome(
    before: DbView,
    after: DbView,
    draft_id: usize,
    r: Result<bool, StoreError>,
) -> bool {
    match r {
        Ok(b) => {
            &&& b
            &&& draft_id < before.tables.drafts.len()
            &&& after.saved == before.saved
            &&& after.tables.metas == before.tables.metas
            &&& after.tables.posts == before.tables.posts
            &&& same_people(before.tables, after.tables)
            &&& after.tables.drafts == with_flag(before.tables.drafts, draft_id as int, false)
        },
        Err(e) => after == before && draft_id >= before.tables.drafts.len() && e
            == StoreError::NotFound,
    }
}

/// The draft/version engine: posts, their drafts, and publication.
#[derive(Debug, Clone, Copy)]
pub struct PostsService {
    repo: PostsRepo,
}

impl PostsService {
    pub fn new() -> (r: PostsService) {
        PostsService { repo: PostsRepo::new() }
    }

    /// Creates a post inside the open unit of work.
    fn create_post(&self, db: &mut NovaDB, created_by: String, now: Timestamp) -> (r: Result<
        Post,
        StoreError,
    >)
        requires
            old(db)@.wf(),
        ensures
            final(db)@.wf(),
            match r {
                Ok(post) => {
                    &&& old(db)@.in_tran()
                    &&& final(db)@.saved == old(db)@.saved
                    &&& post.id == old(db)@.tables.posts.len()
                    &&& post.meta.is_fresh(old(db)@.tables.metas.len() as int, created_by, now)
                    &&& final(db)@.tables.metas == old(db)@.tables.metas.push(post.meta)
                    &&& final(db)@.tables.posts == old(db)@.tables.posts.push(
                        PostRow { meta: post.meta.id },
                    )
                    &&& final(db)@.tables.drafts == old(db)@.tables.drafts
                    &&& same_people(old(db)@.tables, final(db)@.tables)
                },
                Err(e) => !old(db)@.in_tran() && e == StoreError::StoreFailure && final(db)@ == old(
                    db,
                )@,
            },
    {
        self.repo.insert_post(db, created_by, now)
    }

    /// Post `post_id`; `NotFound` when there is none.
    pub fn get_post(&self, db: &NovaDB, post_id: usize) -> (r: Result<Post, StoreError>)
        requires
            db@.wf(),
        ensures
            match r {
                Ok(post) => post.describes(db@.tables, post_id as int),
                Err(e) => post_id >= db@.tables.posts.len() && e == StoreError::NotFound,
            },
    {
        self.repo.select_post(db, post_id)
    }

    /// Every post with its working title, the newest post first.
    pub fn get_posts(&self, db: &NovaDB) -> (r: Vec<PostHydrated>)
        requires
            db@.wf(),
        ensures
            r@.len() == db@.tables.posts.len(),
            forall|i: int|
                0 <= i < r@.len() ==> #[trigger] r@[i].describes(db@.tables, r@[i].id as int),
            forall|p: usize| p < db@.tables.posts.len() ==> #[trigger] post_listed(r@, p as int),
            forall|i: int, j: int|
                #![trigger r@[i], r@[j]]
                0 <= i < j < r@.len() ==> post_newer(db@.tables, r@[i].id as int, r@[j].id as int),
    {
        self.repo.select_posts(db)
    }

    /// Every draft of post `post_id`, newest first.
    pub fn get_post_drafts(&self, db: &NovaDB, post_id: usize) -> (r: Vec<PostVersion>)
        requires
            db@.wf(),
        ensures
            lists_newest_first(r@, db@.tables, DraftFilter::OfPost(post_id)),
    {
        self.repo.select_post_drafts(db, post_id)
    }

    /// Draft `draft_id`; `NotFound` when there is none.
    pub fn get_draft(&self, db: &NovaDB, draft_id: usize) -> (r: Result<PostVersion, StoreError>)
        requires
            db@.wf(),
        ensures
            match r {
                Ok(v) => v.describes(db@.tables, draft_id as int),
                Err(e) => draft_id >= db@.tables.drafts.len() && e == StoreError::NotFound,
            },
    {
        self.repo.select_draft(db, draft_id)
    }

    /// Creates a draft by `author_id`, stamped now. With a post id the draft
    /// is appended to that post and becomes its newest; a published one first
    /// unpublishes the post's other drafts, in one unit of work. Without a
    /// post id a post is created and the draft written in the same unit of
    /// work, so that no post is ever seen without a draft. An open unit of
    /// work is joined.
    pub fn create_draft(&self, db: &mut NovaDB, draft: DraftPostArgs, author_id: String) -> (r:
        Result<PostVersion, StoreError>)
        requires
            old(db)@.wf(),
        ensures
            final(db)@.wf(),
            exists|now: Timestamp|
                create_draft_outcome(old(db)@, final(db)@, draft, author_id, now, r),
    {
        let now = current_time();
        self.create_draft_at(db, draft, author_id, now)
    }

    /// `create_draft`, with the clock reading `now`: a new post and its draft
    /// are stamped `now`, a draft of an existing post `stamp_time`.
    pub fn create_draft_at(
        &self,
        db: &mut NovaDB,
        draft: DraftPostArgs,
        author_id: String,
        now: Timestamp,
    ) -> (r: Result<PostVersion, StoreError>)
        requires
            old(db)@.wf(),
        ensures
            final(db)@.wf(),
            create_draft_outcome(old(db)@, final(db)@, draft, author_id, now, r),
    {
        let ghost start = db@;
        if let Some(post_id) = draft.id {
            if post_id >= db.tables.posts.len() {
                return Err(StoreError::NotFound);
            }
            let at = self.repo.draft_stamp(db, post_id, now);
            if !draft.published {
                return self.repo.create_draft(
                    db,
                    post_id,
                    draft.title,
                    draft.markdown,
                    author_id,
                    false,
                    draft.image,
                    at,
                );
            }
            let own = db.saved.is_none();
            if own {
                if let Err(e) = db.begin_tran() {
                    return Err(e);
                }
            }
            if let Err(e) = self.repo.unpublish_drafts_for_post_id(db, post_id) {
                if own {
                    let _ = db.cancel_tran();
                }
                return Err(e);
            }
            let ghost cleared = db@;
            let new_draft = match self.repo.create_draft(
                db,
                post_id,
                draft.title,
                draft.markdown,
                author_id,
                true,
                draft.image,
                at,
            ) {
                Ok(v) => v,
                Err(e) => {
                    if own {
                        let _ = db.cancel_tran();
                    }
                    return Err(e);
                },
            };
            proof {
                lemma_flags_only(start.tables, cleared.tables);
                lemma_draft_appended(
                    cleared.tables,
                    db@.tables,
                    db@.tables.drafts[start.tables.drafts.len() as int],
                );
            }
            if own {
                if let Err(e) = db.commit_tran() {
                    return Err(e);
                }
            }
            return Ok(new_draft);
        }
        let own = db.saved.is_none();
        if own {
            if let Err(e) = db.begin_tran() {
                return Err(e);
            }
        }
        let post = match self.create_post(db, author_id.clone(), now) {
            Ok(p) => p,
            Err(e) => {
                if own {
                    let _ = db.cancel_tran();
                }
                return Err(e);
            },
        };
        let ghost with_post = db@;
        let new_draft = match self.repo.create_draft(
            db,
            post.id,
            draft.title,
            draft.markdown,
            author_id,
            draft.published,
            draft.image,
            now,
        ) {
            Ok(v) => v,
            Err(e) => {
                if own {
                    let _ = db.cancel_tran();
                }
                return Err(e);
            },
        };
        proof {
            let a = with_post.tables;
            let b = db@.tables;
            if own {
                assert forall|p: int| 0 <= p < b.posts.len() implies #[trigger] b.has_draft(p) by {
                    if p < start.tables.posts.len() {
                        assert(start.tables.has_draft(p));
                        let d = choose|d: int| crate::db::nova_db::draft_of(start.tables.drafts, d, p);
                        assert(crate::db::nova_db::draft_of(b.drafts, d, p));
                    } else {
                        assert(crate::db::nova_db::draft_of(b.drafts, a.drafts.len() as int, p));
                    }
                }
            }
            assert(b.metas.drop_last() =~= start.tables.metas);
        }
        if own {
            if let Err(e) = db.commit_tran() {
                return Err(e);
            }
        }
        Ok(new_draft)
    }

    /// Every post that has drafts but no published one, with its current
    /// draft, in increasing order of post id.
    pub fn get_drafted_posts(&self, db: &NovaDB) -> (r: Vec<PostVersion>)
        requires
            db@.wf(),
        ensures
            forall|i: int|
                0 <= i < r@.len() ==> {
                    &&& is_unpublished_post(db@.tables, #[trigger] r@[i].id as int)
                    &&& is_newest(
                        db@.tables.drafts,
                        DraftFilter::UnpublishedOfPost(r@[i].id),
                        r@[i].draft_id as int,
                    )
                    &&& r@[i].describes(db@.tables, r@[i].draft_id as int)
                },
            forall|p: usize|
                #[trigger] is_unpublished_post(db@.tables, p as int) ==> exists|i: int|
                    0 <= i < r@.len() && r@[i].id == p,
            forall|i: int, j: int|
                #![trigger r@[i], r@[j]]
                0 <= i < j < r@.len() ==> r@[i].id < r@[j].id,
    {
        let ids = self.repo.select_unpublished_post_ids(db);
        let mut r: Vec<PostVersion> = Vec::new();
        let mut k: usize = 0;
        while k < ids.len()
            invariant
                db@.wf(),
                k <= ids.len(),
                r.len() == k,
                forall|i: int| 0 <= i < ids.len() ==> is_unpublished_post(db@.tables, #[trigger] ids@[i] as int),
                forall|i: int|
                    0 <= i < k ==> {
                        &&& #[trigger] r@[i].id == ids@[i]
                        &&& is_newest(
                            db@.tables.drafts,
                            DraftFilter::UnpublishedOfPost(r@[i].id),
                            r@[i].draft_id as int,
                        )
                        &&& r@[i].describes(db@.tables, r@[i].draft_id as int)
                    },
            decreases ids.len() - k,
        {
            let p = ids[k];
            proof {
                let t = db@.tables;
                assert(is_unpublished_post(t, p as int));
                let d = choose|d: int|
                    0 <= d < t.drafts.len() && #[trigger] crate::db::nova_db::selects(
                        DraftFilter::OfPost(p),
                        t.drafts[d],
                    );
                if t.drafts[d].published {
                    assert(crate::db::nova_db::selects(
                        DraftFilter::PublishedOfPost(p),
                        t.drafts[d],
                    ));
                }
                assert(crate::db::nova_db::selects(DraftFilter::UnpublishedOfPost(p), t.drafts[d]));
            }
            let v = self.get_current_draft(db, p).unwrap();
            r.push(v);
            k = k + 1;
        }
        proof {
            assert forall|q: usize| #[trigger] is_unpublished_post(db@.tables, q as int) implies exists|i: int|
                0 <= i < r@.len() && r@[i].id == q by {
                assert(ids@.contains(q));
                let i = choose|i: int| 0 <= i < ids@.len() && ids@[i] == q;
                assert(r@[i].id == ids@[i]);
            }
            assert forall|i: int, j: int|
                #![trigger r@[i], r@[j]]
                0 <= i < j < r@.len() implies r@[i].id < r@[j].id by {
                assert(r@[i].id == ids@[i]);
                assert(r@[j].id == ids@[j]);
            }
        }
        r
    }

    /// The current draft of post `post_id`: its newest unpublished draft;
    /// `NotFound` when it has none.
    pub fn get_current_draft(&self, db: &NovaDB, post_id: usize) -> (r: Result<
        PostVersion,
        StoreError,
    >)
        requires
            db@.wf(),
        ensures
            match r {
                Ok(v) => is_newest(
                    db@.tables.drafts,
                    DraftFilter::UnpublishedOfPost(post_id),
                    v.draft_id as int,
                ) && v.describes(db@.tables, v.draft_id as int),
                Err(e) => !any_selected(db@.tables.drafts, DraftFilter::UnpublishedOfPost(post_id))
                    && e == StoreError::NotFound,
            },
    {
        self.repo.select_current_draft(db, post_id)
    }

    /// Publishes draft `draft_id`: in one unit of work every draft of its
    /// post is unpublished, then this one is published. An open unit of work
    /// is joined. `NotFound` when there is no such draft.
    pub fn publish_draft(&self, db: &mut NovaDB, draft_id: usize) -> (r: Result<bool, StoreError>)
        requires
            old(db)@.wf(),
        ensures
            final(db)@.wf(),
            publish_outcome(old(db)@, final(db)@, draft_id, r),
    {
        let post_id = match self.repo.select_post_id_for_draft_id(db, draft_id) {
            Ok(p) => p,
            Err(e) => return Err(e),
        };
        let ghost start = db@;
        let own = db.saved.is_none();
        if own {
            if let Err(e) = db.begin_tran() {
                return Err(e);
            }
        }
        if let Err(e) = self.repo.unpublish_drafts_for_post_id(db, post_id) {
            if own {
                let _ = db.cancel_tran();
            }
            return Err(e);
        }
        if let Err(e) = self.repo.publish_draft(db, draft_id) {
            if own {
                let _ = db.cancel_tran();
            }
            return Err(e);
        }
        proof {
            assert(db@.tables.drafts =~= published_swap(start.tables.drafts, draft_id as int));
            lemma_flags_only(start.tables, db@.tables);
        }
        if own {
            if let Err(e) = db.commit_tran() {
                return Err(e);
            }
        }
        Ok(true)
    }

    /// Every published draft, newest first.
    pub fn get_published_posts(&self, db: &NovaDB) -> (r: Vec<PostVersion>)
        requires
            db@.wf(),
        ensures
            lists_newest_first(r@, db@.tables, DraftFilter::Published),
    {
        self.repo.select_published_posts(db)
    }

    /// Unpublishes draft `draft_id`; `NotFound` when there is no such draft.
    pub fn unpublish_post(&self, db: &mut NovaDB, draft_id: usize) -> (r: Result<bool, StoreError>)
        requires
            old(db)@.wf(),
        ensures
            final(db)@.wf(),
            unpublish_outcome(old(db)@, final(db)@, draft_id, r),
    {
        match self.repo.unpublish_draft(db, draft_id) {
            Ok(v) => {
                assert(v.describes(db@.tables, draft_id as int));
                Ok(true)
            },
            Err(e) => Err(e),
        }
    }

    /// Entry `index` of the published drafts listed newest first; `NotFound`
    /// when there are no more than `index` of them.
    pub fn get_published_post_at(&self, db: &NovaDB, index: usize) -> (r: Result<
        PostVersion,
        StoreError,
    >)
        requires
            db@.wf(),
        ensures
            forall|l: Seq<PostVersion>|
                #[trigger] lists_newest_first(l, db@.tables, DraftFilter::Published) ==> match r {
                    Ok(v) => index < l.len() && v == l[index as int],
                    Err(e) => index >= l.len() && e == StoreError::NotFound,
                },
    {
        let mut published = self.repo.select_published_posts(db);
        let ghost listing = published@;
        proof {
            assert forall|l: Seq<PostVersion>|
                #[trigger] lists_newest_first(l, db@.tables, DraftFilter::Published) implies l
                == listing by {
                lemma_listing_unique(l, listing, db@.tables, DraftFilter::Published);
            }
        }
        if index >= published.len() {
            return Err(StoreError::NotFound);
        }
        let v = published.swap_remove(index);
        Ok(v)
    }

    /// A published draft picked at random: entry `i` of the published drafts
    /// listed newest first, for an `i` drawn below their number. `NotFound`
    /// when none is published.
    pub fn get_random_post(&self, db: &NovaDB) -> (r: Result<PostVersion, StoreError>)
        requires
            db@.wf(),
        ensures
            match r {
                Ok(v) => v.describes(db@.tables, v.draft_id as int) && v.published,
                Err(e) => !any_selected(db@.tables.drafts, DraftFilter::Published) && e
                    == StoreError::NotFound,
            },
    {
        let published = self.repo.select_published_posts(db);
        let n = db.tables.drafts.len();
        if published.len() == 0 {
            proof {
                if any_selected(db@.tables.drafts, DraftFilter::Published) {
                    let d = choose|d: int|
                        0 <= d < db@.tables.drafts.len() && #[trigger] crate::db::nova_db::selects(
                            DraftFilter::Published,
                            db@.tables.drafts[d],
                        );
                    assert(d < n);
                    assert(crate::db::nova_db::selects(
                        DraftFilter::Published,
                        db@.tables.drafts[d as usize as int],
                    ));
                }
            }
            return Err(StoreError::NotFound);
        }
        let i = random_index(published.len());
        let r = self.get_published_post_at(db, i);
        proof {
            assert(lists_newest_first(published@, db@.tables, DraftFilter::Published));
            assert(published@[i as int].describes(
                db@.tables,
                published@[i as int].draft_id as int,
            ));
        }
        r
    }
}

} // verus!

verus! {

/// Publishing a draft never leaves a post with two published drafts.
pub proof fn law_publish_keeps_one_published(
    before: DbView,
    after: DbView,
    draft_id: usize,
    r: Result<bool, StoreError>,
)
    requires
        before.wf(),
        at_most_one_published(before.tables.drafts),
        publish_outcome(before, after, draft_id, r),
    ensures
        at_most_one_published(after.tables.drafts),
{
    if r is Ok {
        let a = after.tables.drafts;
        let b = before.tables.drafts;
        let q = b[draft_id as int].post;
        assert forall|i: int, j: int|
            0 <= i < a.len() && 0 <= j < a.len() && #[trigger] a[i].post == #[trigger] a[j].post
                && a[i].published && a[j].published implies i == j by {
            assert(a[i].post == b[i].post && a[j].post == b[j].post);
            if b[i].post == q {
                assert(i == draft_id);
                assert(j == draft_id);
            } else {
                assert(a[i] == b[i] && a[j] == b[j]);
            }
        }
    }
}

/// Unpublishing a draft publishes nothing, so it never leaves a post with
/// two published drafts.
pub proof fn law_unpublish_keeps_one_published(
    before: DbView,
    after: DbView,
    draft_id: usize,
    r: Result<bool, StoreError>,
)
    requires
        before.wf(),
        at_most_one_published(before.tables.drafts),
        unpublish_outcome(before, after, draft_id, r),
    ensures
        after.tables.drafts.len() == before.tables.drafts.len(),
        forall|i: int|
            0 <= i < after.tables.drafts.len() && #[trigger] after.tables.drafts[i].published
                ==> before.tables.drafts[i].published,
        at_most_one_published(after.tables.drafts),
{
    if r is Ok {
        let a = after.tables.drafts;
        let b = before.tables.drafts;
        assert forall|i: int, j: int|
            0 <= i < a.len() && 0 <= j < a.len() && #[trigger] a[i].post == #[trigger] a[j].post
                && a[i].published && a[j].published implies i == j by {
            assert(i != draft_id && j != draft_id);
            assert(a[i] == b[i] && a[j] == b[j]);
        }
    }
}

/// Creating a draft never leaves a post with two published drafts.
pub proof fn law_create_draft_keeps_one_published(
    before: DbView,
    after: DbView,
    draft: DraftPostArgs,
    author_id: String,
    now: Timestamp,
    r: Result<PostVersion, StoreError>,
)
    requires
        before.wf(),
        at_most_one_published(before.tables.drafts),
        create_draft_outcome(before, after, draft, author_id, now, r),
    ensures
        at_most_one_published(after.tables.drafts),
{
    if r is Ok {
        let a = after.tables.drafts;
        let b = before.tables.drafts;
        let n = b.len() as int;
        assert(a.len() == n + 1);
        assert(a[n].published == draft.published);
        match draft.id {
            Some(p) => {
                assert(a[n].post == p);
            },
            None => {
                let v = r->Ok_0;
                assert(v.describes(after.tables, n));
                assert(a[n].post == before.tables.posts.len());
            },
        }
        assert forall|i: int, j: int|
            0 <= i < a.len() && 0 <= j < a.len() && #[trigger] a[i].post == #[trigger] a[j].post
                && a[i].published && a[j].published implies i == j by {
            if i < n {
                assert(a[i].post == b[i].post);
                assert(a[i].published ==> b[i].published);
            }
            if j < n {
                assert(a[j].post == b[j].post);
                assert(a[j].published ==> b[j].published);
            }
            if i < n && j < n {
                if !(draft.published && draft.id is Some && b[i].post == draft.id->Some_0) {
                    assert(a[i] == b[i] && a[j] == b[j]);
                }
            } else if i == n && j < n {
                match draft.id {
                    Some(p) => {},
                    None => {
                        assert(b[j].post < before.tables.posts.len());
                    },
                }
            } else if j == n && i < n {
                match draft.id {
                    Some(p) => {},
                    None => {
                        assert(b[i].post < before.tables.posts.len());
                    },
                }
            }
        }
    }
}

/// A draft just created is the newest draft of its post, and, when it is
/// not published, the post's current draft.
pub proof fn law_new_draft_is_newest(
    before: DbView,
    after: DbView,
    draft: DraftPostArgs,
    author_id: String,
    now: Timestamp,
    v: PostVersion,
)
    requires
        before.wf(),
        create_draft_outcome(before, after, draft, author_id, now, Ok(v)),
    ensures
        is_newest(after.tables.drafts, DraftFilter::OfPost(v.id), v.draft_id as int),
        !draft.published ==> is_newest(
            after.tables.drafts,
            DraftFilter::UnpublishedOfPost(v.id),
            v.draft_id as int,
        ),
{
    let a = after.tables.drafts;
    let b = before.tables.drafts;
    let n = b.len() as int;
    assert(v.describes(after.tables, n));
    assert(a.len() == n + 1);
    match draft.id {
        Some(p) => {
            lemma_stamp_time_bounds(b, p as int, now);
            assert forall|e: int|
                0 <= e < a.len() && e != n && #[trigger] crate::db::nova_db::selects(
                    DraftFilter::OfPost(v.id),
                    a[e],
                ) implies crate::db::nova_db::newer(a, n, e) by {
                assert(a[e].post == b[e].post && a[e].at == b[e].at);
            }
            assert forall|e: int|
                0 <= e < a.len() && e != n && #[trigger] crate::db::nova_db::selects(
                    DraftFilter::UnpublishedOfPost(v.id),
                    a[e],
                ) implies crate::db::nova_db::newer(a, n, e) by {
                assert(a[e].post == b[e].post && a[e].at == b[e].at);
            }
        },
        None => {
            assert forall|e: int|
                0 <= e < a.len() && e != n && #[trigger] crate::db::nova_db::selects(
                    DraftFilter::OfPost(v.id),
                    a[e],
                ) implies crate::db::nova_db::newer(a, n, e) by {
                assert(a[e] == b[e]);
                assert(b[e].post < before.tables.posts.len());
            }
            assert forall|e: int|
                0 <= e < a.len() && e != n && #[trigger] crate::db::nova_db::selects(
                    DraftFilter::UnpublishedOfPost(v.id),
                    a[e],
                ) implies crate::db::nova_db::newer(a, n, e) by {
                assert(a[e] == b[e]);
                assert(b[e].post < before.tables.posts.len());
            }
        },
    }
}

/// The current draft of a post is, among its unpublished drafts, one with
/// the latest creation time.
pub proof fn law_current_draft_is_latest(before: DbView, post_id: usize, r: Result<PostVersion, StoreError>)
    requires
        before.wf(),
        match r {
            Ok(v) => is_newest(
                before.tables.drafts,
                DraftFilter::UnpublishedOfPost(post_id),
                v.draft_id as int,
            ) && v.describes(before.tables, v.draft_id as int),
            Err(e) => !any_selected(before.tables.drafts, DraftFilter::UnpublishedOfPost(post_id))
                && e == StoreError::NotFound,
        },
    ensures
        r matches Ok(v) ==> {
            &&& v.id == post_id
            &&& !v.published
            &&& forall|e: int|
                0 <= e < before.tables.drafts.len() && #[trigger] before.tables.drafts[e].post
                    == post_id && !before.tables.drafts[e].published ==> before.tables.drafts[e].at
                    <= v.at
        },
        r is Err ==> forall|e: int|
            0 <= e < before.tables.drafts.len() && #[trigger] before.tables.drafts[e].post
                == post_id ==> before.tables.drafts[e].published,
{
    let t = before.tables;
    match r {
        Ok(v) => {
            assert forall|e: int|
                0 <= e < t.drafts.len() && #[trigger] t.drafts[e].post == post_id
                    && !t.drafts[e].published implies t.drafts[e].at <= v.at by {
                if e != v.draft_id {
                    assert(crate::db::nova_db::selects(
                        DraftFilter::UnpublishedOfPost(post_id),
                        t.drafts[e],
                    ));
                }
            }
        },
        Err(_) => {
            assert forall|e: int|
                0 <= e < t.drafts.len() && #[trigger] t.drafts[e].post == post_id implies t.drafts[e].published by {
                if !t.drafts[e].published {
                    assert(crate::db::nova_db::selects(
                        DraftFilter::UnpublishedOfPost(post_id),
                        t.drafts[e],
                    ));
                }
            }
        },
    }
}

/// Outside a unit of work no post is without a draft: an interrupted
/// creation of a post leaves nothing behind that readers can see.
pub proof fn law_committed_posts_have_drafts(db: DbView)
    requires
        db.wf(),
    ensures
        forall|p: int| 0 <= p < db.committed().posts.len() ==> #[trigger] db.committed().has_draft(p),
{
}

/// Publishing a newer draft of a post whose older draft is published swaps
/// the two; publishing it again changes nothing.
pub proof fn law_publish_swap(
    s0: DbView,
    s1: DbView,
    s2: DbView,
    d1: usize,
    d2: usize,
    r1: Result<bool, StoreError>,
    r2: Result<bool, StoreError>,
)
    requires
        s0.wf(),
        d1 < s0.tables.drafts.len(),
        d2 < s0.tables.drafts.len(),
        d1 != d2,
        s0.tables.drafts[d1 as int].post == s0.tables.drafts[d2 as int].post,
        s0.tables.drafts[d1 as int].published,
        !s0.tables.drafts[d2 as int].published,
        publish_outcome(s0, s1, d2, r1),
        publish_outcome(s1, s2, d2, r2),
    ensures
        r1 == Ok::<bool, StoreError>(true),
        !s1.tables.drafts[d1 as int].published,
        s1.tables.drafts[d2 as int].published,
        r2 == Ok::<bool, StoreError>(true),
        s2 == s1,
{
    assert(r1 is Ok);
    assert(s1.tables.drafts.len() == s0.tables.drafts.len());
    assert(r2 is Ok);
    assert(s1.tables.drafts[d2 as int].post == s0.tables.drafts[d2 as int].post);
    assert(s2.tables.drafts =~= s1.tables.drafts);
    assert(s2.tables == s1.tables);
}

/// Of two publications of drafts of one post, the later one wins: its draft
/// is published and the other is not.
pub proof fn law_last_publish_wins(
    s0: DbView,
    s1: DbView,
    s2: DbView,
    d1: usize,
    d2: usize,
    r1: Result<bool, StoreError>,
    r2: Result<bool, StoreError>,
)
    requires
        s0.wf(),
        d1 < s0.tables.drafts.len(),
        d2 < s0.tables.drafts.len(),
        d1 != d2,
        s0.tables.drafts[d1 as int].post == s0.tables.drafts[d2 as int].post,
        publish_outcome(s0, s1, d1, r1),
        publish_outcome(s1, s2, d2, r2),
    ensures
        r1 == Ok::<bool, StoreError>(true),
        r2 == Ok::<bool, StoreError>(true),
        s2.tables.drafts[d2 as int].published,
        !s2.tables.drafts[d1 as int].published,
{
    assert(r1 is Ok);
    assert(s1.tables.drafts.len() == s0.tables.drafts.len());
    assert(r2 is Ok);
    assert(s1.tables.drafts[d1 as int].post == s0.tables.drafts[d1 as int].post);
    assert(s1.tables.drafts[d2 as int].post == s0.tables.drafts[d2 as int].post);
}

} // verus!
