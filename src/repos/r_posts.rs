use vstd::prelude::*;

use crate::db::nova_db::{
    any_selected, is_newest, lemma_draft_appended, lemma_flags_only, newer, same_people, selects,
    with_flag, with_post_unpublished, DraftFilter, DraftRow, NovaDB, PostRow, Tables, TablesView,
};
use crate::errors::StoreError;
use crate::models::meta::{Duplicate, InsertMetaArgs, Timestamp};
use crate::models::post::{post_created, post_listed, post_newer, Post, PostHydrated, PostVersion};
use crate::repos::r_meta::MetaRepo;

verus! {

/// With keys `keys`, position `a` comes before position `b`: a larger key,
/// or an equal key and a later position.
pub open spec fn key_before(keys: Seq<Timestamp>, a: int, b: int) -> bool {
    keys[a] > keys[b] || (keys[a] == keys[b] && a > b)
}

/// `perm` lists every position of `keys` once, largest key first.
pub open spec fn orders_newest_first(keys: Seq<Timestamp>, perm: Seq<usize>) -> bool {
    &&& perm.len() == keys.len()
    &&& forall|i: int| 0 <= i < perm.len() ==> #[trigger] perm[i] < keys.len()
    &&& forall|x: usize| x < keys.len() ==> #[trigger] perm.contains(x)
    &&& forall|i: int, j: int|
        #![trigger perm[i], perm[j]]
        0 <= i < j < perm.len() ==> key_before(keys, perm[i] as int, perm[j] as int)
}

/// `r` lists the drafts that `f` selects, each once, newest first.
pub open spec fn lists_newest_first(r: Seq<PostVersion>, t: TablesView, f: DraftFilter) -> bool {
    &&& forall|i: int|
        0 <= i < r.len() ==> #[trigger] r[i].describes(t, r[i].draft_id as int) && selects(
            f,
            t.drafts[r[i].draft_id as int],
        )
    &&& forall|d: usize|
        d < t.drafts.len() && #[trigger] selects(f, t.drafts[d as int]) ==> exists|i: int|
            0 <= i < r.len() && #[trigger] r[i].draft_id == d
    &&& forall|i: int, j: int|
        #![trigger r[i], r[j]]
        0 <= i < j < r.len() ==> newer(t.drafts, r[i].draft_id as int, r[j].draft_id as int)
}

/// The first `j + 1` entries of two listings of the same drafts, newest
/// first, name the same drafts.
proof fn lemma_listing_prefix(
    l1: Seq<PostVersion>,
    l2: Seq<PostVersion>,
    t: TablesView,
    f: DraftFilter,
    j: int,
)
    requires
        lists_newest_first(l1, t, f),
        lists_newest_first(l2, t, f),
        j < l1.len(),
        j < l2.len(),
    ensures
        forall|i: int| 0 <= i <= j ==> #[trigger] l1[i].draft_id == l2[i].draft_id,
    decreases j + 1,
{
    if j >= 0 {
        lemma_listing_prefix(l1, l2, t, f, j - 1);
        let a = l1[j].draft_id;
        let b = l2[j].draft_id;
        if a != b {
            assert(l1[j].describes(t, a as int));
            assert(l2[j].describes(t, b as int));
            assert(selects(f, t.drafts[a as int]));
            assert(selects(f, t.drafts[b as int]));
            let k = choose|k: int| 0 <= k < l2.len() && #[trigger] l2[k].draft_id == a;
            let m = choose|m: int| 0 <= m < l1.len() && #[trigger] l1[m].draft_id == b;
            if k < j {
                assert(l1[k].draft_id == l2[k].draft_id);
                assert(newer(t.drafts, l1[k].draft_id as int, l1[j].draft_id as int));
            }
            if m < j {
                assert(l1[m].draft_id == l2[m].draft_id);
                assert(newer(t.drafts, l2[m].draft_id as int, l2[j].draft_id as int));
            }
            assert(newer(t.drafts, l2[j].draft_id as int, l2[k].draft_id as int));
            assert(newer(t.drafts, l1[j].draft_id as int, l1[m].draft_id as int));
        }
    }
}

/// Two listings of the same drafts, newest first, are equal.
pub proof fn lemma_listing_unique(
    l1: Seq<PostVersion>,
    l2: Seq<PostVersion>,
    t: TablesView,
    f: DraftFilter,
)
    requires
        lists_newest_first(l1, t, f),
        lists_newest_first(l2, t, f),
    ensures
        l1 == l2,
{
    let n = if l1.len() < l2.len() {
        l1.len()
    } else {
        l2.len()
    };
    lemma_listing_prefix(l1, l2, t, f, n - 1);
    if l1.len() < l2.len() {
        let x = l2[n as int].draft_id;
        assert(l2[n as int].describes(t, x as int));
        assert(selects(f, t.drafts[x as int]));
        let k = choose|k: int| 0 <= k < l1.len() && #[trigger] l1[k].draft_id == x;
        assert(l1[k].draft_id == l2[k].draft_id);
        assert(newer(t.drafts, l2[k].draft_id as int, l2[n as int].draft_id as int));
    }
    if l2.len() < l1.len() {
        let x = l1[n as int].draft_id;
        assert(l1[n as int].describes(t, x as int));
        assert(selects(f, t.drafts[x as int]));
        let k = choose|k: int| 0 <= k < l2.len() && #[trigger] l2[k].draft_id == x;
        assert(l1[k].draft_id == l2[k].draft_id);
        assert(newer(t.drafts, l1[k].draft_id as int, l1[n as int].draft_id as int));
    }
    assert forall|i: int| 0 <= i < l1.len() implies l1[i] == l2[i] by {
        assert(l1[i].draft_id == l2[i].draft_id);
        assert(l1[i].describes(t, l1[i].draft_id as int));
        assert(l2[i].describes(t, l2[i].draft_id as int));
    }
    assert(l1 =~= l2);
}

/// The positions of `keys`, largest key first; among equal keys the later
/// position first.
fn newest_first(keys: &Vec<Timestamp>) -> (perm: Vec<usize>)
    ensures
        orders_newest_first(keys@, perm@),
{
    let mut perm: Vec<usize> = Vec::new();
    let mut k: usize = 0;
    while k < keys.len()
        invariant
            k <= keys.len(),
            perm.len() == k,
            forall|i: int| 0 <= i < perm.len() ==> #[trigger] perm@[i] < k,
            forall|x: usize| x < k ==> #[trigger] perm@.contains(x),
            forall|i: int, j: int|
                #![trigger perm@[i], perm@[j]]
                0 <= i < j < perm.len() ==> key_before(keys@, perm@[i] as int, perm@[j] as int),
        decreases keys.len() - k,
    {
        let key = keys[k];
        let mut pos: usize = 0;
        while pos < perm.len() && keys[perm[pos]] > key
            invariant
                pos <= perm.len(),
                perm.len() == k,
                k < keys.len(),
                key == keys@[k as int],
                forall|i: int| 0 <= i < perm.len() ==> #[trigger] perm@[i] < k,
                forall|q: int| 0 <= q < pos ==> keys@[#[trigger] perm@[q] as int] > key,
            decreases perm.len() - pos,
        {
            pos = pos + 1;
        }
        let ghost prev = perm@;
        perm.insert(pos, k);
        proof {
            let cur = perm@;
            assert(cur == prev.insert(pos as int, k));
            assert forall|i: int| 0 <= i < cur.len() implies #[trigger] cur[i] < k + 1 by {
                if i < pos {
                    assert(cur[i] == prev[i]);
                } else if i > pos {
                    assert(cur[i] == prev[i - 1]);
                }
            }
            assert forall|x: usize| x < k + 1 implies #[trigger] cur.contains(x) by {
                if x == k {
                    assert(cur[pos as int] == x);
                } else {
                    assert(prev.contains(x));
                    let i = choose|i: int| 0 <= i < prev.len() && #[trigger] prev[i] == x;
                    if i < pos {
                        assert(cur[i] == x);
                    } else {
                        assert(cur[i + 1] == x);
                    }
                }
            }
            assert forall|i: int, j: int|
                #![trigger cur[i], cur[j]]
                0 <= i < j < cur.len() implies key_before(keys@, cur[i] as int, cur[j] as int) by {
                if j < pos {
                    assert(cur[i] == prev[i] && cur[j] == prev[j]);
                } else if j == pos {
                    assert(cur[i] == prev[i]);
                    assert(keys@[prev[i] as int] > key);
                } else if i == pos {
                    assert(cur[j] == prev[j - 1]);
                    assert(prev[pos as int] < k);
                    if j - 1 > pos {
                        assert(key_before(keys@, prev[pos as int] as int, prev[j - 1] as int));
                    }
                    assert(keys@[prev[j - 1] as int] <= key);
                } else if i < pos {
                    assert(cur[i] == prev[i] && cur[j] == prev[j - 1]);
                } else {
                    assert(cur[i] == prev[i - 1] && cur[j] == prev[j - 1]);
                }
            }
        }
        k = k + 1;
    }
    perm
}

/// Whether `f` selects the row `r`.
fn row_selected(f: DraftFilter, r: &DraftRow) -> (b: bool)
    ensures
        b == selects(f, *r),
{
    match f {
        DraftFilter::OfPost(p) => r.post == p,
        DraftFilter::UnpublishedOfPost(p) => r.post == p && !r.published,
        DraftFilter::Published => r.published,
        DraftFilter::Unpublished => !r.published,
        DraftFilter::PublishedOfPost(p) => r.post == p && r.published,
    }
}

/// The ids of the drafts that `f` selects, in increasing order.
fn filter_drafts(t: &Tables, f: DraftFilter) -> (ids: Vec<usize>)
    ensures
        forall|i: int|
            0 <= i < ids.len() ==> #[trigger] ids@[i] < t@.drafts.len() && selects(
                f,
                t@.drafts[ids@[i] as int],
            ),
        forall|i: int, j: int| 0 <= i < j < ids.len() ==> #[trigger] ids@[i] < #[trigger] ids@[j],
        forall|d: usize|
            d < t@.drafts.len() && #[trigger] selects(f, t@.drafts[d as int]) ==> ids@.contains(d),
{
    let mut ids: Vec<usize> = Vec::new();
    let mut k: usize = 0;
    while k < t.drafts.len()
        invariant
            k <= t@.drafts.len(),
            forall|i: int|
                0 <= i < ids.len() ==> #[trigger] ids@[i] < k && selects(
                    f,
                    t@.drafts[ids@[i] as int],
                ),
            forall|i: int, j: int|
                0 <= i < j < ids.len() ==> #[trigger] ids@[i] < #[trigger] ids@[j],
            forall|d: usize| d < k && #[trigger] selects(f, t@.drafts[d as int]) ==> ids@.contains(d),
        decreases t@.drafts.len() - k,
    {
        let ghost prev = ids@;
        if row_selected(f, &t.drafts[k]) {
            ids.push(k);
            assert(ids@[ids.len() - 1] == k);
            assert forall|d: usize| d < k + 1 && #[trigger] selects(f, t@.drafts[d as int]) implies ids@.contains(d) by {
                if d < k {
                    assert(prev.contains(d));
                    let i = choose|i: int| 0 <= i < prev.len() && prev[i] == d;
                    assert(ids@[i] == d);
                }
            }
        }
        k = k + 1;
    }
    ids
}

/// The newest draft that `f` selects, if any.
fn newest_draft(t: &Tables, f: DraftFilter) -> (r: Option<usize>)
    ensures
        match r {
            Some(d) => is_newest(t@.drafts, f, d as int),
            None => !any_selected(t@.drafts, f),
        },
{
    let mut best: Option<usize> = None;
    let mut k: usize = 0;
    while k < t.drafts.len()
        invariant
            k <= t@.drafts.len(),
            match best {
                Some(b) => b < k && selects(f, t@.drafts[b as int]) && forall|e: int|
                    0 <= e < k && e != b && #[trigger] selects(f, t@.drafts[e]) ==> newer(
                        t@.drafts,
                        b as int,
                        e,
                    ),
                None => forall|e: int| 0 <= e < k ==> !#[trigger] selects(f, t@.drafts[e]),
            },
        decreases t@.drafts.len() - k,
    {
        if row_selected(f, &t.drafts[k]) {
            match best {
                None => {
                    best = Some(k);
                },
                Some(b) => {
                    if t.drafts[k].at >= t.drafts[b].at {
                        best = Some(k);
                    }
                },
            }
        }
        k = k + 1;
    }
    best
}

/// Draft `d` with its audit record.
fn hydrate_draft(t: &Tables, d: usize) -> (r: PostVersion)
    requires
        t@.wf(),
        d < t@.drafts.len(),
    ensures
        r.describes(t@, d as int),
{
    let row = &t.drafts[d];
    assert(t@.drafts[d as int].post < t@.posts.len());
    assert(t@.posts[t@.drafts[d as int].post as int].meta < t@.metas.len());
    PostVersion {
        id: row.post,
        draft_id: d,
        title: row.title.duplicate(),
        markdown: row.markdown.duplicate(),
        author: row.author.duplicate(),
        published: row.published,
        at: row.at,
        image: row.image.duplicate(),
        visits: row.visits,
        meta: t.metas[row.meta].duplicate(),
    }
}

/// The drafts that `f` selects, newest first.
fn list_drafts(t: &Tables, f: DraftFilter) -> (r: Vec<PostVersion>)
    requires
        t@.wf(),
    ensures
        lists_newest_first(r@, t@, f),
{
    let ids = filter_drafts(t, f);
    let mut keys: Vec<Timestamp> = Vec::new();
    let mut k: usize = 0;
    while k < ids.len()
        invariant
            k <= ids.len(),
            keys.len() == k,
            forall|i: int| 0 <= i < ids.len() ==> #[trigger] ids@[i] < t@.drafts.len(),
            forall|i: int| 0 <= i < k ==> #[trigger] keys@[i] == t@.drafts[ids@[i] as int].at,
        decreases ids.len() - k,
    {
        keys.push(t.drafts[ids[k]].at);
        k = k + 1;
    }
    let perm = newest_first(&keys);
    let mut r: Vec<PostVersion> = Vec::new();
    let mut i: usize = 0;
    while i < perm.len()
        invariant
            t@.wf(),
            i <= perm.len(),
            r.len() == i,
            perm.len() == ids.len(),
            keys.len() == ids.len(),
            forall|j: int| 0 <= j < perm.len() ==> #[trigger] perm@[j] < ids.len(),
            forall|j: int| 0 <= j < ids.len() ==> #[trigger] ids@[j] < t@.drafts.len(),
            forall|j: int|
                0 <= j < i ==> #[trigger] r@[j].describes(t@, ids@[perm@[j] as int] as int),
        decreases perm.len() - i,
    {
        r.push(hydrate_draft(t, ids[perm[i]]));
        i = i + 1;
    }
    proof {
        assert forall|i: int| 0 <= i < r.len() implies #[trigger] r@[i].describes(
            t@,
            r@[i].draft_id as int,
        ) && selects(f, t@.drafts[r@[i].draft_id as int]) by {
            assert(r@[i].describes(t@, ids@[perm@[i] as int] as int));
            assert(perm@[i] < ids.len());
        }
        assert forall|d: usize| d < t@.drafts.len() && #[trigger] selects(f, t@.drafts[d as int]) implies exists|
            i: int,
        | 0 <= i < r.len() && #[trigger] r@[i].draft_id == d by {
            assert(ids@.contains(d));
            let x = choose|x: int| 0 <= x < ids.len() && #[trigger] ids@[x] == d;
            assert(perm@.contains(x as usize));
            let i = choose|i: int| 0 <= i < perm.len() && #[trigger] perm@[i] == x;
            assert(r@[i].describes(t@, ids@[perm@[i] as int] as int));
        }
        assert forall|i: int, j: int|
            #![trigger r@[i], r@[j]]
            0 <= i < j < r.len() implies newer(
                t@.drafts,
                r@[i].draft_id as int,
                r@[j].draft_id as int,
            ) by {
            assert(r@[i].describes(t@, ids@[perm@[i] as int] as int));
            assert(r@[j].describes(t@, ids@[perm@[j] as int] as int));
            assert(key_before(keys@, perm@[i] as int, perm@[j] as int));
            assert(keys@[perm@[i] as int] == t@.drafts[ids@[perm@[i] as int] as int].at);
            assert(keys@[perm@[j] as int] == t@.drafts[ids@[perm@[j] as int] as int].at);
            if perm@[i] > perm@[j] {
                assert(ids@[perm@[j] as int] < ids@[perm@[i] as int]);
            }
        }
    }
    r
}

} // verus!

verus! {

/// The row of a new draft of post `post`, created at `at`; it carries the
/// post's audit record.
pub open spec fn new_draft_row(
    t: TablesView,
    post: int,
    title: String,
    markdown: String,
    author: String,
    published: bool,
    image: String,
    at: Timestamp,
) -> DraftRow {
    DraftRow {
        post: post as usize,
        author,
        title,
        markdown,
        image,
        published,
        at,
        visits: 0,
        meta: t.posts[post].meta,
    }
}

/// The time a new draft of post `p` is stamped with when the clock reads
/// `now`: `now`, or the latest time among the post's drafts if that is
/// later, so that the new draft is always the post's newest.
pub open spec fn stamp_time(drafts: Seq<DraftRow>, p: int, now: Timestamp) -> Timestamp
    decreases drafts.len(),
{
    if drafts.len() == 0 {
        now
    } else {
        let rest = stamp_time(drafts.drop_last(), p, now);
        if drafts.last().post == p && drafts.last().at > rest {
            drafts.last().at
        } else {
            rest
        }
    }
}

/// The stamp is no earlier than `now` nor than any draft of the post.
pub proof fn lemma_stamp_time_bounds(drafts: Seq<DraftRow>, p: int, now: Timestamp)
    ensures
        stamp_time(drafts, p, now) >= now,
        forall|e: int|
            0 <= e < drafts.len() && #[trigger] drafts[e].post == p ==> drafts[e].at <= stamp_time(
                drafts,
                p,
                now,
            ),
    decreases drafts.len(),
{
    if drafts.len() > 0 {
        let rest = drafts.drop_last();
        lemma_stamp_time_bounds(rest, p, now);
        assert forall|e: int|
            0 <= e < drafts.len() && #[trigger] drafts[e].post == p implies drafts[e].at
                <= stamp_time(drafts, p, now) by {
            if e < drafts.len() - 1 {
                assert(rest[e] == drafts[e]);
            }
        }
    }
}

/// Post `p` has drafts and none of them is published.
pub open spec fn is_unpublished_post(t: TablesView, p: int) -> bool {
    &&& 0 <= p < t.posts.len()
    &&& any_selected(t.drafts, DraftFilter::OfPost(p as usize))
    &&& !any_selected(t.drafts, DraftFilter::PublishedOfPost(p as usize))
}

/// Post `p` with its audit record.
fn hydrate_post(t: &Tables, p: usize) -> (r: Post)
    requires
        t@.wf(),
        p < t@.posts.len(),
    ensures
        r.describes(t@, p as int),
{
    assert(t@.posts[p as int].meta < t@.metas.len());
    Post { id: p, meta: t.metas[t.posts[p].meta].duplicate() }
}

/// The posts repository: posts and their drafts.
#[derive(Debug, Clone, Copy)]
pub struct PostsRepo {
    meta: MetaRepo,
}

impl PostsRepo {
    pub fn new() -> (r: PostsRepo) {
        PostsRepo { meta: MetaRepo::new() }
    }

    /// Creates a post, with a fresh audit record created by `created_by` at
    /// `now`, inside the open unit of work. Fails when none is open.
    pub fn insert_post(&self, db: &mut NovaDB, created_by: String, now: Timestamp) -> (r: Result<
        Post,
        StoreError,
    >)
        requires
            old(db)@.wf(),
        ensures
            final(db)@.wf(),
            match r {
                Ok(post) => {
                    &&& old(db)@.in_tran()
                    &&& final(db)@.saved == old(db)@.saved
                    &&& post.id == old(db)@.tables.posts.len()
                    &&& post.meta.is_fresh(old(db)@.tables.metas.len() as int, created_by, now)
                    &&& final(db)@.tables.metas == old(db)@.tables.metas.push(post.meta)
                    &&& final(db)@.tables.posts == old(db)@.tables.posts.push(
                        PostRow { meta: post.meta.id },
                    )
                    &&& final(db)@.tables.drafts == old(db)@.tables.drafts
                    &&& same_people(old(db)@.tables, final(db)@.tables)
                    &&& post.describes(final(db)@.tables, post.id as int)
                },
                Err(e) => !old(db)@.in_tran() && e == StoreError::StoreFailure && final(db)@ == old(
                    db,
                )@,
            },
    {
        if db.saved.is_none() {
            return Err(StoreError::StoreFailure);
        }
        let meta = self.meta.insert_meta(db, InsertMetaArgs { created_by }, now);
        let id = db.tables.posts.len();
        let ghost mid = db@.tables;
        db.tables.posts.push(PostRow { meta: meta.id });
        proof {
            let t = db@.tables;
            assert forall|p: int| 0 <= p < t.posts.len() implies (#[trigger] t.posts[p]).meta
                < t.metas.len() by {
                if p < mid.posts.len() {
                    assert(t.posts[p] == mid.posts[p]);
                }
            }
            assert forall|d: int| 0 <= d < t.drafts.len() implies {
                &&& (#[trigger] t.drafts[d]).post < t.posts.len()
                &&& t.drafts[d].meta == t.posts[t.drafts[d].post as int].meta
            } by {
                assert(t.drafts[d] == mid.drafts[d]);
                assert(t.posts[t.drafts[d].post as int] == mid.posts[t.drafts[d].post as int]);
            }
            assert(t.metas[meta.id as int] == meta);
        }
        Ok(Post { id, meta })
    }

    /// Post `post_id`; `NotFound` when there is none.
    pub fn select_post(&self, db: &NovaDB, post_id: usize) -> (r: Result<Post, StoreError>)
        requires
            db@.wf(),
        ensures
            match r {
                Ok(post) => post.describes(db@.tables, post_id as int),
                Err(e) => post_id >= db@.tables.posts.len() && e == StoreError::NotFound,
            },
    {
        if post_id < db.tables.posts.len() {
            Ok(hydrate_post(&db.tables, post_id))
        } else {
            Err(StoreError::NotFound)
        }
    }

    /// Every post with the title of its newest draft, the newest post first.
    pub fn select_posts(&self, db: &NovaDB) -> (r: Vec<PostHydrated>)
        requires
            db@.wf(),
        ensures
            r@.len() == db@.tables.posts.len(),
            forall|i: int| 0 <= i < r@.len() ==> #[trigger] r@[i].describes(db@.tables, r@[i].id as int),
            forall|p: usize| p < db@.tables.posts.len() ==> #[trigger] post_listed(r@, p as int),
            forall|i: int, j: int|
                #![trigger r@[i], r@[j]]
                0 <= i < j < r@.len() ==> post_newer(db@.tables, r@[i].id as int, r@[j].id as int),
    {
        let t = &db.tables;
        let mut keys: Vec<Timestamp> = Vec::new();
        let mut k: usize = 0;
        while k < t.posts.len()
            invariant
                t@.wf(),
                k <= t@.posts.len(),
                keys.len() == k,
                forall|i: int| 0 <= i < k ==> #[trigger] keys@[i] == post_created(t@, i),
            decreases t@.posts.len() - k,
        {
            assert(t@.posts[k as int].meta < t@.metas.len());
            keys.push(t.metas[t.posts[k].meta].created_on);
            k = k + 1;
        }
        let perm = newest_first(&keys);
        let mut r: Vec<PostHydrated> = Vec::new();
        let mut i: usize = 0;
        while i < perm.len()
            invariant
                t@.wf(),
                i <= perm.len(),
                r.len() == i,
                perm.len() == t@.posts.len(),
                forall|j: int| 0 <= j < perm.len() ==> #[trigger] perm@[j] < t@.posts.len(),
                forall|j: int| 0 <= j < i ==> #[trigger] r@[j].describes(t@, perm@[j] as int),
            decreases perm.len() - i,
        {
            let p = perm[i];
            let title = match newest_draft(t, DraftFilter::OfPost(p)) {
                Some(d) => Some(t.drafts[d].title.duplicate()),
                None => None,
            };
            assert(t@.posts[p as int].meta < t@.metas.len());
            r.push(
                PostHydrated { id: p, working_title: title, meta: t.metas[t.posts[p].meta].duplicate() },
            );
            i = i + 1;
        }
        proof {
            assert forall|i: int| 0 <= i < r@.len() implies #[trigger] r@[i].describes(
                db@.tables,
                r@[i].id as int,
            ) by {
                assert(r@[i].describes(t@, perm@[i] as int));
            }
            assert forall|p: usize| p < t@.posts.len() implies #[trigger] post_listed(r@, p as int) by {
                assert(perm@.contains(p));
                let i = choose|i: int| 0 <= i < perm@.len() && perm@[i] == p;
                assert(r@[i].describes(t@, perm@[i] as int));
            }
            assert forall|i: int, j: int|
                #![trigger r@[i], r@[j]]
                0 <= i < j < r@.len() implies post_newer(t@, r@[i].id as int, r@[j].id as int) by {
                assert(r@[i].describes(t@, perm@[i] as int));
                assert(r@[j].describes(t@, perm@[j] as int));
                assert(key_before(keys@, perm@[i] as int, perm@[j] as int));
            }
        }
        r
    }

    /// Draft `draft_id`; `NotFound` when there is none.
    pub fn select_draft(&self, db: &NovaDB, draft_id: usize) -> (r: Result<PostVersion, StoreError>)
        requires
            db@.wf(),
        ensures
            match r {
                Ok(v) => v.describes(db@.tables, draft_id as int),
                Err(e) => draft_id >= db@.tables.drafts.len() && e == StoreError::NotFound,
            },
    {
        if draft_id < db.tables.drafts.len() {
            Ok(hydrate_draft(&db.tables, draft_id))
        } else {
            Err(StoreError::NotFound)
        }
    }

    /// The version history of post `post_id`, newest first.
    pub fn select_post_drafts(&self, db: &NovaDB, post_id: usize) -> (r: Vec<PostVersion>)
        requires
            db@.wf(),
        ensures
            lists_newest_first(r@, db@.tables, DraftFilter::OfPost(post_id)),
    {
        list_drafts(&db.tables, DraftFilter::OfPost(post_id))
    }

    /// Appends a draft of post `post_id` created at `now`; it carries the
    /// post's audit record. `NotFound` when there is no such post.
    pub fn create_draft(
        &self,
        db: &mut NovaDB,
        post_id: usize,
        title: String,
        markdown: String,
        person_id: String,
        published: bool,
        image: String,
        now: Timestamp,
    ) -> (r: Result<PostVersion, StoreError>)
        requires
            old(db)@.wf(),
        ensures
            final(db)@.wf(),
            final(db)@.saved == old(db)@.saved,
            final(db)@.tables.metas == old(db)@.tables.metas,
            final(db)@.tables.posts == old(db)@.tables.posts,
            same_people(old(db)@.tables, final(db)@.tables),
            match r {
                Ok(v) => {
                    &&& post_id < old(db)@.tables.posts.len()
                    &&& final(db)@.tables.drafts == old(db)@.tables.drafts.push(
                        new_draft_row(
                            old(db)@.tables,
                            post_id as int,
                            title,
                            markdown,
                            person_id,
                            published,
                            image,
                            now,
                        ),
                    )
                    &&& v.describes(final(db)@.tables, old(db)@.tables.drafts.len() as int)
                },
                Err(e) => post_id >= old(db)@.tables.posts.len() && e == StoreError::NotFound
                    && final(db)@ == old(db)@,
            },
    {
        if post_id >= db.tables.posts.len() {
            return Err(StoreError::NotFound);
        }
        let ghost before = db@.tables;
        let row = DraftRow {
            post: post_id,
            author: person_id,
            title,
            markdown,
            image,
            published,
            at: now,
            visits: 0,
            meta: db.tables.posts[post_id].meta,
        };
        let d = db.tables.drafts.len();
        db.tables.drafts.push(row);
        proof {
            lemma_draft_appended(before, db@.tables, db@.tables.drafts[d as int]);
        }
        Ok(hydrate_draft(&db.tables, d))
    }

    /// The time a new draft of post `post_id` is stamped with when the clock
    /// reads `now`.
    pub fn draft_stamp(&self, db: &NovaDB, post_id: usize, now: Timestamp) -> (r: Timestamp)
        ensures
            r == stamp_time(db@.tables.drafts, post_id as int, now),
    {
        let t = &db.tables;
        let mut m = now;
        let mut k: usize = 0;
        while k < t.drafts.len()
            invariant
                k <= t@.drafts.len(),
                m == stamp_time(t@.drafts.subrange(0, k as int), post_id as int, now),
            decreases t@.drafts.len() - k,
        {
            assert(t@.drafts.subrange(0, k + 1).drop_last() =~= t@.drafts.subrange(0, k as int));
            if t.drafts[k].post == post_id && t.drafts[k].at > m {
                m = t.drafts[k].at;
            }
            k = k + 1;
        }
        assert(t@.drafts.subrange(0, k as int) =~= t@.drafts);
        m
    }

    /// Every unpublished draft, newest first.
    pub fn select_drafted_posts(&self, db: &NovaDB) -> (r: Vec<PostVersion>)
        requires
            db@.wf(),
        ensures
            lists_newest_first(r@, db@.tables, DraftFilter::Unpublished),
    {
        list_drafts(&db.tables, DraftFilter::Unpublished)
    }

    /// The current draft of post `post_id`: its newest unpublished draft.
    /// `NotFound` when the post has no unpublished draft.
    pub fn select_current_draft(&self, db: &NovaDB, post_id: usize) -> (r: Result<
        PostVersion,
        StoreError,
    >)
        requires
            db@.wf(),
        ensures
            match r {
                Ok(v) => is_newest(
                    db@.tables.drafts,
                    DraftFilter::UnpublishedOfPost(post_id),
                    v.draft_id as int,
                ) && v.describes(db@.tables, v.draft_id as int),
                Err(e) => !any_selected(db@.tables.drafts, DraftFilter::UnpublishedOfPost(post_id))
                    && e == StoreError::NotFound,
            },
    {
        match newest_draft(&db.tables, DraftFilter::UnpublishedOfPost(post_id)) {
            Some(d) => Ok(hydrate_draft(&db.tables, d)),
            None => Err(StoreError::NotFound),
        }
    }

    /// Marks draft `draft_id` published, inside the open unit of work.
    /// `StoreFailure` when no unit of work is open, `NotFound` when there is
    /// no such draft.
    pub fn publish_draft(&self, db: &mut NovaDB, draft_id: usize) -> (r: Result<
        PostVersion,
        StoreError,
    >)
        requires
            old(db)@.wf(),
        ensures
            final(db)@.wf(),
            final(db)@.saved == old(db)@.saved,
            final(db)@.tables.metas == old(db)@.tables.metas,
            final(db)@.tables.posts == old(db)@.tables.posts,
            same_people(old(db)@.tables, final(db)@.tables),
            match r {
                Ok(v) => {
                    &&& old(db)@.in_tran()
                    &&& draft_id < old(db)@.tables.drafts.len()
                    &&& final(db)@.tables.drafts == with_flag(
                        old(db)@.tables.drafts,
                        draft_id as int,
                        true,
                    )
                    &&& v.describes(final(db)@.tables, draft_id as int)
                },
                Err(e) => final(db)@ == old(db)@ && if old(db)@.in_tran() {
                    draft_id >= old(db)@.tables.drafts.len() && e == StoreError::NotFound
                } else {
                    e == StoreError::StoreFailure
                },
            },
    {
        if db.saved.is_none() {
            return Err(StoreError::StoreFailure);
        }
        self.set_flag(db, draft_id, true)
    }

    /// Sets the `published` flag of draft `draft_id`; `NotFound` when there
    /// is no such draft.
    fn set_flag(&self, db: &mut NovaDB, draft_id: usize, flag: bool) -> (r: Result<
        PostVersion,
        StoreError,
    >)
        requires
            old(db)@.wf(),
        ensures
            final(db)@.wf(),
            final(db)@.saved == old(db)@.saved,
            final(db)@.tables.metas == old(db)@.tables.metas,
            final(db)@.tables.posts == old(db)@.tables.posts,
            same_people(old(db)@.tables, final(db)@.tables),
            match r {
                Ok(v) => {
                    &&& draft_id < old(db)@.tables.drafts.len()
                    &&& final(db)@.tables.drafts == with_flag(
                        old(db)@.tables.drafts,
                        draft_id as int,
                        flag,
                    )
                    &&& v.describes(final(db)@.tables, draft_id as int)
                },
                Err(e) => final(db)@ == old(db)@ && draft_id >= old(db)@.tables.drafts.len() && e
                    == StoreError::NotFound,
            },
    {
        if draft_id >= db.tables.drafts.len() {
            return Err(StoreError::NotFound);
        }
        let ghost before = db@.tables;
        db.tables.set_published(draft_id, flag);
        proof {
            lemma_flags_only(before, db@.tables);
        }
        Ok(hydrate_draft(&db.tables, draft_id))
    }

    /// Marks draft `draft_id` unpublished; `NotFound` when there is no such
    /// draft.
    pub fn unpublish_draft(&self, db: &mut NovaDB, draft_id: usize) -> (r: Result<
        PostVersion,
        StoreError,
    >)
        requires
            old(db)@.wf(),
        ensures
            final(db)@.wf(),
            final(db)@.saved == old(db)@.saved,
            final(db)@.tables.metas == old(db)@.tables.metas,
            final(db)@.tables.posts == old(db)@.tables.posts,
            same_people(old(db)@.tables, final(db)@.tables),
            match r {
                Ok(v) => {
                    &&& draft_id < old(db)@.tables.drafts.len()
                    &&& final(db)@.tables.drafts == with_flag(
                        old(db)@.tables.drafts,
                        draft_id as int,
                        false,
                    )
                    &&& v.describes(final(db)@.tables, draft_id as int)
                },
                Err(e) => final(db)@ == old(db)@ && draft_id >= old(db)@.tables.drafts.len() && e
                    == StoreError::NotFound,
            },
    {
        self.set_flag(db, draft_id, false)
    }

    /// Every published draft, newest first.
    pub fn select_published_posts(&self, db: &NovaDB) -> (r: Vec<PostVersion>)
        requires
            db@.wf(),
        ensures
            lists_newest_first(r@, db@.tables, DraftFilter::Published),
    {
        list_drafts(&db.tables, DraftFilter::Published)
    }

    /// Marks every draft of post `post_id` unpublished, inside the open unit
    /// of work; `StoreFailure` when none is open.
    pub fn unpublish_drafts_for_post_id(&self, db: &mut NovaDB, post_id: usize) -> (r: Result<
        (),
        StoreError,
    >)
        requires
            old(db)@.wf(),
        ensures
            final(db)@.wf(),
            final(db)@.saved == old(db)@.saved,
            final(db)@.tables.metas == old(db)@.tables.metas,
            final(db)@.tables.posts == old(db)@.tables.posts,
            same_people(old(db)@.tables, final(db)@.tables),
            match r {
                Ok(()) => old(db)@.in_tran() && final(db)@.tables.drafts == with_post_unpublished(
                    old(db)@.tables.drafts,
                    post_id as int,
                ),
                Err(e) => !old(db)@.in_tran() && final(db)@ == old(db)@ && e
                    == StoreError::StoreFailure,
            },
    {
        if db.saved.is_none() {
            return Err(StoreError::StoreFailure);
        }
        let ghost before = db@.tables;
        let n = db.tables.drafts.len();
        let mut k: usize = 0;
        while k < n
            invariant
                n == before.drafts.len(),
                k <= n,
                db@.saved == old(db)@.saved,
                db@.tables.metas == before.metas,
                db@.tables.posts == before.posts,
                same_people(before, db@.tables),
                db@.tables.drafts.len() == n,
                forall|i: int|
                    0 <= i < k ==> #[trigger] db@.tables.drafts[i] == with_post_unpublished(
                        before.drafts,
                        post_id as int,
                    )[i],
                forall|i: int| k <= i < n ==> #[trigger] db@.tables.drafts[i] == before.drafts[i],
            decreases n - k,
        {
            if db.tables.drafts[k].post == post_id {
                db.tables.set_published(k, false);
            }
            k = k + 1;
        }
        proof {
            assert(db@.tables.drafts =~= with_post_unpublished(before.drafts, post_id as int));
            lemma_flags_only(before, db@.tables);
        }
        Ok(())
    }

    /// The post that draft `draft_id` belongs to; `NotFound` when there is
    /// no such draft.
    pub fn select_post_id_for_draft_id(&self, db: &NovaDB, draft_id: usize) -> (r: Result<
        usize,
        StoreError,
    >)
        requires
            db@.wf(),
        ensures
            match r {
                Ok(p) => draft_id < db@.tables.drafts.len() && p == db@.tables.drafts[draft_id as int].post,
                Err(e) => draft_id >= db@.tables.drafts.len() && e == StoreError::NotFound,
            },
    {
        if draft_id < db.tables.drafts.len() {
            Ok(db.tables.drafts[draft_id].post)
        } else {
            Err(StoreError::NotFound)
        }
    }

    /// The posts that have drafts but no published one, in increasing order.
    pub fn select_unpublished_post_ids(&self, db: &NovaDB) -> (r: Vec<usize>)
        requires
            db@.wf(),
        ensures
            forall|i: int, j: int| 0 <= i < j < r@.len() ==> #[trigger] r@[i] < #[trigger] r@[j],
            forall|i: int| 0 <= i < r@.len() ==> is_unpublished_post(db@.tables, #[trigger] r@[i] as int),
            forall|p: usize| #[trigger] is_unpublished_post(db@.tables, p as int) ==> r@.contains(p),
    {
        let t = &db.tables;
        let mut r: Vec<usize> = Vec::new();
        let mut p: usize = 0;
        while p < t.posts.len()
            invariant
                p <= t@.posts.len(),
                forall|i: int, j: int| 0 <= i < j < r@.len() ==> #[trigger] r@[i] < #[trigger] r@[j],
                forall|i: int| 0 <= i < r@.len() ==> #[trigger] r@[i] < p && is_unpublished_post(t@, r@[i] as int),
                forall|q: usize| q < p && #[trigger] is_unpublished_post(t@, q as int) ==> r@.contains(q),
            decreases t@.posts.len() - p,
        {
            let ghost prev = r@;
            let drafted = newest_draft(t, DraftFilter::OfPost(p)).is_some();
            let published = newest_draft(t, DraftFilter::PublishedOfPost(p)).is_some();
            if drafted && !published {
                r.push(p);
                assert(r@[r@.len() - 1] == p);
            }
            assert forall|q: usize| q < p + 1 && #[trigger] is_unpublished_post(t@, q as int) implies r@.contains(q) by {
                if q < p {
                    let i = choose|i: int| 0 <= i < prev.len() && prev[i] == q;
                    assert(r@[i] == q);
                }
            }
            p = p + 1;
        }
        r
    }
}

} // verus!
