use vstd::prelude::*;

use crate::errors::StoreError;
use crate::models::meta::{duplicate_all, Duplicate, Meta, Timestamp};

verus! {

/// A stored post: a handle on its audit record. Its content lives in its drafts.
#[derive(Debug, Clone)]
pub struct PostRow {
    pub meta: usize,
}

/// A stored draft: one content snapshot of a post.
#[derive(Debug, Clone)]
pub struct DraftRow {
    pub post: usize,
    pub author: String,
    pub title: String,
    pub markdown: String,
    pub image: String,
    pub published: bool,
    pub at: Timestamp,
    pub visits: u128,
    pub meta: usize,
}

/// A stored person.
#[derive(Debug, Clone)]
pub struct PersonRow {
    pub username: String,
    pub email: String,
    pub pass_hash: String,
    pub is_admin: bool,
    pub meta: usize,
}

/// A stored session (refresh) token. `person` is the reference of the
/// person it was issued to.
#[derive(Debug, Clone)]
pub struct TokenRow {
    pub person: String,
    pub signed_token: Option<String>,
    pub meta: usize,
}

impl Duplicate for PersonRow {
    fn duplicate(&self) -> (r: PersonRow) {
        PersonRow {
            username: self.username.duplicate(),
            email: self.email.duplicate(),
            pass_hash: self.pass_hash.duplicate(),
            is_admin: self.is_admin,
            meta: self.meta,
        }
    }
}

impl Duplicate for TokenRow {
    fn duplicate(&self) -> (r: TokenRow) {
        TokenRow {
            person: self.person.duplicate(),
            signed_token: self.signed_token.duplicate(),
            meta: self.meta,
        }
    }
}

impl Duplicate for PostRow {
    fn duplicate(&self) -> (r: PostRow) {
        PostRow { meta: self.meta }
    }
}

impl Duplicate for DraftRow {
    fn duplicate(&self) -> (r: DraftRow) {
        DraftRow {
            post: self.post,
            author: self.author.duplicate(),
            title: self.title.duplicate(),
            markdown: self.markdown.duplicate(),
            image: self.image.duplicate(),
            published: self.published,
            at: self.at,
            visits: self.visits,
            meta: self.meta,
        }
    }
}

/// The tables of the store. A record's id is its position in its table:
/// rows are only ever appended, never removed.
pub struct Tables {
    pub metas: Vec<Meta>,
    pub posts: Vec<PostRow>,
    pub drafts: Vec<DraftRow>,
    pub persons: Vec<PersonRow>,
    pub tokens: Vec<TokenRow>,
}

/// The contents of the tables.
pub struct TablesView {
    pub metas: Seq<Meta>,
    pub posts: Seq<PostRow>,
    pub drafts: Seq<DraftRow>,
    pub persons: Seq<PersonRow>,
    pub tokens: Seq<TokenRow>,
}

impl View for Tables {
    type V = TablesView;

    open spec fn view(&self) -> TablesView {
        TablesView {
            metas: self.metas@,
            posts: self.posts@,
            drafts: self.drafts@,
            persons: self.persons@,
            tokens: self.tokens@,
        }
    }
}

/// Draft `d` belongs to post `p`.
pub open spec fn draft_of(drafts: Seq<DraftRow>, d: int, p: int) -> bool {
    0 <= d < drafts.len() && drafts[d].post == p
}

/// No post has two published drafts.
pub open spec fn at_most_one_published(drafts: Seq<DraftRow>) -> bool {
    forall|i: int, j: int|
        0 <= i < drafts.len() && 0 <= j < drafts.len() && #[trigger] drafts[i].post
            == #[trigger] drafts[j].post && drafts[i].published && drafts[j].published ==> i == j
}

/// The drafts with the `published` flag of draft `d` set to `flag`.
pub open spec fn with_flag(drafts: Seq<DraftRow>, d: int, flag: bool) -> Seq<DraftRow> {
    drafts.update(d, DraftRow { published: flag, ..drafts[d] })
}

/// The drafts with every draft of post `p` unpublished.
pub open spec fn with_post_unpublished(drafts: Seq<DraftRow>, p: int) -> Seq<DraftRow> {
    drafts.map(
        |i: int, r: DraftRow|
            if r.post == p {
                DraftRow { published: false, ..r }
            } else {
                r
            },
    )
}

/// The drafts after publishing draft `d`: every sibling unpublished, `d` published.
pub open spec fn published_swap(drafts: Seq<DraftRow>, d: int) -> Seq<DraftRow> {
    with_flag(with_post_unpublished(drafts, drafts[d].post as int), d, true)
}

/// Draft `a` is newer than draft `b`: created later, or created at the same
/// instant and stored later.
pub open spec fn newer(drafts: Seq<DraftRow>, a: int, b: int) -> bool {
    drafts[a].at > drafts[b].at || (drafts[a].at == drafts[b].at && a > b)
}

/// Which drafts a query selects.
#[derive(Debug, Clone, Copy)]
pub enum DraftFilter {
    /// The drafts of one post.
    OfPost(usize),
    /// The unpublished drafts of one post.
    UnpublishedOfPost(usize),
    /// Every published draft.
    Published,
    /// Every unpublished draft.
    Unpublished,
    /// The published drafts of one post.
    PublishedOfPost(usize),
}

pub open spec fn selects(f: DraftFilter, r: DraftRow) -> bool {
    match f {
        DraftFilter::OfPost(p) => r.post == p,
        DraftFilter::UnpublishedOfPost(p) => r.post == p && !r.published,
        DraftFilter::Published => r.published,
        DraftFilter::Unpublished => !r.published,
        DraftFilter::PublishedOfPost(p) => r.post == p && r.published,
    }
}

/// Draft `d` is the newest of the drafts that `f` selects.
pub open spec fn is_newest(drafts: Seq<DraftRow>, f: DraftFilter, d: int) -> bool {
    &&& 0 <= d < drafts.len()
    &&& selects(f, drafts[d])
    &&& forall|e: int|
        0 <= e < drafts.len() && e != d && #[trigger] selects(f, drafts[e]) ==> newer(drafts, d, e)
}

/// Some draft is selected by `f`.
pub open spec fn any_selected(drafts: Seq<DraftRow>, f: DraftFilter) -> bool {
    exists|d: int| 0 <= d < drafts.len() && #[trigger] selects(f, drafts[d])
}

impl TablesView {
    /// Ids match positions and every reference points at an existing row;
    /// a draft carries the audit record of its post; no two persons share
    /// an email or a username.
    pub open spec fn wf(&self) -> bool {
        &&& forall|i: int|
            0 <= i < self.persons.len() ==> (#[trigger] self.persons[i]).meta < self.metas.len()
        &&& forall|i: int|
            0 <= i < self.tokens.len() ==> (#[trigger] self.tokens[i]).meta < self.metas.len()
        &&& forall|i: int, j: int|
            0 <= i < self.persons.len() && 0 <= j < self.persons.len() && (
            #[trigger] self.persons[i]).email@ == (#[trigger] self.persons[j]).email@ ==> i == j
        &&& forall|i: int, j: int|
            0 <= i < self.persons.len() && 0 <= j < self.persons.len() && (
            #[trigger] self.persons[i]).username@ == (#[trigger] self.persons[j]).username@ ==> i
                == j
        &&& forall|i: int| 0 <= i < self.metas.len() ==> (#[trigger] self.metas[i]).id == i
        &&& forall|p: int|
            0 <= p < self.posts.len() ==> (#[trigger] self.posts[p]).meta < self.metas.len()
        &&& forall|d: int|
            0 <= d < self.drafts.len() ==> {
                &&& (#[trigger] self.drafts[d]).post < self.posts.len()
                &&& self.drafts[d].meta == self.posts[self.drafts[d].post as int].meta
            }
    }

    /// Post `p` has at least one draft.
    pub open spec fn has_draft(&self, p: int) -> bool {
        exists|d: int| draft_of(self.drafts, d, p)
    }

    /// No post is without a draft.
    pub open spec fn every_post_drafted(&self) -> bool {
        forall|p: int| 0 <= p < self.posts.len() ==> #[trigger] self.has_draft(p)
    }
}

/// The person and token tables are the same in `a` and `b`.
pub open spec fn same_people(a: TablesView, b: TablesView) -> bool {
    a.persons == b.persons && a.tokens == b.tokens
}

/// Changing nothing but the stamps of audit records, the persons and the
/// tokens (keeping their references in range) keeps the tables well formed,
/// and whether every post has a draft.
pub proof fn lemma_posts_untouched(a: TablesView, b: TablesView)
    requires
        a.wf(),
        b.posts == a.posts,
        b.drafts == a.drafts,
        b.metas.len() >= a.metas.len(),
        forall|i: int| 0 <= i < b.metas.len() ==> (#[trigger] b.metas[i]).id == i,
        b.persons != a.persons ==> {
            &&& forall|i: int|
                0 <= i < b.persons.len() ==> (#[trigger] b.persons[i]).meta < b.metas.len()
            &&& forall|i: int, j: int|
                0 <= i < b.persons.len() && 0 <= j < b.persons.len() && (
                #[trigger] b.persons[i]).email@ == (#[trigger] b.persons[j]).email@ ==> i == j
            &&& forall|i: int, j: int|
                0 <= i < b.persons.len() && 0 <= j < b.persons.len() && (
                #[trigger] b.persons[i]).username@ == (#[trigger] b.persons[j]).username@ ==> i
                    == j
        },
        b.tokens != a.tokens ==> forall|i: int|
            0 <= i < b.tokens.len() ==> (#[trigger] b.tokens[i]).meta < b.metas.len(),
    ensures
        b.wf(),
        a.every_post_drafted() ==> b.every_post_drafted(),
{
    assert forall|p: int| #[trigger] a.has_draft(p) implies b.has_draft(p) by {
        let d = choose|d: int| draft_of(a.drafts, d, p);
        assert(draft_of(b.drafts, d, p));
    }
    if a.every_post_drafted() {
        assert forall|p: int| 0 <= p < b.posts.len() implies #[trigger] b.has_draft(p) by {
            assert(a.has_draft(p));
        }
    }
    assert forall|p: int| 0 <= p < b.posts.len() implies (#[trigger] b.posts[p]).meta
        < b.metas.len() by {
        assert(a.posts[p].meta < a.metas.len());
    }
    if b.persons == a.persons {
        assert forall|i: int| 0 <= i < b.persons.len() implies (#[trigger] b.persons[i]).meta
            < b.metas.len() by {
            assert(a.persons[i].meta < a.metas.len());
        }
        assert forall|i: int, j: int|
            0 <= i < b.persons.len() && 0 <= j < b.persons.len() && (#[trigger] b.persons[i]).email@
                == (#[trigger] b.persons[j]).email@ implies i == j by {
            assert(a.persons[i] == b.persons[i] && a.persons[j] == b.persons[j]);
        }
        assert forall|i: int, j: int|
            0 <= i < b.persons.len() && 0 <= j < b.persons.len() && (
            #[trigger] b.persons[i]).username@ == (#[trigger] b.persons[j]).username@ implies i
            == j by {
            assert(a.persons[i] == b.persons[i] && a.persons[j] == b.persons[j]);
        }
    }
    if b.tokens == a.tokens {
        assert forall|i: int| 0 <= i < b.tokens.len() implies (#[trigger] b.tokens[i]).meta
            < b.metas.len() by {
            assert(a.tokens[i].meta < a.metas.len());
        }
    }
    assert forall|d: int| 0 <= d < b.drafts.len() implies {
        &&& (#[trigger] b.drafts[d]).post < b.posts.len()
        &&& b.drafts[d].meta == b.posts[b.drafts[d].post as int].meta
    } by {
        assert(a.drafts[d].post < a.posts.len());
    }
}

/// Changing nothing but `published` flags keeps the tables well formed and
/// keeps every post drafted.
pub proof fn lemma_flags_only(a: TablesView, b: TablesView)
    requires
        a.wf(),
        b.metas == a.metas,
        b.posts == a.posts,
        same_people(a, b),
        b.drafts.len() == a.drafts.len(),
        forall|d: int|
            0 <= d < a.drafts.len() ==> (#[trigger] b.drafts[d]).post == a.drafts[d].post
                && b.drafts[d].meta == a.drafts[d].meta,
    ensures
        b.wf(),
        forall|p: int| #[trigger] a.has_draft(p) ==> b.has_draft(p),
        a.every_post_drafted() ==> b.every_post_drafted(),
{
    assert forall|p: int| #[trigger] a.has_draft(p) implies b.has_draft(p) by {
        let d = choose|d: int| draft_of(a.drafts, d, p);
        assert(draft_of(b.drafts, d, p));
    }
    if a.every_post_drafted() {
        assert forall|p: int| 0 <= p < b.posts.len() implies #[trigger] b.has_draft(p) by {
            assert(a.has_draft(p));
        }
    }
    assert forall|d: int| 0 <= d < b.drafts.len() implies {
        &&& (#[trigger] b.drafts[d]).post < b.posts.len()
        &&& b.drafts[d].meta == b.posts[b.drafts[d].post as int].meta
    } by {
        assert(a.drafts[d].post < a.posts.len());
    }
}

/// Appending a draft of an existing post, carrying that post's audit
/// record, keeps the tables well formed; the post now has a draft.
pub proof fn lemma_draft_appended(a: TablesView, b: TablesView, row: DraftRow)
    requires
        a.wf(),
        b.metas == a.metas,
        b.posts == a.posts,
        same_people(a, b),
        b.drafts == a.drafts.push(row),
        row.post < a.posts.len(),
        row.meta == a.posts[row.post as int].meta,
    ensures
        b.wf(),
        b.has_draft(row.post as int),
        forall|p: int| #[trigger] a.has_draft(p) ==> b.has_draft(p),
        a.every_post_drafted() ==> b.every_post_drafted(),
{
    assert(draft_of(b.drafts, a.drafts.len() as int, row.post as int));
    assert forall|p: int| #[trigger] a.has_draft(p) implies b.has_draft(p) by {
        let d = choose|d: int| draft_of(a.drafts, d, p);
        assert(draft_of(b.drafts, d, p));
    }
    if a.every_post_drafted() {
        assert forall|p: int| 0 <= p < b.posts.len() implies #[trigger] b.has_draft(p) by {
            assert(a.has_draft(p));
        }
    }
    assert forall|d: int| 0 <= d < b.drafts.len() implies {
        &&& (#[trigger] b.drafts[d]).post < b.posts.len()
        &&& b.drafts[d].meta == b.posts[b.drafts[d].post as int].meta
    } by {
        if d < a.drafts.len() {
            assert(b.drafts[d] == a.drafts[d]);
        }
    }
}

impl Tables {
    pub fn empty() -> (r: Tables)
        ensures
            r@.metas.len() == 0,
            r@.posts.len() == 0,
            r@.drafts.len() == 0,
            r@.persons.len() == 0,
            r@.tokens.len() == 0,
            r@.wf(),
    {
        Tables {
            metas: Vec::new(),
            posts: Vec::new(),
            drafts: Vec::new(),
            persons: Vec::new(),
            tokens: Vec::new(),
        }
    }

    /// Sets the `published` flag of draft `d`.
    pub fn set_published(&mut self, d: usize, flag: bool)
        requires
            d < old(self)@.drafts.len(),
        ensures
            final(self)@.metas == old(self)@.metas,
            final(self)@.posts == old(self)@.posts,
            same_people(old(self)@, final(self)@),
            final(self)@.drafts == with_flag(old(self)@.drafts, d as int, flag),
    {
        let mut row = self.drafts[d].duplicate();
        row.published = flag;
        self.drafts.set(d, row);
    }

    /// A copy of all the tables.
    pub fn snapshot(&self) -> (r: Tables)
        ensures
            r@ == self@,
    {
        Tables {
            metas: duplicate_all(&self.metas),
            posts: duplicate_all(&self.posts),
            drafts: duplicate_all(&self.drafts),
            persons: duplicate_all(&self.persons),
            tokens: duplicate_all(&self.tokens),
        }
    }

    /// Whether every post has at least one draft.
    pub fn every_post_drafted(&self) -> (r: bool)
        requires
            self@.wf(),
        ensures
            r == self@.every_post_drafted(),
    {
        let n = self.posts.len();
        let mut seen: Vec<bool> = Vec::new();
        while seen.len() < n
            invariant
                seen.len() <= n,
                n == self.posts@.len(),
                forall|p: int| 0 <= p < seen.len() ==> !(#[trigger] seen@[p]),
            decreases n - seen.len(),
        {
            seen.push(false);
        }
        let mut k: usize = 0;
        while k < self.drafts.len()
            invariant
                self@.wf(),
                k <= self.drafts@.len(),
                seen.len() == n,
                n == self.posts@.len(),
                forall|p: int|
                    0 <= p < n ==> (#[trigger] seen@[p] <==> exists|d: int|
                        0 <= d < k && draft_of(self.drafts@, d, p)),
            decreases self.drafts@.len() - k,
        {
            let p = self.drafts[k].post;
            assert(self@.drafts[k as int].post < n);
            let ghost before = seen@;
            seen.set(p, true);
            assert forall|q: int| 0 <= q < n implies (#[trigger] seen@[q] <==> exists|d: int|
                0 <= d < k + 1 && draft_of(self.drafts@, d, q)) by {
                if q == p {
                    assert(draft_of(self.drafts@, k as int, q));
                } else {
                    assert(seen@[q] == before[q]);
                    if exists|d: int| 0 <= d < k + 1 && draft_of(self.drafts@, d, q) {
                        let d = choose|d: int| 0 <= d < k + 1 && draft_of(self.drafts@, d, q);
                        assert(d != k);
                        assert(0 <= d < k && draft_of(self.drafts@, d, q));
                    }
                    if before[q] {
                        let d = choose|d: int| 0 <= d < k && draft_of(self.drafts@, d, q);
                        assert(0 <= d < k + 1 && draft_of(self.drafts@, d, q));
                    }
                }
            }
            k = k + 1;
        }
        let mut p: usize = 0;
        while p < n
            invariant
                p <= n,
                seen.len() == n,
                n == self.posts@.len(),
                k == self.drafts@.len(),
                forall|q: int|
                    0 <= q < n ==> (#[trigger] seen@[q] <==> exists|d: int|
                        0 <= d < k && draft_of(self.drafts@, d, q)),
                forall|q: int| 0 <= q < p ==> #[trigger] self@.has_draft(q),
            decreases n - p,
        {
            if !seen[p] {
                assert(!self@.has_draft(p as int));
                return false;
            }
            assert(seen@[p as int]);
            let ghost d = choose|d: int| 0 <= d < k && draft_of(self.drafts@, d, p as int);
            assert(draft_of(self@.drafts, d, p as int));
            assert(self@.has_draft(p as int));
            p = p + 1;
        }
        true
    }
}

/// The store: its tables, and while a transaction is open, the tables as
/// they were when it began.
pub struct NovaDB {
    pub tables: Tables,
    pub saved: Option<Tables>,
}

/// The contents of the store.
pub struct DbView {
    pub tables: TablesView,
    pub saved: Option<TablesView>,
}

impl View for NovaDB {
    type V = DbView;

    open spec fn view(&self) -> DbView {
        DbView {
            tables: self.tables@,
            saved: match self.saved {
                Some(t) => Some(t@),
                None => None,
            },
        }
    }
}

impl DbView {
    /// The tables are well formed, and every state that readers outside a
    /// transaction can see has a draft for each post.
    pub open spec fn wf(&self) -> bool {
        &&& self.tables.wf()
        &&& match self.saved {
            Some(s) => s.wf() && s.every_post_drafted(),
            None => self.tables.every_post_drafted(),
        }
    }

    pub open spec fn in_tran(&self) -> bool {
        self.saved is Some
    }

    /// What readers outside the transaction see.
    pub open spec fn committed(&self) -> TablesView {
        match self.saved {
            Some(s) => s,
            None => self.tables,
        }
    }
}

impl NovaDB {
    /// An empty store with no transaction open.
    pub fn new() -> (r: NovaDB)
        ensures
            r@.wf(),
            !r@.in_tran(),
            r@.tables.metas.len() == 0,
            r@.tables.posts.len() == 0,
            r@.tables.drafts.len() == 0,
            r@.tables.persons.len() == 0,
            r@.tables.tokens.len() == 0,
    {
        NovaDB { tables: Tables::empty(), saved: None }
    }

    /// Opens a unit of work. Fails when one is open already.
    pub fn begin_tran(&mut self) -> (r: Result<(), StoreError>)
        requires
            old(self)@.wf(),
        ensures
            final(self)@.wf(),
            final(self)@.tables == old(self)@.tables,
            match r {
                Ok(()) => !old(self)@.in_tran() && final(self)@.saved == Some(old(self)@.tables),
                Err(e) => old(self)@.in_tran() && e == StoreError::StoreFailure && final(self)@
                    == old(self)@,
            },
    {
        if self.saved.is_some() {
            return Err(StoreError::StoreFailure);
        }
        self.saved = Some(self.tables.snapshot());
        Ok(())
    }

    /// Closes the unit of work, keeping its writes, provided no post is left
    /// without a draft; otherwise rolls the writes back.
    pub fn commit_tran(&mut self) -> (r: Result<(), StoreError>)
        requires
            old(self)@.wf(),
        ensures
            final(self)@.wf(),
            !final(self)@.in_tran(),
            match r {
                Ok(()) => old(self)@.in_tran() && old(self)@.tables.every_post_drafted()
                    && final(self)@.tables == old(self)@.tables,
                Err(StoreError::StoreFailure) => !old(self)@.in_tran() && final(self)@
                    == old(self)@,
                Err(StoreError::InvariantViolation) => old(self)@.in_tran()
                    && !old(self)@.tables.every_post_drafted() && final(self)@.tables == old(
                    self,
                )@.committed(),
                Err(StoreError::NotFound) => false,
            },
    {
        if self.saved.is_none() {
            return Err(StoreError::StoreFailure);
        }
        if self.tables.every_post_drafted() {
            self.saved = None;
            Ok(())
        } else {
            let _ = self.cancel_tran();
            Err(StoreError::InvariantViolation)
        }
    }

    /// Closes the unit of work, rolling its writes back.
    pub fn cancel_tran(&mut self) -> (r: Result<(), StoreError>)
        requires
            old(self)@.wf(),
        ensures
            final(self)@.wf(),
            !final(self)@.in_tran(),
            final(self)@.tables == old(self)@.committed(),
            match r {
                Ok(()) => old(self)@.in_tran(),
                Err(e) => !old(self)@.in_tran() && e == StoreError::StoreFailure,
            },
    {
        match self.saved.take() {
            Some(t) => {
                self.tables = t;
                Ok(())
            },
            None => Err(StoreError::StoreFailure),
        }
    }
}

} // verus!
