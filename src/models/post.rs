use vstd::prelude::*;

use crate::db::nova_db::{any_selected, is_newest, DraftFilter, TablesView};
use crate::models::meta::{Meta, Timestamp};

verus! {

/// A post: a stable identity with its audit record.
#[derive(Debug, Clone)]
pub struct Post {
    pub id: usize,
    pub meta: Meta,
}

/// A post as listings show it: with the title of its newest draft.
#[derive(Debug, Clone)]
pub struct PostHydrated {
    pub id: usize,
    /// `None` only for a post whose first draft is not written yet, which
    /// nobody outside an open unit of work can see.
    pub working_title: Option<String>,
    pub meta: Meta,
}

/// One version (draft) of a post.
#[derive(Debug, Clone)]
pub struct PostVersion {
    /// The id of the post.
    pub id: usize,
    pub draft_id: usize,
    pub title: String,
    pub markdown: String,
    pub author: String,
    pub published: bool,
    pub at: Timestamp,
    pub image: String,
    pub visits: u128,
    pub meta: Meta,
}

/// The content of a new draft; without a post id a new post is created.
#[derive(Debug, Clone)]
pub struct DraftPostArgs {
    pub id: Option<usize>,
    pub title: String,
    pub markdown: String,
    pub published: bool,
    pub image: String,
}

impl Post {
    /// This value is post `p` of the tables, with its audit record.
    pub open spec fn describes(&self, t: TablesView, p: int) -> bool {
        &&& 0 <= p < t.posts.len()
        &&& self.id == p
        &&& self.meta == t.metas[t.posts[p].meta as int]
    }
}

/// When post `p` was created.
pub open spec fn post_created(t: TablesView, p: int) -> Timestamp {
    t.metas[t.posts[p].meta as int].created_on
}

/// Post `a` is newer than post `b`: created later, or at the same instant
/// and stored later.
pub open spec fn post_newer(t: TablesView, a: int, b: int) -> bool {
    post_created(t, a) > post_created(t, b) || (post_created(t, a) == post_created(t, b) && a > b)
}

/// Post `p` appears in the listing `r`.
pub open spec fn post_listed(r: Seq<PostHydrated>, p: int) -> bool {
    exists|i: int| 0 <= i < r.len() && r[i].id == p
}

impl PostHydrated {
    /// This value is post `p` with its audit record and the title of its
    /// newest draft.
    pub open spec fn describes(&self, t: TablesView, p: int) -> bool {
        &&& 0 <= p < t.posts.len()
        &&& self.id == p
        &&& self.meta == t.metas[t.posts[p].meta as int]
        &&& match self.working_title {
            Some(title) => exists|d: int|
                is_newest(t.drafts, DraftFilter::OfPost(p as usize), d) && title
                    == t.drafts[d].title,
            None => !any_selected(t.drafts, DraftFilter::OfPost(p as usize)),
        }
    }
}

impl PostVersion {
    /// This value is draft `d` of the tables, with its audit record.
    pub open spec fn describes(&self, t: TablesView, d: int) -> bool {
        &&& 0 <= d < t.drafts.len()
        &&& self.draft_id == d
        &&& self.id == t.drafts[d].post
        &&& self.title == t.drafts[d].title
        &&& self.markdown == t.drafts[d].markdown
        &&& self.author == t.drafts[d].author
        &&& self.published == t.drafts[d].published
        &&& self.at == t.drafts[d].at
        &&& self.image == t.drafts[d].image
        &&& self.visits == t.drafts[d].visits
        &&& self.meta == t.metas[t.drafts[d].meta as int]
    }
}

} // verus!
