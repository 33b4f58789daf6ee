use nb_lib::db::nova_db::NovaDB;
use nb_lib::errors::StoreError;
use nb_lib::models::post::DraftPostArgs;
use nb_lib::repos::r_posts::PostsRepo;
use nb_lib::services::s_posts::PostsService;

fn args(id: Option<usize>, title: &str, body: &str, image: &str, published: bool) -> DraftPostArgs {
    DraftPostArgs {
        id,
        title: title.to_string(),
        markdown: body.to_string(),
        published,
        image: image.to_string(),
    }
}

fn published_count(db: &NovaDB, svc: &PostsService, post_id: usize) -> usize {
    svc.get_post_drafts(db, post_id).iter().filter(|d| d.published).count()
}

#[test]
fn create_publish_unpublish_scenario() {
    let mut db = NovaDB::new();
    let svc = PostsService::new();
    let first = svc
        .create_draft(&mut db, args(None, "T1", "# body", "img.png", false), "alice".to_string())
        .unwrap();
    assert!(!first.published);
    assert_eq!(first.title, "T1");
    let post_id = first.id;
    assert!(svc.get_post(&db, post_id).is_ok());

    let second = svc
        .create_draft(
            &mut db,
            args(Some(post_id), "T2", "# body2", "img2.png", false),
            "alice".to_string(),
        )
        .unwrap();
    assert_eq!(svc.get_current_draft(&db, post_id).unwrap().title, "T2");

    assert_eq!(svc.publish_draft(&mut db, second.draft_id), Ok(true));
    let published = svc.get_published_posts(&db);
    assert_eq!(published.len(), 1);
    assert_eq!(published[0].title, "T2");

    assert_eq!(svc.unpublish_post(&mut db, second.draft_id), Ok(true));
    assert!(svc.get_published_posts(&db).iter().all(|d| d.id != post_id));
}

#[test]
fn new_post_draft_shares_the_post_audit_record() {
    let mut db = NovaDB::new();
    let svc = PostsService::new();
    let d = svc
        .create_draft_at(&mut db, args(None, "A", "a", "a.png", false), "bob".to_string(), 10)
        .unwrap();
    let post = svc.get_post(&db, d.id).unwrap();
    assert_eq!(post.meta.id, d.meta.id);
    assert_eq!(post.meta.created_by, "bob");
    assert_eq!(post.meta.created_on, 10);
    assert_eq!(d.at, 10);
    assert_eq!(d.author, "bob");
    assert_eq!(d.visits, 0);
    assert!(post.meta.deleted_on.is_none());
    let e = svc
        .create_draft_at(&mut db, args(Some(d.id), "B", "b", "b.png", false), "carol".to_string(), 20)
        .unwrap();
    assert_eq!(e.meta.id, d.meta.id);
    assert_eq!(e.meta.created_by, "bob");
}

#[test]
fn publish_swaps_and_is_idempotent() {
    let mut db = NovaDB::new();
    let svc = PostsService::new();
    let d1 = svc
        .create_draft_at(&mut db, args(None, "one", "1", "", false), "a".to_string(), 1)
        .unwrap();
    assert_eq!(svc.publish_draft(&mut db, d1.draft_id), Ok(true));
    let d2 = svc
        .create_draft_at(&mut db, args(Some(d1.id), "two", "2", "", false), "a".to_string(), 2)
        .unwrap();
    assert_eq!(svc.publish_draft(&mut db, d2.draft_id), Ok(true));
    assert!(!svc.get_draft(&db, d1.draft_id).unwrap().published);
    assert!(svc.get_draft(&db, d2.draft_id).unwrap().published);
    let before: Vec<bool> = svc.get_post_drafts(&db, d1.id).iter().map(|d| d.published).collect();
    assert_eq!(svc.publish_draft(&mut db, d2.draft_id), Ok(true));
    let after: Vec<bool> = svc.get_post_drafts(&db, d1.id).iter().map(|d| d.published).collect();
    assert_eq!(before, after);
    assert_eq!(published_count(&db, &svc, d1.id), 1);
}

#[test]
fn last_publish_wins() {
    let mut db = NovaDB::new();
    let svc = PostsService::new();
    let d1 = svc
        .create_draft_at(&mut db, args(None, "one", "1", "", false), "a".to_string(), 1)
        .unwrap();
    let d2 = svc
        .create_draft_at(&mut db, args(Some(d1.id), "two", "2", "", false), "a".to_string(), 2)
        .unwrap();
    assert_eq!(svc.publish_draft(&mut db, d2.draft_id), Ok(true));
    assert_eq!(svc.publish_draft(&mut db, d1.draft_id), Ok(true));
    assert!(svc.get_draft(&db, d1.draft_id).unwrap().published);
    assert!(!svc.get_draft(&db, d2.draft_id).unwrap().published);
}

#[test]
fn at_most_one_published_after_a_sequence() {
    let mut db = NovaDB::new();
    let svc = PostsService::new();
    let a = svc
        .create_draft_at(&mut db, args(None, "a1", "", "", true), "x".to_string(), 1)
        .unwrap();
    let b = svc
        .create_draft_at(&mut db, args(None, "b1", "", "", false), "x".to_string(), 2)
        .unwrap();
    let a2 = svc
        .create_draft_at(&mut db, args(Some(a.id), "a2", "", "", false), "x".to_string(), 3)
        .unwrap();
    let b2 = svc
        .create_draft_at(&mut db, args(Some(b.id), "b2", "", "", false), "x".to_string(), 4)
        .unwrap();
    svc.publish_draft(&mut db, a2.draft_id).unwrap();
    svc.publish_draft(&mut db, b.draft_id).unwrap();
    svc.publish_draft(&mut db, b2.draft_id).unwrap();
    svc.unpublish_post(&mut db, a2.draft_id).unwrap();
    svc.publish_draft(&mut db, a.draft_id).unwrap();
    assert_eq!(published_count(&db, &svc, a.id), 1);
    assert_eq!(published_count(&db, &svc, b.id), 1);
    assert_eq!(svc.get_published_posts(&db).len(), 2);
}

#[test]
fn current_draft_is_the_latest_unpublished() {
    let mut db = NovaDB::new();
    let svc = PostsService::new();
    let d1 = svc
        .create_draft_at(&mut db, args(None, "first", "", "", false), "x".to_string(), 100)
        .unwrap();
    let p = d1.id;
    svc.create_draft_at(&mut db, args(Some(p), "middle", "", "", false), "x".to_string(), 200)
        .unwrap();
    svc.create_draft_at(&mut db, args(Some(p), "late", "", "", false), "x".to_string(), 300)
        .unwrap();
    let newest_published = svc
        .create_draft_at(&mut db, args(Some(p), "pub", "", "", false), "x".to_string(), 400)
        .unwrap();
    svc.publish_draft(&mut db, newest_published.draft_id).unwrap();
    assert_eq!(svc.get_current_draft(&db, p).unwrap().title, "late");
    let titles: Vec<String> = svc.get_post_drafts(&db, p).into_iter().map(|d| d.title).collect();
    assert_eq!(titles, vec!["pub", "late", "middle", "first"]);
}

#[test]
fn equal_timestamps_prefer_the_later_draft() {
    let mut db = NovaDB::new();
    let svc = PostsService::new();
    let d1 = svc
        .create_draft_at(&mut db, args(None, "x", "", "", false), "x".to_string(), 5)
        .unwrap();
    svc.create_draft_at(&mut db, args(Some(d1.id), "y", "", "", false), "x".to_string(), 5)
        .unwrap();
    assert_eq!(svc.get_current_draft(&db, d1.id).unwrap().title, "y");
}

#[test]
fn no_current_draft_when_all_published() {
    let mut db = NovaDB::new();
    let svc = PostsService::new();
    let d = svc
        .create_draft_at(&mut db, args(None, "only", "", "", true), "x".to_string(), 1)
        .unwrap();
    assert_eq!(svc.get_current_draft(&db, d.id).unwrap_err(), StoreError::NotFound);
    assert_eq!(svc.get_current_draft(&db, 99).unwrap_err(), StoreError::NotFound);
}

#[test]
fn missing_ids_are_not_found() {
    let mut db = NovaDB::new();
    let svc = PostsService::new();
    assert_eq!(svc.get_post(&db, 0).unwrap_err(), StoreError::NotFound);
    assert_eq!(svc.get_draft(&db, 0).unwrap_err(), StoreError::NotFound);
    assert_eq!(svc.publish_draft(&mut db, 3), Err(StoreError::NotFound));
    assert_eq!(svc.unpublish_post(&mut db, 3), Err(StoreError::NotFound));
    let r = svc.create_draft(&mut db, args(Some(7), "t", "", "", false), "x".to_string());
    assert_eq!(r.unwrap_err(), StoreError::NotFound);
    assert!(svc.get_posts(&db).is_empty());
}

#[test]
fn open_unit_of_work_is_joined() {
    let mut db = NovaDB::new();
    let svc = PostsService::new();
    let d = svc
        .create_draft_at(&mut db, args(None, "t", "", "", false), "x".to_string(), 1)
        .unwrap();
    assert_eq!(db.begin_tran(), Ok(()));
    assert_eq!(db.begin_tran(), Err(StoreError::StoreFailure));
    let e = svc
        .create_draft_at(&mut db, args(None, "u", "", "", false), "x".to_string(), 2)
        .unwrap();
    assert_eq!(svc.publish_draft(&mut db, d.draft_id), Ok(true));
    assert!(svc.get_post(&db, e.id).is_ok());
    assert_eq!(db.cancel_tran(), Ok(()));
    assert!(svc.get_post(&db, e.id).is_err());
    assert!(!svc.get_draft(&db, d.draft_id).unwrap().published);
    assert_eq!(db.cancel_tran(), Err(StoreError::StoreFailure));
    assert_eq!(db.commit_tran(), Err(StoreError::StoreFailure));
}

#[test]
fn creating_a_published_draft_unpublishes_the_others() {
    let mut db = NovaDB::new();
    let svc = PostsService::new();
    let d1 = svc
        .create_draft_at(&mut db, args(None, "one", "", "", true), "x".to_string(), 1)
        .unwrap();
    let d2 = svc
        .create_draft_at(&mut db, args(Some(d1.id), "two", "", "", true), "x".to_string(), 2)
        .unwrap();
    assert!(d2.published);
    assert!(!svc.get_draft(&db, d1.draft_id).unwrap().published);
    assert_eq!(published_count(&db, &svc, d1.id), 1);
}

#[test]
fn new_draft_is_newest_even_if_the_clock_went_back() {
    let mut db = NovaDB::new();
    let svc = PostsService::new();
    let d1 = svc
        .create_draft_at(&mut db, args(None, "late", "", "", false), "x".to_string(), 500)
        .unwrap();
    let d2 = svc
        .create_draft_at(&mut db, args(Some(d1.id), "early", "", "", false), "x".to_string(), 100)
        .unwrap();
    assert_eq!(d2.at, 500);
    assert_eq!(svc.get_current_draft(&db, d1.id).unwrap().title, "early");
    assert_eq!(svc.get_posts(&db)[0].working_title.as_deref(), Some("early"));
    let d3 = svc
        .create_draft_at(&mut db, args(Some(d1.id), "later", "", "", false), "x".to_string(), 900)
        .unwrap();
    assert_eq!(d3.at, 900);
}

#[test]
fn published_post_at_index() {
    let mut db = NovaDB::new();
    let svc = PostsService::new();
    let a = svc
        .create_draft_at(&mut db, args(None, "a", "", "", true), "x".to_string(), 1)
        .unwrap();
    let b = svc
        .create_draft_at(&mut db, args(None, "b", "", "", true), "x".to_string(), 2)
        .unwrap();
    assert_eq!(svc.get_published_post_at(&db, 0).unwrap().draft_id, b.draft_id);
    assert_eq!(svc.get_published_post_at(&db, 1).unwrap().draft_id, a.draft_id);
    assert_eq!(svc.get_published_post_at(&db, 2).unwrap_err(), StoreError::NotFound);
}

#[test]
fn commit_refuses_a_post_without_draft() {
    let mut db = NovaDB::new();
    let repo = PostsRepo::new();
    assert_eq!(repo.insert_post(&mut db, "x".to_string(), 1).unwrap_err(), StoreError::StoreFailure);
    db.begin_tran().unwrap();
    let post = repo.insert_post(&mut db, "x".to_string(), 1).unwrap();
    assert_eq!(post.id, 0);
    assert_eq!(db.commit_tran(), Err(StoreError::InvariantViolation));
    assert!(repo.select_posts(&db).is_empty());
    assert!(repo.select_post(&db, 0).is_err());
}

#[test]
fn cancelled_creation_leaves_nothing() {
    let mut db = NovaDB::new();
    let repo = PostsRepo::new();
    db.begin_tran().unwrap();
    let post = repo.insert_post(&mut db, "x".to_string(), 1).unwrap();
    repo.create_draft(&mut db, post.id, "t".into(), "m".into(), "x".into(), false, "i".into(), 2)
        .unwrap();
    db.cancel_tran().unwrap();
    assert!(repo.select_posts(&db).is_empty());
    assert!(repo.select_draft(&db, 0).is_err());
}

#[test]
fn posts_listed_newest_first_with_working_title() {
    let mut db = NovaDB::new();
    let svc = PostsService::new();
    let a = svc
        .create_draft_at(&mut db, args(None, "a-old", "", "", false), "x".to_string(), 10)
        .unwrap();
    let b = svc
        .create_draft_at(&mut db, args(None, "b", "", "", false), "x".to_string(), 20)
        .unwrap();
    svc.create_draft_at(&mut db, args(Some(a.id), "a-new", "", "", true), "x".to_string(), 30)
        .unwrap();
    let posts = svc.get_posts(&db);
    assert_eq!(posts.len(), 2);
    assert_eq!(posts[0].id, b.id);
    assert_eq!(posts[1].id, a.id);
    assert_eq!(posts[1].working_title.as_deref(), Some("a-new"));
    assert_eq!(posts[0].working_title.as_deref(), Some("b"));
}

#[test]
fn drafted_posts_skip_posts_with_a_published_draft() {
    let mut db = NovaDB::new();
    let svc = PostsService::new();
    let a = svc
        .create_draft_at(&mut db, args(None, "a", "", "", false), "x".to_string(), 1)
        .unwrap();
    let b = svc
        .create_draft_at(&mut db, args(None, "b", "", "", false), "x".to_string(), 2)
        .unwrap();
    svc.create_draft_at(&mut db, args(Some(b.id), "b2", "", "", false), "x".to_string(), 3)
        .unwrap();
    svc.create_draft_at(&mut db, args(Some(a.id), "a2", "", "", false), "x".to_string(), 4)
        .unwrap();
    svc.publish_draft(&mut db, a.draft_id).unwrap();
    let drafted = svc.get_drafted_posts(&db);
    assert_eq!(drafted.len(), 1);
    assert_eq!(drafted[0].id, b.id);
    assert_eq!(drafted[0].title, "b2");
}

#[test]
fn random_post_is_published() {
    let mut db = NovaDB::new();
    let svc = PostsService::new();
    assert_eq!(svc.get_random_post(&db).unwrap_err(), StoreError::NotFound);
    let a = svc
        .create_draft_at(&mut db, args(None, "a", "", "", true), "x".to_string(), 1)
        .unwrap();
    svc.create_draft_at(&mut db, args(None, "b", "", "", false), "x".to_string(), 2)
        .unwrap();
    for _ in 0..20 {
        let r = svc.get_random_post(&db).unwrap();
        assert_eq!(r.draft_id, a.draft_id);
        assert!(r.published);
    }
}
