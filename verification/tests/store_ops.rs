use sitebuild::asset::Asset;
use sitebuild::error::ErrorKind;
use sitebuild::file::File;
use sitebuild::photo::Photo;
use sitebuild::post::Post;
use sitebuild::store::{PhotoRow, PostRow, Store};
use sitebuild::user::User;

fn post_row(id: &str, title: &str, date: &str, permalink: Option<&str>) -> PostRow {
    PostRow {
        id: id.to_string(),
        title: title.to_string(),
        description: None,
        date: date.to_string(),
        permalink: permalink.map(|p| p.to_string()),
        source: "# body".to_string(),
    }
}

fn photo_row(id: &str, path: &str, time: i64, mark: bool) -> PhotoRow {
    PhotoRow {
        id: id.to_string(),
        mark,
        is_private: false,
        source_path: path.to_string(),
        source_time: time,
        image_large: vec![1, 2, 3],
        image_small: vec![4, 5],
    }
}

#[test]
fn post_lookups_and_sources() {
    let mut store = Store::new();
    let p = Post::insert(&mut store, post_row("id1", "One", "2024-01-01", Some("one")))
        .ok()
        .unwrap();
    assert_eq!(p.id, "id1");

    let by_id = Post::by_id(&store, "id1").ok().unwrap();
    assert_eq!(by_id.title, "One");
    let by_permalink = Post::by_permalink(&store, "one").ok().unwrap();
    assert_eq!(by_permalink.id, "id1");
    assert_eq!(p.get_source(&store).ok().unwrap(), "# body");

    match Post::by_id(&store, "missing") {
        Err(e) => assert!(matches!(e.kind, ErrorKind::NotFound)),
        Ok(_) => panic!("a miss must be a not-found error"),
    }
    match Post::by_permalink(&store, "missing") {
        Err(e) => assert!(matches!(e.kind, ErrorKind::NotFound)),
        Ok(_) => panic!("a miss must be a not-found error"),
    }
}

#[test]
fn post_insert_rejects_duplicate_id_and_permalink() {
    let mut store = Store::new();
    Post::insert(&mut store, post_row("id1", "One", "2024", Some("one"))).ok().unwrap();
    match Post::insert(&mut store, post_row("id1", "Two", "2025", None)) {
        Err(e) => assert!(matches!(e.kind, ErrorKind::Store)),
        Ok(_) => panic!("duplicate id must be refused"),
    }
    match Post::insert(&mut store, post_row("id2", "Two", "2025", Some("one"))) {
        Err(e) => assert!(matches!(e.kind, ErrorKind::Store)),
        Ok(_) => panic!("duplicate permalink must be refused"),
    }
}

#[test]
fn tags_are_replaced_exactly() {
    let mut store = Store::new();
    let p1 = Post::insert(&mut store, post_row("id1", "One", "2024", None)).ok().unwrap();
    let p2 = Post::insert(&mut store, post_row("id2", "Two", "2025", None)).ok().unwrap();

    p1.set_tags(&mut store, &vec!["old".to_string(), "tags".to_string()]);
    p2.set_tags(&mut store, &vec!["other".to_string()]);
    p1.set_tags(&mut store, &vec!["fresh".to_string()]);

    assert_eq!(p1.get_tags(&store), vec!["fresh".to_string()], "no residue from earlier tags");
    assert_eq!(p2.get_tags(&store), vec!["other".to_string()], "other posts keep their tags");
}

#[test]
fn get_all_orders_posts_by_date_descending() {
    let mut store = Store::new();
    Post::insert(&mut store, post_row("a", "Old", "2020-01-01", None)).ok().unwrap();
    Post::insert(&mut store, post_row("b", "New", "2024-12-31", None)).ok().unwrap();
    Post::insert(&mut store, post_row("c", "Mid", "2022-06-15", None)).ok().unwrap();
    let all = Post::get_all(&store);
    let titles: Vec<&str> = all.iter().map(|p| p.title.as_str()).collect();
    assert_eq!(titles, vec!["New", "Mid", "Old"]);
}

#[test]
fn photo_mark_and_sweep_primitives() {
    let mut store = Store::new();
    Photo::insert(&mut store, photo_row("ph1", "a.png", 1, true)).ok().unwrap();
    Photo::insert(&mut store, photo_row("ph2", "b.png", 2, true)).ok().unwrap();
    assert_eq!(Photo::count(&store), 2);

    Photo::unmark_all(&mut store);
    assert!(store.photos.iter().all(|r| !r.mark));

    let p1 = Photo::by_id(&store, "ph1").unwrap();
    p1.mark(&mut store);
    Photo::delete_unmarked(&mut store);
    assert_eq!(Photo::count(&store), 1);
    assert!(Photo::by_id(&store, "ph1").is_some());
    assert!(Photo::by_id(&store, "ph2").is_none());

    let p1 = Photo::by_id(&store, "ph1").unwrap();
    p1.delete(&mut store);
    assert_eq!(Photo::count(&store), 0);
}

#[test]
fn photo_insert_rejects_duplicate_identity() {
    let mut store = Store::new();
    Photo::insert(&mut store, photo_row("ph1", "a.png", 1, true)).ok().unwrap();
    match Photo::insert(&mut store, photo_row("ph1", "other.png", 1, true)) {
        Err(e) => assert!(matches!(e.kind, ErrorKind::Store)),
        Ok(_) => panic!("duplicate photo id must be refused"),
    }
    match Photo::insert(&mut store, photo_row("ph9", "a.png", 1, true)) {
        Err(e) => assert!(matches!(e.kind, ErrorKind::Store)),
        Ok(_) => panic!("duplicate source path must be refused"),
    }
    let p = Photo::by_path(&store, "a.png").unwrap();
    assert_eq!(p.get_image_large(&store).unwrap(), vec![1, 2, 3]);
    assert_eq!(p.get_image_small(&store).unwrap(), vec![4, 5]);
}

#[test]
fn assets_attach_to_posts() {
    let mut store = Store::new();
    Post::insert(&mut store, post_row("id1", "One", "2024", None)).ok().unwrap();
    let a = Asset::new(&mut store, "logo.svg", b"<svg/>".to_vec()).ok().unwrap();
    assert_eq!(a.id, 1);
    store.post_assets.push(sitebuild::store::AssetLink {
        post_id: "id1".to_string(),
        asset_id: a.id,
    });

    let found = Asset::by_post_and_name(&store, "id1", "logo.svg").unwrap();
    assert_eq!(found.id, 1);
    assert_eq!(found.get_data(&store).unwrap(), b"<svg/>".to_vec());
    assert!(Asset::by_post_and_name(&store, "id1", "missing.svg").is_none());

    Asset::delete_all(&mut store);
    assert!(store.assets.is_empty());
    assert!(store.post_assets.is_empty(), "clearing assets cascades the links");
}

#[test]
fn files_store_under_their_category() {
    let mut store = Store::new();
    let f = File::new(&mut store, "styles", "page.css", b"body{}".to_vec()).ok().unwrap();
    assert_eq!(f.id, 1);
    let g = File::new(&mut store, "assets", "logo.jpg", vec![9]).ok().unwrap();
    assert_eq!(g.id, 2);

    let found = File::by_path_and_name(&store, "styles", "page.css").unwrap();
    assert_eq!(found.get_data(&store).unwrap(), b"body{}".to_vec());
    assert!(File::by_path_and_name(&store, "styles", "logo.jpg").is_none());

    File::delete_all(&mut store);
    assert!(store.files.is_empty());
}

#[test]
fn users_are_stored_by_key_hash() {
    let mut store = Store::new();
    let u = User::new(&mut store, "SECRET-REDACTED", "admins").ok().unwrap();
    assert_eq!(u.key_hash, User::key_hash("SECRET-REDACTED"));
    assert_eq!(u.key_hash.len(), 16);

    let found = User::by_hash(&store, &u.key_hash).unwrap();
    assert_eq!(found.group_name, "admins");
    assert!(User::by_hash(&store, "0000000000000000").is_none());

    match User::new(&mut store, "SECRET-REDACTED", "twice") {
        Err(e) => assert!(matches!(e.kind, ErrorKind::Store)),
        Ok(_) => panic!("the same key must be refused"),
    }

    User::delete_all(&mut store);
    assert!(store.users.is_empty());
}

#[test]
fn post_body_renders_to_html() {
    let mut store = Store::new();
    let p = Post::insert(&mut store, post_row("id1", "One", "2024", None)).ok().unwrap();
    let html = p.get_source_html(&store).ok().unwrap();
    assert_eq!(html, "<h1>body</h1>\n");
}

#[test]
fn empty_store_lists_nothing() {
    let store = Store::new();
    assert!(Post::get_all(&store).is_empty());
    assert_eq!(Photo::count(&store), 0);
    let (photos, hidden) = Photo::list(&store, true, None, None, None);
    assert!(photos.is_empty());
    assert_eq!(hidden, 0);
}

#[test]
fn gallery_offset_past_end_is_empty() {
    let mut store = Store::new();
    Post::insert(&mut store, post_row("id1", "One", "2024", None)).ok().unwrap();
    Photo::insert(&mut store, photo_row("ph1", "a.png", 1, true)).ok().unwrap();
    store.post_photos.push(sitebuild::store::PhotoLink {
        post_id: "id1".to_string(),
        photo_id: "ph1".to_string(),
    });
    let (photos, hidden) = Photo::list(&store, true, None, Some(10), Some(5));
    assert!(photos.is_empty());
    assert_eq!(hidden, 0);
    let (one, _) = Photo::list(&store, true, None, None, None);
    assert_eq!(one.len(), 1);
}

#[test]
fn file_ids_restart_after_clearing() {
    let mut store = Store::new();
    File::new(&mut store, "styles", "a.css", vec![1]).ok().unwrap();
    File::new(&mut store, "styles", "b.css", vec![2]).ok().unwrap();
    File::delete_all(&mut store);
    let f = File::new(&mut store, "styles", "c.css", vec![3]).ok().unwrap();
    assert_eq!(f.id, 1, "auto ids restart once the table is cleared");
}

#[test]
fn error_describe_walks_the_whole_chain() {
    let e = sitebuild::error::Error::new(ErrorKind::Io, "root")
        .context("middle")
        .context("top");
    assert_eq!(e.describe(), "top: middle: root");
}
