use sitebuild::config::Config;
use sitebuild::metadata::PostMetadata;
use sitebuild::photo::{Photo, PhotoSource};
use sitebuild::post::Post;
use sitebuild::rebuild::{assign_ids, rebuild};
use sitebuild::source::{FileCategory, FileEntry, PostSource, SourceTree};
use sitebuild::store::Store;

fn test_config() -> Config {
    Config {
        database_path: "website.db".to_string(),
        posts_path: "posts".to_string(),
        files_path: "files".to_string(),
        post_content_path: "index.md".to_string(),
        post_metadata_path: "metadata.json".to_string(),
        post_assets_path: "assets".to_string(),
        post_public_photos_path: "photos".to_string(),
        post_private_photos_path: "private".to_string(),
        photo_max_preview_size: 32,
        photo_quality: 80,
        server_host: "localhost".to_string(),
        server_port: 8080,
        posts_url: "/posts/".to_string(),
    }
}

/// A small PNG with deterministic content.
fn make_png(w: u32, h: u32, seed: u8) -> Vec<u8> {
    let img = image::RgbImage::from_fn(w, h, |x, y| {
        image::Rgb([
            (x as u8).wrapping_mul(3).wrapping_add(seed),
            (y as u8).wrapping_mul(5),
            ((x + y) as u8).wrapping_add(seed),
        ])
    });
    let mut buf = std::io::Cursor::new(Vec::new());
    image::DynamicImage::ImageRgb8(img)
        .write_to(&mut buf, image::ImageFormat::Png)
        .unwrap();
    buf.into_inner()
}

fn metadata(title: &str, date: &str, tags: &[&str], id: Option<&str>) -> PostMetadata {
    PostMetadata {
        id: id.map(|s| s.to_string()),
        title: title.to_string(),
        description: None,
        date: date.to_string(),
        tags: tags.iter().map(|t| t.to_string()).collect(),
        permalink: None,
    }
}

fn photo_file(path: &str, mtime: i64, data: Vec<u8>) -> PhotoSource {
    PhotoSource { path: path.to_string(), mtime, data }
}

fn one_post_tree() -> SourceTree {
    SourceTree {
        files: vec![FileCategory {
            path: "styles".to_string(),
            entries: vec![FileEntry { name: "page.css".to_string(), data: b"body{}".to_vec() }],
        }],
        posts: vec![PostSource {
            dir_name: "p1".to_string(),
            content: "# Hello\n\nworld".to_string(),
            metadata: Some(metadata("Hello", "2024-01-01", &["A b"], None)),
            assets: vec![FileEntry { name: "style.css".to_string(), data: b".x{}".to_vec() }],
            public_photos: vec![photo_file("posts/p1/photos/a.png", 100, make_png(100, 80, 1))],
            private_photos: vec![],
        }],
    }
}

fn is_hex(s: &str) -> bool {
    s.chars().all(|c| c.is_ascii_hexdigit() && !c.is_ascii_uppercase())
}

#[test]
fn rebuild_one_post_scenario() {
    let (tree, updated) = assign_ids(one_post_tree());
    assert_eq!(updated, vec![0usize]);
    let id = tree.posts[0].metadata.as_ref().unwrap().id.clone().unwrap();
    assert_eq!(id.len(), 16);
    assert!(is_hex(&id));

    let cfg = test_config();
    let mut store = Store::new();
    assert!(rebuild(&mut store, &cfg, &tree).is_ok());

    let post = Post::by_id(&store, &id).ok().unwrap();
    assert_eq!(post.title, "Hello");
    assert_eq!(post.date, "2024-01-01");
    assert_eq!(post.get_tags(&store), vec!["a_b".to_string()]);

    let photo = Photo::by_path(&store, "posts/p1/photos/a.png").unwrap();
    assert!(!photo.is_private);
    assert!(photo.source_path.ends_with("a.png"));
    assert_eq!(photo.source_time, 100);

    let large = photo.get_image_large(&store).unwrap();
    let small = photo.get_image_small(&store).unwrap();
    assert!(!large.is_empty());
    assert!(!small.is_empty());
    // both renditions are JPEG streams
    assert_eq!(&large[0..2], &[0xff, 0xd8]);
    assert_eq!(&small[0..2], &[0xff, 0xd8]);
    // the downscaled rendition of a 100x80 source is the smaller stream
    assert!(small.len() <= large.len());

    // the files pass stored the static file under its category
    assert_eq!(store.files.len(), 1);
    assert_eq!(store.files[0].path, "styles");
    assert_eq!(store.files[0].name, "page.css");
    // the asset is attached to the post
    assert_eq!(store.assets.len(), 1);
    assert_eq!(store.post_assets.len(), 1);
    assert_eq!(store.post_assets[0].post_id, id);
}

#[test]
fn rebuild_twice_is_idempotent() {
    let (tree, _) = assign_ids(one_post_tree());
    let cfg = test_config();
    let mut store = Store::new();
    assert!(rebuild(&mut store, &cfg, &tree).is_ok());

    let photo1 = Photo::by_path(&store, "posts/p1/photos/a.png").unwrap();
    let large1 = photo1.get_image_large(&store).unwrap();
    let small1 = photo1.get_image_small(&store).unwrap();
    let counts1 = (
        store.posts.len(),
        store.tags.len(),
        store.files.len(),
        store.assets.len(),
        store.photos.len(),
        store.post_photos.len(),
        store.post_assets.len(),
    );

    assert!(rebuild(&mut store, &cfg, &tree).is_ok());
    let photo2 = Photo::by_path(&store, "posts/p1/photos/a.png").unwrap();
    let large2 = photo2.get_image_large(&store).unwrap();
    let small2 = photo2.get_image_small(&store).unwrap();
    let counts2 = (
        store.posts.len(),
        store.tags.len(),
        store.files.len(),
        store.assets.len(),
        store.photos.len(),
        store.post_photos.len(),
        store.post_assets.len(),
    );

    assert_eq!(counts1, counts2);
    assert_eq!(photo1.id, photo2.id);
    assert_eq!(large1, large2);
    assert_eq!(small1, small2);
}

#[test]
fn rebuild_detects_newer_photo_file() {
    let (mut tree, _) = assign_ids(one_post_tree());
    let cfg = test_config();
    let mut store = Store::new();
    assert!(rebuild(&mut store, &cfg, &tree).is_ok());
    let before = Photo::by_path(&store, "posts/p1/photos/a.png").unwrap();
    assert_eq!(before.source_time, 100);

    // bump the modification time (same path, fresh bytes)
    tree.posts[0].public_photos = vec![photo_file(
        "posts/p1/photos/a.png",
        200,
        make_png(100, 80, 9),
    )];
    assert!(rebuild(&mut store, &cfg, &tree).is_ok());
    let after = Photo::by_path(&store, "posts/p1/photos/a.png").unwrap();
    assert_eq!(after.source_time, 200);
    assert_eq!(after.id, before.id, "identity follows the path, not the bytes");
}

#[test]
fn rebuild_keeps_unchanged_photo_bytes() {
    let (mut tree, _) = assign_ids(one_post_tree());
    let cfg = test_config();
    let mut store = Store::new();
    assert!(rebuild(&mut store, &cfg, &tree).is_ok());
    let photo = Photo::by_path(&store, "posts/p1/photos/a.png").unwrap();
    let large1 = photo.get_image_large(&store).unwrap();

    // an older mtime on the next run must not retransform
    tree.posts[0].public_photos =
        vec![photo_file("posts/p1/photos/a.png", 50, b"not an image".to_vec())];
    assert!(rebuild(&mut store, &cfg, &tree).is_ok());
    let photo2 = Photo::by_path(&store, "posts/p1/photos/a.png").unwrap();
    let large2 = photo2.get_image_large(&store).unwrap();
    assert_eq!(large1, large2, "an up-to-date row must be reused untouched");
}

#[test]
fn rebuild_propagates_photo_deletion() {
    let (mut tree, _) = assign_ids(one_post_tree());
    let cfg = test_config();
    let mut store = Store::new();
    assert!(rebuild(&mut store, &cfg, &tree).is_ok());
    let photo = Photo::by_path(&store, "posts/p1/photos/a.png").unwrap();

    tree.posts[0].public_photos = vec![];
    assert!(rebuild(&mut store, &cfg, &tree).is_ok());
    assert!(Photo::by_path(&store, "posts/p1/photos/a.png").is_none());
    assert!(Photo::by_id(&store, &photo.id).is_none());
    assert_eq!(store.post_photos.len(), 0, "the association went with the row");
}

#[test]
fn rebuild_reuses_persisted_post_id() {
    let (tree, updated) = assign_ids(one_post_tree());
    assert_eq!(updated.len(), 1);
    let id = tree.posts[0].metadata.as_ref().unwrap().id.clone().unwrap();

    // running the pre-pass again changes nothing: the id is kept verbatim
    let (tree2, updated2) = assign_ids(tree);
    assert!(updated2.is_empty());
    let id2 = tree2.posts[0].metadata.as_ref().unwrap().id.clone().unwrap();
    assert_eq!(id, id2);

    let cfg = test_config();
    let mut store = Store::new();
    assert!(rebuild(&mut store, &cfg, &tree2).is_ok());
    assert!(Post::by_id(&store, &id).is_ok());

    let mut store2 = Store::new();
    assert!(rebuild(&mut store2, &cfg, &tree2).is_ok());
    assert_eq!(store2.posts[0].id, id, "the rebuild never regenerates a persisted id");
}

#[test]
fn rebuild_skips_bad_photo_and_bad_sidecar() {
    let mut tree = one_post_tree();
    tree.posts[0].public_photos.push(photo_file(
        "posts/p1/photos/broken.png",
        10,
        b"garbage".to_vec(),
    ));
    tree.posts.push(PostSource {
        dir_name: "p2".to_string(),
        content: "body".to_string(),
        metadata: None, // sidecar did not decode: the post is skipped
        assets: vec![],
        public_photos: vec![],
        private_photos: vec![],
    });
    let (tree, _) = assign_ids(tree);
    let cfg = test_config();
    let mut store = Store::new();
    assert!(rebuild(&mut store, &cfg, &tree).is_ok());

    assert_eq!(store.posts.len(), 1, "the undecodable post is skipped");
    assert!(Photo::by_path(&store, "posts/p1/photos/broken.png").is_none());
    assert!(Photo::by_path(&store, "posts/p1/photos/a.png").is_some());
    assert_eq!(store.post_photos.len(), 1);
}

#[test]
fn rebuild_fails_fatally_on_duplicate_post_id() {
    let mut tree = one_post_tree();
    tree.posts.push(PostSource {
        dir_name: "p2".to_string(),
        content: "again".to_string(),
        metadata: Some(metadata("Other", "2024-02-02", &[], Some("aaaaaaaaaaaaaaaa"))),
        assets: vec![],
        public_photos: vec![],
        private_photos: vec![],
    });
    tree.posts[0].metadata.as_mut().unwrap().id = Some("aaaaaaaaaaaaaaaa".to_string());
    let (tree, updated) = assign_ids(tree);
    assert!(updated.is_empty());
    let cfg = test_config();
    let mut store = Store::new();
    match rebuild(&mut store, &cfg, &tree) {
        Err(e) => assert!(matches!(e.kind, sitebuild::error::ErrorKind::Store)),
        Ok(_) => panic!("a duplicate post id must abort the rebuild"),
    }
}

#[test]
fn entities_are_fully_replaced_not_doubled() {
    let (tree, _) = assign_ids(one_post_tree());
    let cfg = test_config();
    let mut store = Store::new();
    assert!(rebuild(&mut store, &cfg, &tree).is_ok());
    assert_eq!(store.files.len(), 1);
    assert_eq!(store.assets.len(), 1);
    assert_eq!(store.tags.len(), 1);
    assert!(rebuild(&mut store, &cfg, &tree).is_ok());
    assert_eq!(store.files.len(), 1, "files are cleared before the files pass");
    assert_eq!(store.assets.len(), 1, "assets are cleared before the posts pass");
    assert_eq!(store.tags.len(), 1, "tags are replaced, not appended");
    assert_eq!(store.posts.len(), 1);
}

#[test]
fn gallery_list_orders_and_hides() {
    let mut tree = one_post_tree();
    tree.posts[0].private_photos =
        vec![photo_file("posts/p1/private/s.png", 40, make_png(60, 60, 3))];
    tree.posts.push(PostSource {
        dir_name: "p2".to_string(),
        content: "second".to_string(),
        metadata: Some(metadata("Newer", "2025-06-06", &[], None)),
        assets: vec![],
        public_photos: vec![
            photo_file("posts/p2/photos/x.png", 10, make_png(40, 30, 5)),
            photo_file("posts/p2/photos/y.png", 20, make_png(40, 30, 7)),
        ],
        private_photos: vec![],
    });
    let (tree, _) = assign_ids(tree);
    let cfg = test_config();
    let mut store = Store::new();
    assert!(rebuild(&mut store, &cfg, &tree).is_ok());

    // Without private photos: newest post first, newest photo first inside it,
    // and one photo reported hidden.
    let (photos, hidden) = Photo::list(&store, false, None, None, None);
    assert_eq!(hidden, 1);
    let paths: Vec<&str> = photos.iter().map(|p| p.source_path.as_str()).collect();
    assert_eq!(
        paths,
        vec!["posts/p2/photos/y.png", "posts/p2/photos/x.png", "posts/p1/photos/a.png"]
    );

    // With private photos, nothing is hidden.
    let (all, hidden_all) = Photo::list(&store, true, None, None, None);
    assert_eq!(hidden_all, 0);
    assert_eq!(all.len(), 4);

    // Restricted to one post.
    let p2 = store.posts.iter().find(|p| p.title == "Newer").unwrap().id.clone();
    let (of_p2, _) = Photo::list(&store, true, Some(&p2), None, None);
    assert_eq!(of_p2.len(), 2);

    // Offset and limit select a page of the full listing.
    let (page, _) = Photo::list(&store, true, None, Some(1), Some(2));
    assert_eq!(page.len(), 2);
    assert_eq!(page[0].source_path, "posts/p2/photos/x.png");

    // The photo's post is reachable back through the association.
    let a = Photo::by_path(&store, "posts/p1/photos/a.png").unwrap();
    let owner = a.get_post(&store).unwrap();
    assert_eq!(owner.title, "Hello");
}
