use sitebuild::error::{make_error, Error, ErrorKind, WithContext};
use sitebuild::ident::{derive_id, generate_id, to_hex16};
use sitebuild::metadata::PostMetadata;
use sitebuild::text::{normalize_tag, normalize_tags, u16_to_dec};

fn is_hex(s: &str) -> bool {
    s.chars().all(|c| c.is_ascii_hexdigit() && !c.is_ascii_uppercase())
}

#[test]
fn hex16_renders_fixed_width() {
    assert_eq!(to_hex16(0), "0000000000000000");
    assert_eq!(to_hex16(0x1a2b3c4d5e6f7081), "1a2b3c4d5e6f7081");
    assert_eq!(to_hex16(u64::MAX), "ffffffffffffffff");
}

#[test]
fn u16_decimal_renders_exactly() {
    assert_eq!(u16_to_dec(0), "0");
    assert_eq!(u16_to_dec(7), "7");
    assert_eq!(u16_to_dec(404), "404");
    assert_eq!(u16_to_dec(65535), "65535");
}

#[test]
fn derive_id_is_stable_hex_token() {
    let a = derive_id("posts/p1/photos/a.png");
    let b = derive_id("posts/p1/photos/a.png");
    let c = derive_id("posts/p1/photos/b.png");
    assert_eq!(a, b);
    assert_eq!(a.len(), 16);
    assert!(is_hex(&a));
    assert_ne!(a, c);
}

#[test]
fn generate_id_is_sixteen_hex_digits() {
    let id = generate_id();
    assert_eq!(id.len(), 16);
    assert!(is_hex(&id));
}

#[test]
fn normalize_tag_lowercases_and_underscores() {
    assert_eq!(normalize_tag("A b"), "a_b");
    assert_eq!(normalize_tag("Rust Lang Stuff"), "rust_lang_stuff");
    assert_eq!(normalize_tag("already_fine"), "already_fine");
    let all = normalize_tags(&vec!["A b".to_string(), "C".to_string()]);
    assert_eq!(all, vec!["a_b".to_string(), "c".to_string()]);
}

#[test]
fn make_error_formats_message_and_code() {
    let page = make_error(404, "Post not found");
    assert_eq!(page.code, 404);
    assert_eq!(page.title, "404");
    assert_eq!(page.message, "Error 404: Post not found");
}

#[test]
fn make_error_falls_back_to_500_for_invalid_codes() {
    let page = make_error(42, "odd");
    assert_eq!(page.code, 500);
    assert_eq!(page.title, "42");
    assert_eq!(page.message, "Error 42: odd");
}

#[test]
fn error_context_keeps_kind_and_chains_messages() {
    let e = Error::new(ErrorKind::Decode, "inner").context("outer");
    assert!(matches!(e.kind, ErrorKind::Decode));
    assert_eq!(e.describe(), "outer: inner");

    let r: Result<u32, Error> = Err(Error::new(ErrorKind::Store, "bad"));
    let r = r.context("while writing");
    match r {
        Err(e) => {
            assert!(matches!(e.kind, ErrorKind::Store));
            assert_eq!(e.describe(), "while writing: bad");
        }
        Ok(_) => panic!("expected an error"),
    }

    let o: Option<u32> = None;
    match o.context("missing") {
        Err(e) => assert!(matches!(e.kind, ErrorKind::NotFound)),
        Ok(_) => panic!("expected an error"),
    }
}

#[test]
fn metadata_serializes_pretty_with_four_spaces() {
    let m = PostMetadata {
        id: Some("00000000deadbeef".to_string()),
        title: "Hello".to_string(),
        description: None,
        date: "2024-01-01".to_string(),
        tags: vec!["a_b".to_string(), "c".to_string()],
        permalink: None,
    };
    let s = m.to_json_str().ok().unwrap();
    let expected = "{\n    \"id\": \"00000000deadbeef\",\n    \"title\": \"Hello\",\n    \"description\": null,\n    \"date\": \"2024-01-01\",\n    \"tags\": [\n        \"a_b\",\n        \"c\"\n    ],\n    \"permalink\": null\n}";
    assert_eq!(s, expected);
}

#[test]
fn metadata_serializes_empty_tags_and_escapes() {
    let m = PostMetadata {
        id: None,
        title: "Say \"hi\"\n".to_string(),
        description: Some("a\\b".to_string()),
        date: "2024".to_string(),
        tags: vec![],
        permalink: Some("p".to_string()),
    };
    let s = m.to_json_str().ok().unwrap();
    let expected = "{\n    \"id\": null,\n    \"title\": \"Say \\\"hi\\\"\\n\",\n    \"description\": \"a\\\\b\",\n    \"date\": \"2024\",\n    \"tags\": [],\n    \"permalink\": \"p\"\n}";
    assert_eq!(s, expected);
    // serde_json agrees with the verified serializer on the escaping.
    let v: serde_json::Value = serde_json::from_str(&s).unwrap();
    assert_eq!(v.get("title").unwrap().as_str().unwrap(), "Say \"hi\"\n");
}

#[test]
fn metadata_round_trips_through_json() {
    let m = PostMetadata {
        id: Some("1234123412341234".to_string()),
        title: "T".to_string(),
        description: Some("d".to_string()),
        date: "2020-05-05".to_string(),
        tags: vec!["x".to_string()],
        permalink: Some("perma".to_string()),
    };
    let s = m.to_json_str().ok().unwrap();
    let back = PostMetadata::from_json_str(&s).ok().unwrap();
    assert_eq!(back.id, m.id);
    assert_eq!(back.title, m.title);
    assert_eq!(back.description, m.description);
    assert_eq!(back.date, m.date);
    assert_eq!(back.tags, m.tags);
    assert_eq!(back.permalink, m.permalink);
}

#[test]
fn metadata_decode_errors_are_decode_kind() {
    match PostMetadata::from_json_str("not json at all") {
        Err(e) => assert!(matches!(e.kind, ErrorKind::Decode)),
        Ok(_) => panic!("expected a decode error"),
    }
    match PostMetadata::from_json_str("{\"date\": \"2024\", \"tags\": []}") {
        Err(e) => assert!(matches!(e.kind, ErrorKind::Decode)),
        Ok(_) => panic!("missing title must be rejected"),
    }
    match PostMetadata::from_json_str("{\"title\": \"t\", \"date\": \"2024\", \"tags\": [1]}") {
        Err(e) => assert!(matches!(e.kind, ErrorKind::Decode)),
        Ok(_) => panic!("non-string tag must be rejected"),
    }
}

#[test]
fn metadata_optional_fields_accept_null_and_absence() {
    let m =
        PostMetadata::from_json_str("{\"title\": \"t\", \"date\": \"d\", \"tags\": [\"x\"], \"id\": null}")
            .ok()
            .unwrap();
    assert_eq!(m.id, None);
    assert_eq!(m.description, None);
    assert_eq!(m.permalink, None);
    assert_eq!(m.tags, vec!["x".to_string()]);
}

#[test]
fn config_decodes_from_json() {
    let text = "{\"database_path\": \"db\", \"posts_path\": \"posts\", \"files_path\": \"files\", \"post_content_path\": \"index.md\", \"post_metadata_path\": \"metadata.json\", \"post_assets_path\": \"assets\", \"post_public_photos_path\": \"photos\", \"post_private_photos_path\": \"private\", \"photo_max_preview_size\": 640, \"photo_quality\": 80, \"server_host\": \"localhost\", \"server_port\": 8080, \"posts_url\": \"/posts/\"}";
    let cfg = sitebuild::config::Config::from_json_str(text).ok().unwrap();
    assert_eq!(cfg.posts_path, "posts");
    assert_eq!(cfg.photo_max_preview_size, 640);
    assert_eq!(cfg.photo_quality, 80);
    assert_eq!(cfg.server_port, 8080);

    match sitebuild::config::Config::from_json_str("{}") {
        Err(e) => assert!(matches!(e.kind, ErrorKind::Decode)),
        Ok(_) => panic!("missing fields must be rejected"),
    }
    match sitebuild::config::Config::from_json_str(
        "{\"database_path\": \"db\", \"photo_quality\": 900}",
    ) {
        Err(e) => assert!(matches!(e.kind, ErrorKind::Decode)),
        Ok(_) => panic!("an out-of-range quality must be rejected"),
    }
}

#[test]
fn metadata_tolerates_unknown_fields() {
    let m = PostMetadata::from_json_str(
        "{\"title\": \"t\", \"date\": \"d\", \"tags\": [], \"draft\": true, \"extra\": 3}",
    )
    .ok()
    .unwrap();
    assert_eq!(m.title, "t");
    assert!(m.tags.is_empty());
}

#[test]
fn config_rejects_wrongly_typed_fields() {
    match sitebuild::config::Config::from_json_str(
        "{\"database_path\": 3, \"photo_quality\": \"high\"}",
    ) {
        Err(e) => assert!(matches!(e.kind, ErrorKind::Decode)),
        Ok(_) => panic!("wrongly typed fields must be rejected"),
    }
}
