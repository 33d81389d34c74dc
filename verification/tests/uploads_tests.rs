use wryft_live::storage::{extract_key_from_url, get_public_url};
use wryft_live::uploads::{get_content_type, sanitize_filename, UploadResponse};
use wryft_live::voice::get_guild_voice_users;

#[test]
fn content_type_ignores_extension_case() {
    assert_eq!(get_content_type("photo.JPG"), "image/jpeg");
    assert_eq!(get_content_type("photo.jpeg"), "image/jpeg");
}

#[test]
fn content_types_by_extension() {
    assert_eq!(get_content_type("a.png"), "image/png");
    assert_eq!(get_content_type("a.gif"), "image/gif");
    assert_eq!(get_content_type("a.webp"), "image/webp");
    assert_eq!(get_content_type("a.svg"), "image/svg+xml");
    assert_eq!(get_content_type("a.mp4"), "video/mp4");
    assert_eq!(get_content_type("a.webm"), "video/webm");
    assert_eq!(get_content_type("a.pdf"), "application/pdf");
    assert_eq!(get_content_type("a.txt"), "text/plain");
}

#[test]
fn unknown_extensions_are_octet_streams() {
    assert_eq!(get_content_type("archive.tar.gz"), "application/octet-stream");
    assert_eq!(get_content_type("noext"), "application/octet-stream");
    assert_eq!(get_content_type("trailing."), "application/octet-stream");
    assert_eq!(get_content_type(""), "application/octet-stream");
}

#[test]
fn sanitize_replaces_disallowed_characters() {
    assert_eq!(sanitize_filename("my file(1).txt"), "my_file_1_.txt");
    assert_eq!(sanitize_filename("abc-DEF_0.9"), "abc-DEF_0.9");
    assert_eq!(sanitize_filename("../etc/passwd"), ".._etc_passwd");
    assert_eq!(sanitize_filename(""), "");
}

#[test]
fn key_extraction_inverts_url_building() {
    let url = get_public_url("http://files.example", "avatars/a1.png");
    assert_eq!(url, "http://files.example/avatars/a1.png");
    assert_eq!(
        extract_key_from_url(&url, "http://files.example"),
        Some("avatars/a1.png".to_string())
    );
}

#[test]
fn foreign_urls_yield_no_key() {
    assert_eq!(extract_key_from_url("http://elsewhere/x", "http://files.example"), None);
    assert_eq!(extract_key_from_url("http://files.example", "http://files.example"), None);
}

#[test]
fn upload_response_carries_url_and_id() {
    let r = UploadResponse { url: "u".to_string(), file_id: "f".to_string() };
    assert_eq!(r.url, "u");
    assert_eq!(r.file_id, "f");
}

#[test]
fn voice_users_group_by_channel_in_row_order() {
    let rows = vec![
        ("c1".to_string(), "u1".to_string(), "alice".to_string(), 100),
        ("c2".to_string(), "u2".to_string(), "bob".to_string(), 100),
        ("c1".to_string(), "u3".to_string(), "carol".to_string(), 110),
    ];
    let grouped = get_guild_voice_users(&rows, 110);
    assert_eq!(grouped.len(), 2);
    let c1 = grouped.iter().find(|g| g.channel_id == "c1").unwrap();
    assert_eq!(c1.users.len(), 2);
    assert_eq!(c1.users[0].id, "u1");
    assert_eq!(c1.users[0].username, "alice");
    assert_eq!(c1.users[1].id, "u3");
    let c2 = grouped.iter().find(|g| g.channel_id == "c2").unwrap();
    assert_eq!(c2.users.len(), 1);
    assert_eq!(c2.users[0].username, "bob");
}

#[test]
fn expired_voice_sessions_never_reach_the_roster() {
    // u1's session is 31 seconds old at read time: past the 30-second
    // window, gone even though nothing purged it
    let rows = vec![
        ("c1".to_string(), "u1".to_string(), "alice".to_string(), 0),
        ("c1".to_string(), "u2".to_string(), "bob".to_string(), 20),
    ];
    let grouped = get_guild_voice_users(&rows, 31);
    assert_eq!(grouped.len(), 1);
    assert_eq!(grouped[0].channel_id, "c1");
    assert_eq!(grouped[0].users.len(), 1);
    assert_eq!(grouped[0].users[0].id, "u2");
}

#[test]
fn a_channel_with_only_expired_sessions_is_absent() {
    let rows = vec![
        ("stale".to_string(), "u1".to_string(), "alice".to_string(), 0),
        ("live".to_string(), "u2".to_string(), "bob".to_string(), 40),
    ];
    let grouped = get_guild_voice_users(&rows, 60);
    assert_eq!(grouped.len(), 1);
    assert_eq!(grouped[0].channel_id, "live");
}

#[test]
fn empty_guild_has_no_voice_channels() {
    assert!(get_guild_voice_users(&Vec::new(), 0).is_empty());
}
