use divamodarchive::models::Status;
use divamodarchive::session::{
    session_cookie, session_user, session_user_of,
    avatar_url, bearer_token, image_url_allowed, parse_admin_ids, parse_i32, public_download_link, session_expiry,
    stale_files, upload_images, upload_path, upload_step, UploadAction, UploadEvent,
};

#[test]
fn bearer_prefix_is_removed() {
    assert_eq!(bearer_token("Bearer abc.def"), "abc.def");
    assert_eq!(bearer_token("abc"), "abc");
}

#[test]
fn sessions_last_sixty_days() {
    assert_eq!(session_expiry(1_000), 1_000 + 60 * 24 * 60 * 60);
}

#[test]
fn avatars() {
    assert_eq!(
        avatar_url(42, &Some(String::from("hash")), "0"),
        "https://cdn.discordapp.com/avatars/42/hash.png?size=512"
    );
    assert_eq!(avatar_url(42, &None, "1237"), "https://cdn.discordapp.com/embed/avatars/2.png?size=512");
    assert_eq!(avatar_url(42, &None, "x"), "https://cdn.discordapp.com/embed/avatars/0.png?size=512");
    assert_eq!(avatar_url(42, &None, "-7"), "https://cdn.discordapp.com/embed/avatars/-2.png?size=512");
}

#[test]
fn parsing_i32() {
    assert_eq!(parse_i32("2147483647"), Some(i32::MAX));
    assert_eq!(parse_i32("2147483648"), None);
    assert_eq!(parse_i32("-2147483648"), Some(i32::MIN));
}

#[test]
fn admin_ids() {
    assert_eq!(parse_admin_ids("1,22,-3"), Some(vec![1, 22, -3]));
    assert_eq!(parse_admin_ids("1,,2"), None);
    assert_eq!(parse_admin_ids("7"), Some(vec![7]));
}

#[test]
fn uploads() {
    assert!(image_url_allowed("https://divamodarchive.com/cdn-cgi/imagedelivery/x/y"));
    assert!(!image_url_allowed("https://example.com/cdn-cgi/imagedelivery/x"));
    assert_eq!(upload_path(12, "pack.zip"), "12/pack.zip");
    assert_eq!(
        upload_images(String::from("a"), Some(vec![String::from("b"), String::from("c")])),
        vec!["a", "b", "c"]
    );
    assert_eq!(upload_images(String::from("a"), None), vec!["a"]);
}

#[test]
fn download_links_from_share_links() {
    assert_eq!(
        public_download_link("https://pixeldrain.com/d/abc/12/pack.zip\n"),
        Some(String::from("https://pixeldrain.com/api/filesystem/abc/12/pack.zip?download"))
    );
    assert_eq!(public_download_link("error: not found"), None);
    assert_eq!(public_download_link(" https://pixeldrain.com/d/abc"), None);
}

#[test]
fn stale_files_are_those_no_longer_uploaded() {
    let old = vec![String::from("7/a.zip"), String::from("7/b.zip"), String::from("7/c.7z")];
    let new = vec![String::from("7/b.zip"), String::from("7/d.rar")];
    assert_eq!(stale_files(&old, &new), vec![String::from("7/a.zip"), String::from("7/c.7z")]);
    assert_eq!(stale_files(&old, &old), Vec::<String>::new());
    assert_eq!(stale_files(&vec![], &new), Vec::<String>::new());
}

#[test]
fn upload_protocol_steps() {
    assert_eq!(upload_step(UploadEvent::Chunk), UploadAction::WriteAndAskMore);
    assert_eq!(upload_step(UploadEvent::Close), UploadAction::Abandon);
    assert_eq!(upload_step(UploadEvent::Other), UploadAction::NextFile);
    assert_eq!(upload_step(UploadEvent::End), UploadAction::NextFile);
}

fn now() -> i64 {
    std::time::SystemTime::now().duration_since(std::time::UNIX_EPOCH).unwrap().as_secs() as i64
}

#[test]
fn session_cookie_names_its_user() {
    let secret = b"secret".to_vec();
    let token = session_cookie(now(), 42, &secret).unwrap();
    assert_ne!(token, "42");
    assert_eq!(session_user(&token, &secret), Ok(42));
    assert_eq!(session_user(&token, &b"other".to_vec()), Err(Status::Unauthorized));
    assert_eq!(session_user("not a token", &secret), Err(Status::Unauthorized));
}

#[test]
fn expired_sessions_are_refused() {
    let secret = b"secret".to_vec();
    let token = session_cookie(now() - 200 * 24 * 60 * 60, 42, &secret).unwrap();
    assert_eq!(session_user(&token, &secret), Err(Status::Unauthorized));
}

#[test]
fn claims_name_the_user() {
    assert_eq!(session_user_of(Some((5, 9))), Ok(9));
    assert_eq!(session_user_of(None), Err(Status::Unauthorized));
}
