//! Signing in and uploading: the token read from a request, the avatar and
//! expiry of a new session, the administrator list, and the checks and paths
//! of an upload.

use vstd::prelude::*;
use crate::models::Status;
use crate::text::{
    views,
    chars_of, decimal, decimal_i64, has_prefix, parse_i64, parse_signed, push_all, push_str,
    replace, replace_all, split, split_on, starts_with, string_of, trim, trimmed,
};

verus! {

/// The token carried by an `Authorization` header: the value with every
/// `Bearer ` taken out.
pub fn bearer_token(header: &str) -> (t: String)
    ensures
        t@ == replace_all(header@, "Bearer "@, Seq::empty()),
{
    let v = chars_of(header);
    let pat = chars_of("Bearer ");
    proof {
        reveal_strlit("Bearer ");
    }
    let empty: Vec<char> = Vec::new();
    let r = replace(&v, &pat, &empty);
    string_of(&r)
}

/// How long a session lasts: sixty days, in seconds.
pub open spec fn session_seconds() -> int {
    5184000
}

/// The expiry of a session started at `now` (Unix time, seconds).
pub fn session_expiry(now: i64) -> (exp: i64)
    requires
        now + session_seconds() <= i64::MAX,
    ensures
        exp == now + session_seconds(),
{
    now + 60 * 24 * 60 * 60
}

/// The session token that `jsonwebtoken` signs, with the default header
/// (HS256) and `secret`, for the claims `{"exp": exp, "user_id": user_id}`.
pub uninterp spec fn session_token(exp: i64, user_id: i64, secret: Seq<u8>) -> Seq<char>;

/// The expiry and user id that `token` carries when its HS256 signature under
/// `secret` is valid and both claims are integers; `None` otherwise. The
/// expiry is not compared with the clock here.
pub uninterp spec fn session_claims(token: Seq<char>, secret: Seq<u8>) -> Option<(i64, i64)>;

/// Trusted: `jsonwebtoken::encode(&Header::default(), &claims,
/// &EncodingKey::from_secret(secret))` with the claims `exp` and `user_id`
/// as a JSON object; `None` when encoding fails. A token signed this way
/// checks under the same secret and carries the same claims.
#[verifier::external_body]
fn sign_session(exp: i64, user_id: i64, secret: &Vec<u8>) -> (r: Option<String>)
    ensures
        r matches Some(s) ==> s@ == session_token(exp, user_id, secret@),
        r matches Some(s) ==> session_claims(s@, secret@) == Some((exp, user_id)),
{
    let claims: std::collections::BTreeMap<&str, i64> = [("exp", exp), ("user_id", user_id)].into_iter().collect();
    let key = jsonwebtoken::EncodingKey::from_secret(secret);
    jsonwebtoken::encode(&jsonwebtoken::Header::default(), &claims, &key).ok()
}

/// Trusted: `jsonwebtoken::decode(token, &DecodingKey::from_secret(secret),
/// &Validation::default())`, then the `exp` and `user_id` claims as
/// integers. The read also fails when the token has expired, which depends
/// on the clock; what comes back, when something does, is the token's claims.
#[verifier::external_body]
fn read_session(token: &str, secret: &Vec<u8>) -> (r: Option<(i64, i64)>)
    ensures
        r matches Some(c) ==> session_claims(token@, secret@) == Some(c),
{
    let key = jsonwebtoken::DecodingKey::from_secret(secret);
    let validation = jsonwebtoken::Validation::default();
    let data = jsonwebtoken::decode::<std::collections::BTreeMap<String, serde_json::Value>>(token, &key, &validation).ok()?;
    let exp = data.claims.get("exp")?.as_i64()?;
    let user_id = data.claims.get("user_id")?.as_i64()?;
    Some((exp, user_id))
}

/// The session cookie's value for `user_id` signing in at `now` (Unix
/// seconds): a token for that user, expiring sixty days later; `None` when
/// signing fails.
pub fn session_cookie(now: i64, user_id: i64, secret: &Vec<u8>) -> (r: Option<String>)
    requires
        now + session_seconds() <= i64::MAX,
    ensures
        r matches Some(s) ==> s@ == session_token((now + session_seconds()) as i64, user_id, secret@),
        r matches Some(s) ==> session_claims(s@, secret@) == Some(((now + session_seconds()) as i64, user_id)),
{
    let exp = session_expiry(now);
    sign_session(exp, user_id, secret)
}

/// Who a session's claims name: the user id, or `Unauthorized` when the
/// token could not be read.
pub fn session_user_of(claims: Option<(i64, i64)>) -> (r: Result<i64, Status>)
    ensures
        r == (match claims {
            Some((_, user_id)) => Ok(user_id),
            None => Err(Status::Unauthorized),
        }),
{
    match claims {
        Some((_, user_id)) => Ok(user_id),
        None => Err(Status::Unauthorized),
    }
}

/// The user a session token names under `secret`, or `Unauthorized` when it
/// cannot be read (bad signature, missing claims, or expired).
pub fn session_user(token: &str, secret: &Vec<u8>) -> (r: Result<i64, Status>)
    ensures
        r matches Ok(user_id) ==> session_claims(token@, secret@) is Some && session_claims(token@, secret@).unwrap().1
            == user_id,
        r matches Err(e) ==> e == Status::Unauthorized,
        session_claims(token@, secret@) is None ==> r == Err::<i64, Status>(Status::Unauthorized),
{
    let claims = read_session(token, secret);
    session_user_of(claims)
}

/// A token made at sign-in names the user it was made for: whenever it can
/// be read with the same secret, the user id read back is that user's.
pub proof fn session_names_its_user(now: i64, user_id: i64, secret: Seq<u8>, token: Seq<char>, read: i64)
    requires
        session_claims(token, secret) == Some(((now + session_seconds()) as i64, user_id)),
        session_claims(token, secret) is Some && session_claims(token, secret).unwrap().1 == read,
    ensures
        read == user_id,
{
}

/// `a % b` as Rust computes it for signed integers: the sign follows `a`.
pub open spec fn truncated_rem(a: int, b: int) -> int {
    if a >= 0 {
        a % b
    } else {
        -((-a) % b)
    }
}

/// The avatar of a Discord user: their own image when they set one, else the
/// default picked by their discriminator (a discriminator that does not
/// parse counts as 0).
pub open spec fn avatar_link(id: int, avatar: Option<Seq<char>>, discriminator: Seq<char>) -> Seq<char> {
    match avatar {
        Some(a) => "https://cdn.discordapp.com/avatars/"@ + decimal(id) + "/"@ + a + ".png?size=512"@,
        None => {
            let d = match parse_signed(discriminator, i32::MIN as int, i32::MAX as int) {
                Some(v) => v,
                None => 0,
            };
            "https://cdn.discordapp.com/embed/avatars/"@ + decimal(truncated_rem(d, 5)) + ".png?size=512"@
        },
    }
}

/// `s.parse::<i32>()`, with `None` for an error.
pub fn parse_i32(s: &str) -> (r: Option<i32>)
    ensures
        r matches Some(v) ==> parse_signed(s@, i32::MIN as int, i32::MAX as int) == Some(v as int),
        r is None ==> parse_signed(s@, i32::MIN as int, i32::MAX as int) is None,
{
    match parse_i64(s) {
        Some(v) => {
            if v < i32::MIN as i64 || v > i32::MAX as i64 {
                None
            } else {
                Some(v as i32)
            }
        },
        None => {
            assert(parse_signed(s@, i32::MIN as int, i32::MAX as int) is None);
            None
        },
    }
}

/// The avatar link stored for a user signing in.
pub fn avatar_url(id: i64, avatar: &Option<String>, discriminator: &str) -> (url: String)
    ensures
        url@ == avatar_link(
            id as int,
            match avatar {
                Some(a) => Some(a@),
                None => None,
            },
            discriminator@,
        ),
{
    let mut v: Vec<char> = Vec::new();
    match avatar {
        Some(a) => {
            push_str(&mut v, "https://cdn.discordapp.com/avatars/");
            let d = decimal_i64(id);
            push_all(&mut v, &d);
            push_str(&mut v, "/");
            push_str(&mut v, a.as_str());
            push_str(&mut v, ".png?size=512");
        },
        None => {
            let d: i32 = match parse_i32(discriminator) {
                Some(x) => x,
                None => 0,
            };
            let wide = d as i64;
            let rem: i64 = if wide >= 0 { wide % 5 } else { 0 - ((0 - wide) % 5) };
            push_str(&mut v, "https://cdn.discordapp.com/embed/avatars/");
            let r = decimal_i64(rem);
            push_all(&mut v, &r);
            push_str(&mut v, ".png?size=512");
        },
    }
    string_of(&v)
}

/// The administrator ids listed in a comma-separated setting, `None` when
/// some piece is not an `i64`.
pub open spec fn admin_list(pieces: Seq<Seq<char>>) -> Option<Seq<i64>>
    decreases pieces.len(),
{
    if pieces.len() == 0 {
        Some(Seq::empty())
    } else {
        match (admin_list(pieces.drop_last()), parse_signed(pieces.last(), i64::MIN as int, i64::MAX as int)) {
            (Some(ids), Some(v)) => Some(ids.push(v as i64)),
            _ => None,
        }
    }
}

/// Reads the comma-separated list of administrator ids.
pub fn parse_admin_ids(setting: &str) -> (r: Option<Vec<i64>>)
    ensures
        r matches Some(ids) ==> admin_list(split_on(setting@, ',')) == Some(ids@),
        r is None ==> admin_list(split_on(setting@, ',')) is None,
{
    let pieces = split(setting, ',');
    let ghost views = pieces@.map_values(|p: Vec<char>| p@);
    let mut ids: Vec<i64> = Vec::new();
    let mut i: usize = 0;
    while i < pieces.len()
        invariant
            i <= pieces.len(),
            views == pieces@.map_values(|p: Vec<char>| p@),
            views == split_on(setting@, ','),
            admin_list(views.subrange(0, i as int)) == Some(ids@),
        decreases pieces.len() - i,
    {
        let piece = string_of(&pieces[i]);
        assert(views.subrange(0, i + 1).drop_last() =~= views.subrange(0, i as int));
        assert(views.subrange(0, i + 1).last() == piece@);
        match parse_i64(piece.as_str()) {
            Some(v) => {
                ids.push(v);
            },
            None => {
                proof {
                    admin_list_prefix_none(views, i + 1);
                }
                return None;
            },
        }
        i = i + 1;
    }
    assert(views.subrange(0, pieces.len() as int) =~= views);
    Some(ids)
}

proof fn admin_list_prefix_none(pieces: Seq<Seq<char>>, n: int)
    requires
        0 <= n <= pieces.len(),
        admin_list(pieces.subrange(0, n)) is None,
    ensures
        admin_list(pieces) is None,
    decreases pieces.len() - n,
{
    if n < pieces.len() {
        assert(pieces.subrange(0, n + 1).drop_last() =~= pieces.subrange(0, n));
        admin_list_prefix_none(pieces, n + 1);
    } else {
        assert(pieces.subrange(0, n) =~= pieces);
    }
}

/// Images of an upload must be served by the service's own image delivery.
pub open spec fn image_host() -> Seq<char> {
    "https://divamodarchive.com/cdn-cgi/imagedelivery"@
}

/// Whether `url` points into the service's image delivery.
pub fn image_url_allowed(url: &str) -> (b: bool)
    ensures
        b == has_prefix(url@, image_host()),
{
    let v = chars_of(url);
    let p = chars_of("https://divamodarchive.com/cdn-cgi/imagedelivery");
    starts_with(&v, &p)
}

/// Where an uploaded file is stored: `user_id/filename`.
pub fn upload_path(user_id: i64, filename: &str) -> (p: String)
    ensures
        p@ == decimal(user_id as int) + "/"@ + filename@,
{
    let mut v = decimal_i64(user_id);
    push_str(&mut v, "/");
    push_str(&mut v, filename);
    string_of(&v)
}

/// The images of a post: the main image, then the extra ones.
pub fn upload_images(image: String, extra: Option<Vec<String>>) -> (r: Vec<String>)
    ensures
        r@ == seq![image] + match extra {
            Some(e) => e@,
            None => Seq::empty(),
        },
{
    let mut r: Vec<String> = Vec::new();
    r.push(image);
    match extra {
        Some(mut e) => {
            r.append(&mut e);
        },
        None => {},
    }
    r
}

/// What the uploader's connection delivers while a file is being received.
#[derive(Clone, Copy, Debug, PartialEq, Eq, Structural)]
pub enum UploadEvent {
    /// A chunk of the file.
    Chunk,
    /// The client closes the connection.
    Close,
    /// Any other message.
    Other,
    /// The connection ends, or delivers an error.
    End,
}

/// What the service does on an upload event.
#[derive(Clone, Copy, Debug, PartialEq, Eq, Structural)]
pub enum UploadAction {
    /// Write the chunk to the file and answer `Ready`.
    WriteAndAskMore,
    /// Close the connection and give up the upload.
    Abandon,
    /// The file is complete: go on to the next one.
    NextFile,
}

/// The step of the upload protocol: a chunk is written and answered with
/// `Ready`; a close abandons the upload; anything else, or the end of the
/// connection, completes the current file.
pub fn upload_step(event: UploadEvent) -> (a: UploadAction)
    ensures
        a == (match event {
            UploadEvent::Chunk => UploadAction::WriteAndAskMore,
            UploadEvent::Close => UploadAction::Abandon,
            UploadEvent::Other | UploadEvent::End => UploadAction::NextFile,
        }),
{
    match event {
        UploadEvent::Chunk => UploadAction::WriteAndAskMore,
        UploadEvent::Close => UploadAction::Abandon,
        UploadEvent::Other => UploadAction::NextFile,
        UploadEvent::End => UploadAction::NextFile,
    }
}

/// A file stored for a post that its new upload no longer lists: its path
/// is not among the new paths.
pub open spec fn stale(new: Seq<String>) -> spec_fn(String) -> bool {
    |f: String| !views(new).contains(f@)
}

/// The stored files of a post being replaced that are to be deleted: those,
/// in order, whose paths are not among the new upload's paths.
pub fn stale_files(old: &Vec<String>, new: &Vec<String>) -> (r: Vec<String>)
    ensures
        r@ == old@.filter(stale(new@)),
{
    let mut r: Vec<String> = Vec::new();
    let mut i: usize = 0;
    while i < old.len()
        invariant
            i <= old.len(),
            r@ == old@.subrange(0, i as int).filter(stale(new@)),
        decreases old.len() - i,
    {
        let mut found = false;
        let mut j: usize = 0;
        while j < new.len()
            invariant
                j <= new.len(),
                i < old.len(),
                found == exists|k: int| 0 <= k < j && (#[trigger] new@[k])@ == old@[i as int]@,
            decreases new.len() - j,
        {
            if new[j].eq(&old[i]) {
                found = true;
            }
            j = j + 1;
        }
        proof {
            if found {
                let k = choose|k: int| 0 <= k < new.len() && (#[trigger] new@[k])@ == old@[i as int]@;
                assert(views(new@)[k] == old@[i as int]@);
            }
            if views(new@).contains(old@[i as int]@) {
                let k = choose|k: int| 0 <= k < views(new@).len() && views(new@)[k] == old@[i as int]@;
                assert(new@[k]@ == old@[i as int]@);
            }
            let s = old@.subrange(0, i + 1);
            assert(s.drop_last() =~= old@.subrange(0, i as int));
            assert(s.last() == old@[i as int]);
            reveal_with_fuel(Seq::filter, 1);
        }
        if !found {
            r.push(old[i].clone());
        }
        i = i + 1;
    }
    assert(old@.subrange(0, old.len() as int) =~= old@);
    r
}

/// The public share link printed by the storage tool for a file.
pub open spec fn share_prefix() -> Seq<char> {
    "https://pixeldrain.com/d/"@
}

/// The direct download link the service hands out for a printed share link:
/// `None` unless the output starts with the share prefix; otherwise the
/// trimmed output with the share prefix replaced by the file system API
/// prefix, followed by `?download`.
pub open spec fn download_from_share(output: Seq<char>) -> Option<Seq<char>> {
    if has_prefix(output, share_prefix()) {
        Some(replace_all(trim(output), share_prefix(), "https://pixeldrain.com/api/filesystem/"@) + "?download"@)
    } else {
        None
    }
}

/// Turns the storage tool's output into a download link.
pub fn public_download_link(output: &str) -> (r: Option<String>)
    ensures
        r matches Some(s) ==> download_from_share(output@) == Some(s@),
        r is None ==> download_from_share(output@) is None,
{
    let v = chars_of(output);
    let share = chars_of("https://pixeldrain.com/d/");
    if !starts_with(&v, &share) {
        return None;
    }
    proof {
        reveal_strlit("https://pixeldrain.com/d/");
    }
    let t = trimmed(&v);
    let api = chars_of("https://pixeldrain.com/api/filesystem/");
    let mut link = replace(&t, &share, &api);
    push_str(&mut link, "?download");
    Some(string_of(&link))
}

} // verus!
