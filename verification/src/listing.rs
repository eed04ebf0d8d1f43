//! Answers of the read-only listing interface: the status of a batch
//! lookup, the daily download allowance of an address, and the images kept
//! when a post is replaced.

use vstd::prelude::*;
use crate::models::Status;
use crate::text::{chars_of, has_prefix, starts_with};

verus! {

/// The status of a lookup of `requested` posts of which `found` were found:
/// not found when none were, partial when some were missing.
pub fn listing_status(requested: usize, found: usize) -> (s: Status)
    ensures
        s == (if found == 0 {
            Status::NotFound
        } else if found != requested {
            Status::PartialContent
        } else {
            Status::Success
        }),
{
    if found == 0 {
        Status::NotFound
    } else if found != requested {
        Status::PartialContent
    } else {
        Status::Success
    }
}

/// The status of a lookup whose result came back (`found` posts of
/// `requested`): complete or partial.
pub fn batch_status(requested: usize, found: usize) -> (s: Status)
    ensures
        s == (if found == requested { Status::Success } else { Status::PartialContent }),
{
    if found == requested {
        Status::Success
    } else {
        Status::PartialContent
    }
}

/// The status of an update-dates lookup that came back with `found` of
/// `requested` dates: answered as the batch lookup of posts is, success when
/// every date was found, partial content otherwise.
pub fn update_dates_status(requested: usize, found: usize) -> (s: Status)
    ensures
        s == (if found == requested { Status::Success } else { Status::PartialContent }),
{
    batch_status(requested, found)
}

/// Bytes an address may download per day: 3 GiB.
pub open spec fn daily_limit() -> int {
    3221225472
}

/// The bytes recorded for an address after it asks for `size` more: refused
/// (too many requests) once it has used the daily limit, else the sum, or
/// `size` when nothing was recorded today.
pub fn download_allowance(used: Option<i64>, size: i64) -> (r: Result<i64, Status>)
    requires
        used matches Some(u) ==> u >= daily_limit() || i64::MIN <= u + size <= i64::MAX,
    ensures
        r == (match used {
            Some(u) => if u >= daily_limit() {
                Err(Status::TooManyRequests)
            } else {
                Ok((u + size) as i64)
            },
            None => Ok(size),
        }),
{
    match used {
        Some(u) => {
            if u >= 3 * 1024 * 1024 * 1024 {
                Err(Status::TooManyRequests)
            } else {
                Ok(u + size)
            }
        },
        None => Ok(size),
    }
}

/// Whether a not-found answer under `/api/v2/` gets an empty list as its body.
pub fn empty_list_body(status: Status, path: &str) -> (b: bool)
    ensures
        b == (status == Status::NotFound && has_prefix(path@, "/api/v2/"@)),
{
    if status != Status::NotFound {
        return false;
    }
    let p = chars_of(path);
    let prefix = chars_of("/api/v2/");
    starts_with(&p, &prefix)
}

/// The images of a post being stored: the new ones where given; when
/// replacing a post, the old ones otherwise; a new post must give both
/// (bad request).
pub fn stored_images(
    image: Option<String>,
    images_extra: Option<Vec<String>>,
    original: Option<(String, Vec<String>)>,
) -> (r: Result<(String, Vec<String>), Status>)
    ensures
        original is None ==> (r is Ok <==> image is Some && images_extra is Some),
        original is Some ==> r is Ok,
        r matches Err(e) ==> e == Status::BadRequest,
        r matches Ok(p) ==> p.0 == (match image {
            Some(i) => i,
            None => original.unwrap().0,
        }) && p.1 == (match images_extra {
            Some(e) => e,
            None => original.unwrap().1,
        }),
{
    match original {
        Some((old_image, old_extra)) => {
            let i = match image {
                Some(i) => i,
                None => old_image,
            };
            let e = match images_extra {
                Some(e) => e,
                None => old_extra,
            };
            Ok((i, e))
        },
        None => match (image, images_extra) {
            (Some(i), Some(e)) => Ok((i, e)),
            _ => Err(Status::BadRequest),
        },
    }
}

} // verus!
