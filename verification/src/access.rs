//! Who may do what: the checks the service makes before it changes a post,
//! a comment or an author list, and before it shows a page.

use vstd::prelude::*;
use crate::models::{any_user_id, contains_user, has_user_id, same_user_spec, Config, Post, Status, User};

verus! {

/// The ids listed as authors of a post include `user_id`.
pub fn lists_author(author_ids: &Vec<i64>, user_id: i64) -> (r: bool)
    ensures
        r == author_ids@.contains(user_id),
{
    crate::models::contains_i64(author_ids, user_id)
}

/// The check before editing a post's name, text and kind: the request must
/// name a post, and the user must be one of its authors; both failures
/// answer `BadRequest`.
pub fn edit_permission(post_id: Option<i32>, author_ids: &Vec<i64>, user: &User) -> (r: Result<i32, Status>)
    ensures
        r == (match post_id {
            None => Err(Status::BadRequest),
            Some(id) => if author_ids@.contains(user.id) {
                Ok(id)
            } else {
                Err(Status::BadRequest)
            },
        }),
{
    match post_id {
        None => Err(Status::BadRequest),
        Some(id) => {
            if lists_author(author_ids, user.id) {
                Ok(id)
            } else {
                Err(Status::BadRequest)
            }
        },
    }
}

/// The check before deleting a post: an author or an administrator may.
pub fn delete_post_permission(post: &Post, user: &User, config: &Config) -> (r: Result<(), Status>)
    ensures
        r is Ok <==> has_user_id(post.authors@, user.id) || config.admins@.contains(user.id),
        r matches Err(e) ==> e == Status::Unauthorized,
{
    if !any_user_id(&post.authors, user.id) && !user.is_admin(config) {
        return Err(Status::Unauthorized);
    }
    Ok(())
}

/// Some author of the post has the name `name`.
pub open spec fn has_author_named(authors: Seq<User>, name: Seq<char>) -> bool {
    exists|k: int| 0 <= k < authors.len() && (#[trigger] authors[k]).name@ == name
}

/// The check before adding an author: only an author may add one
/// (`Unauthorized`), and not a name already listed (`BadRequest`).
pub fn add_author_permission(post: &Post, user: &User, new_author: &String) -> (r: Result<(), Status>)
    ensures
        r == (if !has_user_id(post.authors@, user.id) {
            Err(Status::Unauthorized)
        } else if has_author_named(post.authors@, new_author@) {
            Err(Status::BadRequest)
        } else {
            Ok(())
        }),
{
    if !any_user_id(&post.authors, user.id) {
        return Err(Status::Unauthorized);
    }
    let mut i: usize = 0;
    while i < post.authors.len()
        invariant
            i <= post.authors.len(),
            has_user_id(post.authors@, user.id),
            forall|k: int| 0 <= k < i ==> (#[trigger] post.authors@[k]).name@ != new_author@,
        decreases post.authors.len() - i,
    {
        if post.authors[i].name.eq(new_author) {
            assert(post.authors@[i as int].name@ == new_author@);
            return Err(Status::BadRequest);
        }
        i = i + 1;
    }
    Ok(())
}

/// The answer to a request to record a dependency, given whether the
/// requester authors the post and the two lookups of the link (`None` when a
/// lookup failed).
pub open spec fn dependency_verdict(is_author: bool, forward: Option<bool>, backward: Option<bool>) -> Result<(), Status> {
    if !is_author {
        Err(Status::Unauthorized)
    } else if forward != Some(false) || backward != Some(false) {
        Err(Status::BadRequest)
    } else {
        Ok(())
    }
}

/// The recorded dependencies after one request `(post, dependency,
/// by_author, forward_lookup_ok, backward_lookup_ok)`: the link is added
/// exactly when the check lets it through.
pub open spec fn record_dependency(deps: Set<(i32, i32)>, req: (i32, i32, bool, bool, bool)) -> Set<(i32, i32)> {
    let (p, d, by_author, forward_ok, backward_ok) = req;
    let forward = if forward_ok { Some(deps.contains((p, d))) } else { None };
    let backward = if backward_ok { Some(deps.contains((d, p))) } else { None };
    if dependency_verdict(by_author, forward, backward) is Ok {
        deps.insert((p, d))
    } else {
        deps
    }
}

/// The recorded dependencies after a sequence of requests, in order.
pub open spec fn record_dependencies(deps: Set<(i32, i32)>, reqs: Seq<(i32, i32, bool, bool, bool)>) -> Set<(i32, i32)>
    decreases reqs.len(),
{
    if reqs.len() == 0 {
        deps
    } else {
        record_dependency(record_dependencies(deps, reqs.drop_last()), reqs.last())
    }
}

/// No two distinct posts depend on each other.
pub open spec fn no_mutual_dependency(deps: Set<(i32, i32)>) -> bool {
    forall|a: i32, b: i32| a != b && #[trigger] deps.contains((a, b)) ==> !deps.contains((b, a))
}

proof fn record_dependency_keeps(deps: Set<(i32, i32)>, req: (i32, i32, bool, bool, bool))
    requires
        no_mutual_dependency(deps),
    ensures
        no_mutual_dependency(record_dependency(deps, req)),
{
    let (p, d, by_author, forward_ok, backward_ok) = req;
    let after = record_dependency(deps, req);
    assert forall|a: i32, b: i32| a != b && #[trigger] after.contains((a, b)) implies !after.contains((b, a)) by {
        if after.contains((b, a)) && after != deps {
            assert(!deps.contains((p, d)) && !deps.contains((d, p)));
            if (a, b) == (p, d) {
                assert(deps.contains((b, a)));
            } else if (b, a) == (p, d) {
                assert(deps.contains((a, b)));
            } else {
                assert(deps.contains((a, b)) && deps.contains((b, a)));
            }
        }
    }
}

/// Whatever requests to record dependencies come, one after another, no two
/// posts end up depending on each other, if none did before.
pub proof fn dependencies_never_mutual(deps: Set<(i32, i32)>, reqs: Seq<(i32, i32, bool, bool, bool)>)
    requires
        no_mutual_dependency(deps),
    ensures
        no_mutual_dependency(record_dependencies(deps, reqs)),
    decreases reqs.len(),
{
    if reqs.len() > 0 {
        dependencies_never_mutual(deps, reqs.drop_last());
        record_dependency_keeps(record_dependencies(deps, reqs.drop_last()), reqs.last());
    }
}

/// Two distinct posts depend on each other in `deps`.
pub open spec fn mutual_in(deps: Set<(i32, i32)>, a: i32, b: i32) -> bool {
    a != b && deps.contains((a, b)) && deps.contains((b, a))
}

proof fn record_dependency_adds_no_mutual(deps: Set<(i32, i32)>, req: (i32, i32, bool, bool, bool))
    ensures
        forall|a: i32, b: i32| #[trigger] mutual_in(record_dependency(deps, req), a, b) ==> mutual_in(deps, a, b),
{
    let (p, d, by_author, forward_ok, backward_ok) = req;
    let after = record_dependency(deps, req);
    assert forall|a: i32, b: i32| #[trigger] mutual_in(after, a, b) implies mutual_in(deps, a, b) by {
        if after != deps {
            assert(!deps.contains((p, d)) && !deps.contains((d, p)));
            if (a, b) == (p, d) {
                assert(deps.contains((b, a)));
            } else if (b, a) == (p, d) {
                assert(deps.contains((a, b)));
            }
        }
    }
}

/// Whatever requests to record dependencies come, one after another, none
/// makes two posts depend on each other: every pair of posts that depend on
/// each other afterwards already did before.
pub proof fn dependencies_add_no_mutual_pair(deps: Set<(i32, i32)>, reqs: Seq<(i32, i32, bool, bool, bool)>)
    ensures
        forall|a: i32, b: i32| #[trigger] mutual_in(record_dependencies(deps, reqs), a, b) ==> mutual_in(deps, a, b),
    decreases reqs.len(),
{
    if reqs.len() > 0 {
        dependencies_add_no_mutual_pair(deps, reqs.drop_last());
        record_dependency_adds_no_mutual(record_dependencies(deps, reqs.drop_last()), reqs.last());
    }
}

/// The check before recording that `post` depends on another post: only an
/// author may (`Unauthorized`); the dependency must not be recorded yet in
/// either direction, and a failed lookup counts as recorded (`BadRequest`).
/// `forward` and `backward` are the lookups, `None` when they failed.
pub fn add_dependency_permission(post: &Post, user: &User, forward: Option<bool>, backward: Option<bool>) -> (r: Result<(), Status>)
    ensures
        r == dependency_verdict(has_user_id(post.authors@, user.id), forward, backward),
{
    if !any_user_id(&post.authors, user.id) {
        return Err(Status::Unauthorized);
    }
    if match forward {
        None => true,
        Some(found) => found,
    } {
        return Err(Status::BadRequest);
    }
    if match backward {
        None => true,
        Some(found) => found,
    } {
        return Err(Status::BadRequest);
    }
    Ok(())
}

/// The check before deleting a comment: its writer or an administrator may.
pub fn delete_comment_permission(comment_user_id: i64, user: &User, config: &Config) -> (r: Result<(), Status>)
    ensures
        r is Ok <==> user.id == comment_user_id || config.admins@.contains(user.id),
        r matches Err(e) ==> e == Status::Unauthorized,
{
    if user.id != comment_user_id && !user.is_admin(config) {
        return Err(Status::Unauthorized);
    }
    Ok(())
}

/// Whether a visitor sees explicit posts: only a signed-in user who chose to.
pub fn show_explicit(viewer: &Option<User>) -> (r: bool)
    ensures
        r == (viewer is Some && viewer.unwrap().show_explicit),
{
    match viewer {
        Some(user) => user.show_explicit,
        None => false,
    }
}

/// Whether a visitor may see the posts that `owner` liked: when the owner
/// made their likes public, or the visitor is the owner.
pub fn liked_page_visible(owner: &User, viewer: &Option<User>) -> (r: bool)
    ensures
        r == (owner.public_likes || (viewer is Some && viewer.unwrap().id == owner.id)),
{
    if owner.public_likes {
        return true;
    }
    match viewer {
        Some(user) => user.id == owner.id,
        None => false,
    }
}

/// Whether a visitor may see a post: explicit posts only to those who chose to see them.
pub fn post_visible(post: &Post, viewer: &Option<User>) -> (r: bool)
    ensures
        r == (!post.explicit || (viewer is Some && viewer.unwrap().show_explicit)),
{
    !post.explicit || show_explicit(viewer)
}

/// Whether the visitor is an author of the post.
pub fn is_author(post: &Post, viewer: &Option<User>) -> (r: bool)
    ensures
        r == (viewer is Some && has_user_id(post.authors@, viewer.unwrap().id)),
{
    match viewer {
        Some(user) => any_user_id(&post.authors, user.id),
        None => false,
    }
}

/// Whether `user` may open the edit page of a post: they must be listed as
/// one of its authors, every field equal.
pub fn may_update(post: &Post, user: &User) -> (r: bool)
    ensures
        r == exists|k: int| 0 <= k < post.authors@.len() && same_user_spec(#[trigger] post.authors@[k], *user),
{
    contains_user(&post.authors, user)
}

/// The sums of the like counts and of the download counts of `posts`.
pub open spec fn totals(posts: Seq<Post>) -> (int, int)
    decreases posts.len(),
{
    if posts.len() == 0 {
        (0, 0)
    } else {
        let t = totals(posts.drop_last());
        (t.0 + posts.last().like_count, t.1 + posts.last().download_count)
    }
}

/// Every running sum of likes and of downloads fits in `i64`.
pub open spec fn totals_in_range(posts: Seq<Post>) -> bool {
    forall|k: int|
        0 <= k <= posts.len() ==> i64::MIN <= #[trigger] totals(posts.subrange(0, k)).0 <= i64::MAX
            && i64::MIN <= totals(posts.subrange(0, k)).1 <= i64::MAX
}

/// The total likes and downloads of a user's posts, shown on their page.
pub fn user_totals(posts: &Vec<Post>) -> (r: (i64, i64))
    requires
        totals_in_range(posts@),
    ensures
        r.0 == totals(posts@).0,
        r.1 == totals(posts@).1,
{
    let mut likes: i64 = 0;
    let mut downloads: i64 = 0;
    let mut i: usize = 0;
    assert(posts@.subrange(0, 0) =~= Seq::<Post>::empty());
    while i < posts.len()
        invariant
            i <= posts.len(),
            totals_in_range(posts@),
            likes == totals(posts@.subrange(0, i as int)).0,
            downloads == totals(posts@.subrange(0, i as int)).1,
        decreases posts.len() - i,
    {
        proof {
            assert(posts@.subrange(0, i + 1).drop_last() =~= posts@.subrange(0, i as int));
            assert(totals(posts@.subrange(0, i + 1)).0 <= i64::MAX);
            assert(i64::MIN <= totals(posts@.subrange(0, i + 1)).0);
            assert(totals(posts@.subrange(0, i + 1)).1 <= i64::MAX);
            assert(i64::MIN <= totals(posts@.subrange(0, i + 1)).1);
        }
        likes = likes + posts[i].like_count;
        downloads = downloads + posts[i].download_count;
        i = i + 1;
    }
    assert(posts@.subrange(0, posts.len() as int) =~= posts@);
    (likes, downloads)
}

/// A like is taken back when the user's likes of the post, as counted
/// (`None` when the count came back empty), are more than none.
pub open spec fn takes_back(count: Option<i64>) -> bool {
    match count {
        Some(c) => c > 0,
        None => false,
    }
}

/// Whether a like is to be taken back.
pub fn like_taken_back(count: Option<i64>) -> (r: bool)
    ensures
        r == takes_back(count),
{
    match count {
        Some(c) => c > 0,
        None => false,
    }
}

/// The likes after `user` likes `post`, given the likes before (pairs of post
/// and user): the user's likes of the post are counted (one row or none), and
/// the like is taken back when there is one, else recorded.
pub open spec fn like_once(likes: Set<(i32, i64)>, post: i32, user: i64) -> Set<(i32, i64)> {
    let count: i64 = if likes.contains((post, user)) { 1 } else { 0 };
    if takes_back(Some(count)) {
        likes.remove((post, user))
    } else {
        likes.insert((post, user))
    }
}

/// Liking toggles: one call flips whether the user likes the post, leaving
/// every other like as it was, and two calls in a row restore the likes.
pub proof fn liking_twice_restores(likes: Set<(i32, i64)>, post: i32, user: i64)
    ensures
        like_once(likes, post, user).contains((post, user)) == !likes.contains((post, user)),
        forall|p: (i32, i64)| p != (post, user) ==> (#[trigger] like_once(likes, post, user).contains(p) == likes.contains(p)),
        like_once(like_once(likes, post, user), post, user) == likes,
{
    assert(like_once(like_once(likes, post, user), post, user) =~= likes);
}

/// The file a download request names: `files.get(variant as usize)`.
pub fn download_target(files: &Vec<String>, variant: i32) -> (r: Option<&String>)
    ensures
        r matches Some(f) ==> 0 <= variant < files@.len() && *f == files@[variant as int],
        r is None ==> !(0 <= variant < files@.len()),
{
    if variant < 0 {
        return None;
    }
    let i = variant as usize;
    if i < files.len() {
        Some(&files[i])
    } else {
        None
    }
}

} // verus!
