//! Users, posts and comments, and the rules on who may see or change them.

use vstd::prelude::*;
use crate::text::{after_last, decimal, decimal_i64, last_segment, chars_of, push_all, push_str, string_of};

verus! {

/// Settings of the running service.
pub struct Config {
    /// The secret that session tokens are signed and checked with.
    pub session_secret: Vec<u8>,
    pub discord_id: String,
    pub discord_secret: String,
    pub cloudflare_image_token: String,
    pub cloudflare_account_id: String,
    /// The ids of the administrators.
    pub admins: Vec<i64>,
}

/// An account, as stored.
#[derive(Clone, Debug, PartialEq)]
pub struct User {
    pub id: i64,
    pub name: String,
    pub avatar: String,
    pub display_name: Option<String>,
    pub public_likes: bool,
    pub show_explicit: bool,
    pub theme: i32,
}

/// The claims of a session token.
#[derive(Clone, Copy, Debug, PartialEq, Eq, Structural)]
pub struct Token {
    /// Expiry, Unix time in seconds.
    pub exp: i64,
    pub user_id: i64,
}

/// Status codes the service answers with.
#[derive(Clone, Copy, Debug, PartialEq, Eq, Structural)]
pub enum Status {
    Success,
    PartialContent,
    BadRequest,
    Unauthorized,
    Forbidden,
    NotFound,
    Conflict,
    TooManyRequests,
    InternalServerError,
}

impl Status {
    /// The HTTP status code.
    pub fn code(&self) -> (c: u16)
        ensures
            c == match *self {
                Status::Success => 200u16,
                Status::PartialContent => 206u16,
                Status::BadRequest => 400u16,
                Status::Unauthorized => 401u16,
                Status::Forbidden => 403u16,
                Status::NotFound => 404u16,
                Status::Conflict => 409u16,
                Status::TooManyRequests => 429u16,
                Status::InternalServerError => 500u16,
            },
    {
        match self {
            Status::Success => 200,
            Status::PartialContent => 206,
            Status::BadRequest => 400,
            Status::Unauthorized => 401,
            Status::Forbidden => 403,
            Status::NotFound => 404,
            Status::Conflict => 409,
            Status::TooManyRequests => 429,
            Status::InternalServerError => 500,
        }
    }
}

/// Whether two optional strings are equal.
pub fn same_option_string(a: &Option<String>, b: &Option<String>) -> (r: bool)
    ensures
        r == (a.is_none() && b.is_none() || (a.is_some() && b.is_some() && a.unwrap()@ == b.unwrap()@)),
{
    match (a, b) {
        (None, None) => true,
        (Some(x), Some(y)) => x.eq(y),
        _ => false,
    }
}

/// Field-wise equality of users, over the strings' contents.
pub open spec fn same_user_spec(a: User, b: User) -> bool {
    &&& a.id == b.id
    &&& a.name@ == b.name@
    &&& a.avatar@ == b.avatar@
    &&& (a.display_name.is_none() && b.display_name.is_none() || (a.display_name.is_some()
        && b.display_name.is_some() && a.display_name.unwrap()@ == b.display_name.unwrap()@))
    &&& a.public_likes == b.public_likes
    &&& a.show_explicit == b.show_explicit
    &&& a.theme == b.theme
}

/// `a == b` for users: every field equal.
pub fn same_user(a: &User, b: &User) -> (r: bool)
    ensures
        r == same_user_spec(*a, *b),
{
    a.id == b.id && a.name == b.name && a.avatar == b.avatar && same_option_string(
        &a.display_name,
        &b.display_name,
    ) && a.public_likes == b.public_likes && a.show_explicit == b.show_explicit && a.theme
        == b.theme
}

/// `users.contains(user)`.
pub fn contains_user(users: &Vec<User>, user: &User) -> (r: bool)
    ensures
        r == exists|k: int| 0 <= k < users@.len() && same_user_spec(#[trigger] users@[k], *user),
{
    let mut i: usize = 0;
    while i < users.len()
        invariant
            i <= users.len(),
            forall|k: int| 0 <= k < i ==> !same_user_spec(#[trigger] users@[k], *user),
        decreases users.len() - i,
    {
        if same_user(&users[i], user) {
            return true;
        }
        i = i + 1;
    }
    false
}

/// Some user in `users` has the id `id`.
pub open spec fn has_user_id(users: Seq<User>, id: i64) -> bool {
    exists|k: int| 0 <= k < users.len() && (#[trigger] users[k]).id == id
}

/// `users.iter().any(|u| u.id == id)`.
pub fn any_user_id(users: &Vec<User>, id: i64) -> (r: bool)
    ensures
        r == has_user_id(users@, id),
{
    let mut i: usize = 0;
    while i < users.len()
        invariant
            i <= users.len(),
            forall|k: int| 0 <= k < i ==> (#[trigger] users@[k]).id != id,
        decreases users.len() - i,
    {
        if users[i].id == id {
            assert(users@[i as int].id == id);
            return true;
        }
        i = i + 1;
    }
    false
}

/// `v.contains(&x)`.
pub fn contains_i64(v: &Vec<i64>, x: i64) -> (b: bool)
    ensures
        b == v@.contains(x),
{
    let mut i: usize = 0;
    while i < v.len()
        invariant
            i <= v.len(),
            forall|j: int| 0 <= j < i ==> v@[j] != x,
        decreases v.len() - i,
    {
        if v[i] == x {
            assert(v@[i as int] == x);
            return true;
        }
        i = i + 1;
    }
    false
}

impl User {
    /// Whether this user is one of the administrators of `config`.
    pub fn is_admin(&self, config: &Config) -> (r: bool)
        ensures
            r == config.admins@.contains(self.id),
    {
        contains_i64(&config.admins, self.id)
    }
}

/// The kinds of post.
#[derive(Clone, Copy, Debug, PartialEq, Eq, Structural)]
pub enum PostType {
    Plugin,
    Module,
    Song,
    Ui,
    Other,
}

/// The kind a stored number stands for: 0 to 3 name plugins, modules, songs
/// and UI mods; every other number stands for other posts.
pub open spec fn post_type_of(value: i32) -> PostType {
    if value == 0 {
        PostType::Plugin
    } else if value == 1 {
        PostType::Module
    } else if value == 2 {
        PostType::Song
    } else if value == 3 {
        PostType::Ui
    } else {
        PostType::Other
    }
}

/// The number a kind is stored as.
pub open spec fn post_type_number(t: PostType) -> i32 {
    match t {
        PostType::Plugin => 0,
        PostType::Module => 1,
        PostType::Song => 2,
        PostType::Ui => 3,
        PostType::Other => 4,
    }
}

/// The name a kind is shown as.
pub open spec fn post_type_name(t: PostType) -> Seq<char> {
    match t {
        PostType::Plugin => "Plugin"@,
        PostType::Module => "Module"@,
        PostType::Song => "Song"@,
        PostType::Ui => "UI"@,
        PostType::Other => "Other"@,
    }
}

impl From<i32> for PostType {
    /// The kind stored as `value`.
    fn from(value: i32) -> (t: PostType) {
        if value == 0 {
            PostType::Plugin
        } else if value == 1 {
            PostType::Module
        } else if value == 2 {
            PostType::Song
        } else if value == 3 {
            PostType::Ui
        } else {
            PostType::Other
        }
    }
}

impl vstd::std_specs::convert::FromSpecImpl<i32> for PostType {
    open spec fn obeys_from_spec() -> bool {
        true
    }

    open spec fn from_spec(v: i32) -> PostType {
        post_type_of(v)
    }
}

impl PostType {
    /// The number this kind is stored as.
    pub fn as_i32(&self) -> (n: i32)
        ensures
            n == post_type_number(*self),
    {
        match self {
            PostType::Plugin => 0,
            PostType::Module => 1,
            PostType::Song => 2,
            PostType::Ui => 3,
            PostType::Other => 4,
        }
    }

    /// The name this kind is shown as (what `Display` writes).
    pub fn to_string(&self) -> (s: String)
        ensures
            s@ == post_type_name(*self),
    {
        let s = match self {
            PostType::Plugin => "Plugin",
            PostType::Module => "Module",
            PostType::Song => "Song",
            PostType::Ui => "UI",
            PostType::Other => "Other",
        };
        String::from_str(s)
    }
}

/// Storing a kind and reading it back gives the same kind.
pub proof fn post_type_round_trip(t: PostType)
    ensures
        post_type_of(post_type_number(t)) == t,
{
}


/// A comment on a post. Two comments are equal when their ids are.
#[derive(Clone, Debug)]
pub struct Comment {
    pub id: i32,
    pub user: User,
    pub text: String,
    /// Unix time in nanoseconds.
    pub time: i128,
}

impl PartialEq for Comment {
    fn eq(&self, other: &Self) -> (r: bool) {
        self.id == other.id
    }
}

impl vstd::std_specs::cmp::PartialEqSpecImpl for Comment {
    open spec fn obeys_eq_spec() -> bool {
        true
    }

    open spec fn eq_spec(&self, other: &Self) -> bool {
        self.id == other.id
    }
}

/// Where a comment goes in the tree of a post's comments.
#[derive(Clone, Copy, Debug, PartialEq, Eq, Structural)]
pub enum Placement {
    /// Directly under the post.
    Top,
    /// Under the earlier comment at this position.
    Reply(usize),
    /// Nowhere: its parent was not placed before it.
    Dropped,
}

/// A comment's id and the id of the comment it answers, in the order read.
#[derive(Clone, Copy, Debug, PartialEq, Eq, Structural)]
pub struct CommentLink {
    pub id: i32,
    pub parent: Option<i32>,
}

/// The last of the first `n` comments that has id `p` and was placed.
pub open spec fn latest_placed(placed: Seq<Placement>, earlier: Seq<CommentLink>, p: i32, n: int) -> Option<int>
    decreases n,
{
    if n <= 0 {
        None
    } else if earlier[n - 1].id == p && placed[n - 1] != Placement::Dropped {
        Some(n - 1)
    } else {
        latest_placed(placed, earlier, p, n - 1)
    }
}

/// Where each comment goes, read in order: a comment without a parent goes
/// under the post; one with a parent goes under the latest placed comment
/// with that id, and is dropped when there is none.
pub open spec fn placements(c: Seq<CommentLink>) -> Seq<Placement>
    decreases c.len(),
{
    if c.len() == 0 {
        Seq::empty()
    } else {
        let earlier = c.drop_last();
        let prev = placements(earlier);
        let here = match c.last().parent {
            None => Placement::Top,
            Some(p) => match latest_placed(prev, earlier, p, earlier.len() as int) {
                Some(j) => Placement::Reply(j as usize),
                None => Placement::Dropped,
            },
        };
        prev.push(here)
    }
}

proof fn placements_len(c: Seq<CommentLink>)
    ensures
        placements(c).len() == c.len(),
    decreases c.len(),
{
    if c.len() > 0 {
        placements_len(c.drop_last());
    }
}

proof fn latest_placed_bounds(placed: Seq<Placement>, earlier: Seq<CommentLink>, p: i32, n: int)
    ensures
        latest_placed(placed, earlier, p, n) matches Some(j) ==> 0 <= j < n && earlier[j].id == p
            && placed[j] != Placement::Dropped,
    decreases n,
{
    if n > 0 {
        latest_placed_bounds(placed, earlier, p, n - 1);
    }
}

/// Places the comments of a post, read oldest first, into its tree.
pub fn place_comments(comments: &Vec<CommentLink>) -> (r: Vec<Placement>)
    ensures
        r@ == placements(comments@),
        forall|k: int|
            0 <= k < r@.len() ==> (#[trigger] r@[k] matches Placement::Reply(j) ==> j < k && comments@[j as int].id
                == comments@[k].parent.unwrap() && r@[j as int] != Placement::Dropped),
{
    let mut r: Vec<Placement> = Vec::new();
    let mut k: usize = 0;
    while k < comments.len()
        invariant
            k <= comments.len(),
            r@ == placements(comments@.subrange(0, k as int)),
            r@.len() == k,
            forall|i: int|
                0 <= i < r@.len() ==> (#[trigger] r@[i] matches Placement::Reply(j) ==> j < i && comments@[j as int].id
                    == comments@[i].parent.unwrap() && r@[j as int] != Placement::Dropped),
        decreases comments.len() - k,
    {
        let c = comments[k];
        let ghost earlier = comments@.subrange(0, k as int);
        proof {
            assert(comments@.subrange(0, k + 1).drop_last() =~= earlier);
            assert(comments@.subrange(0, k + 1).last() == c);
        }
        let here = match c.parent {
            None => Placement::Top,
            Some(p) => {
                let mut n: usize = k;
                while n > 0 && !(comments[n - 1].id == p && r[n - 1] != Placement::Dropped)
                    invariant
                        n <= k,
                        k < comments.len(),
                        earlier == comments@.subrange(0, k as int),
                        r@.len() == k,
                        latest_placed(r@, earlier, p, k as int) == latest_placed(r@, earlier, p, n as int),
                    decreases n,
                {
                    assert(earlier[n - 1] == comments@[n - 1]);
                    n = n - 1;
                }
                proof {
                    latest_placed_bounds(r@, earlier, p, k as int);
                }
                if n == 0 {
                    Placement::Dropped
                } else {
                    assert(earlier[n - 1] == comments@[n - 1]);
                    Placement::Reply(n - 1)
                }
            },
        };
        r.push(here);
        k = k + 1;
    }
    assert(comments@.subrange(0, comments.len() as int) =~= comments@);
    r
}

#[verifier::external_type_specification]
#[verifier::external_body]
#[verifier::reject_recursive_types(T)]
pub struct ExTree<T>(slab_tree::Tree<T>);

#[verifier::external_type_specification]
#[verifier::external_body]
pub struct ExNodeId(slab_tree::NodeId);

/// The nodes of a tree of comments, slot by slot: each node's comment id and
/// the slot of its parent node (-1 for the root).
pub uninterp spec fn comment_tree_nodes(t: slab_tree::Tree<Comment>) -> Seq<(i32, int)>;

/// Whether the tree's storage holds a slot freed by a removal (such a slot
/// is filled first by the next node added).
pub uninterp spec fn comment_tree_has_free_slot(t: slab_tree::Tree<Comment>) -> bool;

/// The handle that names the node in slot `slot` of the tree.
pub uninterp spec fn comment_tree_handle(t: slab_tree::Tree<Comment>, slot: int) -> slab_tree::NodeId;

/// Trusted: `TreeBuilder::new().with_root(root).build()` and `root_id()`.
/// The builder makes a fresh storage and puts the root in its first slot;
/// `root_id` hands out that slot's handle.
#[verifier::external_body]
fn new_comment_tree(root: Comment) -> (r: (slab_tree::Tree<Comment>, Option<slab_tree::NodeId>))
    ensures
        comment_tree_nodes(r.0) == seq![(root.id, -1int)],
        !comment_tree_has_free_slot(r.0),
        r.1 == Some(comment_tree_handle(r.0, 0)),
{
    let tree = slab_tree::TreeBuilder::new().with_root(root).build();
    let root_id = tree.root_id();
    (tree, root_id)
}

/// Trusted: `tree.get_mut(parent)` and, when it finds the node,
/// `append(comment).node_id()`. With no freed slot, the new node takes the
/// next slot of the storage as the parent's last child, and the handles of
/// the other slots stay as they were; `get_mut` finds every node that a
/// handle of this tree names.
#[verifier::external_body]
fn append_comment(tree: &mut slab_tree::Tree<Comment>, parent: slab_tree::NodeId, comment: Comment) -> (r: Option<slab_tree::NodeId>)
    requires
        !comment_tree_has_free_slot(*old(tree)),
    ensures
        !comment_tree_has_free_slot(*final(tree)),
        forall|j: int|
            0 <= j < comment_tree_nodes(*old(tree)).len() ==> #[trigger] comment_tree_handle(*final(tree), j)
                == comment_tree_handle(*old(tree), j),
        forall|j: int|
            0 <= j < comment_tree_nodes(*old(tree)).len() && parent == #[trigger] comment_tree_handle(*old(tree), j) ==> {
                &&& r == Some(comment_tree_handle(*final(tree), comment_tree_nodes(*old(tree)).len() as int))
                &&& comment_tree_nodes(*final(tree)) == comment_tree_nodes(*old(tree)).push((comment.id, j))
            },
        r is None ==> comment_tree_nodes(*final(tree)) == comment_tree_nodes(*old(tree)),
{
    match tree.get_mut(parent) {
        Some(mut node) => Some(node.append(comment).node_id()),
        None => None,
    }
}

/// The nodes of the tree of a post's comments after the first `n` comments
/// are placed: the root, then each placed comment with the slot of its parent
/// (the root's for a top comment, the slot its parent comment took for a reply).
pub open spec fn comment_layout(root: i32, ids: Seq<i32>, placed: Seq<Placement>, n: int) -> Seq<(i32, int)>
    decreases n,
{
    if n <= 0 {
        seq![(root, -1int)]
    } else {
        let prev = comment_layout(root, ids, placed, n - 1);
        match placed[n - 1] {
            Placement::Top => prev.push((ids[n - 1], 0int)),
            Placement::Reply(j) => if (j as int) < n - 1 {
                prev.push((ids[n - 1], comment_layout(root, ids, placed, j as int).len() as int))
            } else {
                prev
            },
            Placement::Dropped => prev,
        }
    }
}

proof fn comment_layout_grows(root: i32, ids: Seq<i32>, placed: Seq<Placement>, j: int, n: int)
    requires
        0 <= j < n,
        placed[j] != Placement::Dropped,
        placed[j] matches Placement::Reply(p) ==> p < j,
    ensures
        comment_layout(root, ids, placed, j).len() < comment_layout(root, ids, placed, n).len(),
        comment_layout(root, ids, placed, j).len() >= 1,
    decreases n,
{
    if n - 1 > j {
        comment_layout_grows(root, ids, placed, j, n - 1);
    }
    comment_layout_len(root, ids, placed, j);
}

proof fn comment_layout_len(root: i32, ids: Seq<i32>, placed: Seq<Placement>, n: int)
    ensures
        comment_layout(root, ids, placed, n).len() >= 1,
    decreases n,
{
    if n > 0 {
        comment_layout_len(root, ids, placed, n - 1);
    }
}

/// The ids of the comments, in order.
pub open spec fn comment_ids(comments: Seq<Comment>) -> Seq<i32> {
    comments.map_values(|c: Comment| c.id)
}

/// The links of the comments, in order.
pub open spec fn comment_links(comments: Seq<Comment>, parents: Seq<Option<i32>>) -> Seq<CommentLink> {
    Seq::new(comments.len(), |k: int| CommentLink { id: comments[k].id, parent: parents[k] })
}

/// The tree of a post's comments, read oldest first with the id of the
/// comment each answers: under `root`, each comment goes where
/// `placements` puts it, and a comment that cannot be placed is left out.
pub fn comment_tree(root: Comment, comments: Vec<Comment>, parents: &Vec<Option<i32>>) -> (t: slab_tree::Tree<Comment>)
    requires
        parents.len() == comments.len(),
    ensures
        comment_tree_nodes(t) == comment_layout(
            root.id,
            comment_ids(comments@),
            placements(comment_links(comments@, parents@)),
            comments@.len() as int,
        ),
{
    let mut links: Vec<CommentLink> = Vec::new();
    let mut i: usize = 0;
    while i < comments.len()
        invariant
            i <= comments.len(),
            parents.len() == comments.len(),
            links@ == comment_links(comments@, parents@).subrange(0, i as int),
        decreases comments.len() - i,
    {
        links.push(CommentLink { id: comments[i].id, parent: parents[i] });
        i = i + 1;
        assert(links@ =~= comment_links(comments@, parents@).subrange(0, i as int));
    }
    assert(links@ =~= comment_links(comments@, parents@));
    let placed = place_comments(&links);
    proof {
        placements_len(links@);
    }
    let ghost ids = comment_ids(comments@);
    let ghost root_id = root.id;

    let (mut tree, root_handle) = new_comment_tree(root);
    let root_handle = match root_handle {
        Some(h) => h,
        None => {
            assert(false);
            return tree;
        },
    };
    let mut handles: Vec<Option<slab_tree::NodeId>> = Vec::new();
    let mut comments = comments;
    let mut rest: Vec<Comment> = Vec::new();
    while comments.len() > 0
        invariant
            comments@.len() + rest@.len() == ids.len(),
            forall|m: int| 0 <= m < comments@.len() ==> #[trigger] comments@[m].id == ids[m],
            forall|m: int| 0 <= m < rest@.len() ==> #[trigger] rest@[m].id == ids[ids.len() - 1 - m],
        decreases comments.len(),
    {
        let c = comments.pop().unwrap();
        rest.push(c);
    }
    let mut k: usize = 0;
    let n = placed.len();
    while k < n
        invariant
            k <= n,
            n == placed@.len(),
            n == ids.len(),
            rest@.len() == n - k,
            forall|m: int| 0 <= m < rest@.len() ==> #[trigger] rest@[m].id == ids[n - 1 - m],
            placed@ == placements(links@),
            forall|a: int|
                0 <= a < placed@.len() ==> (#[trigger] placed@[a] matches Placement::Reply(j) ==> j < a
                    && placed@[j as int] != Placement::Dropped),
            !comment_tree_has_free_slot(tree),
            comment_tree_nodes(tree) == comment_layout(root_id, ids, placed@, k as int),
            root_handle == comment_tree_handle(tree, 0),
            handles@.len() == k,
            forall|a: int|
                0 <= a < k && placed@[a] != Placement::Dropped ==> #[trigger] handles@[a] == Some(
                    comment_tree_handle(tree, comment_layout(root_id, ids, placed@, a).len() as int),
                ),
        decreases n - k,
    {
        let comment = rest.pop().unwrap();
        proof {
            comment_layout_len(root_id, ids, placed@, k as int);
        }
        let parent = match placed[k] {
            Placement::Top => Some(root_handle),
            Placement::Reply(j) => {
                proof {
                    comment_layout_grows(root_id, ids, placed@, j as int, k as int);
                }
                handles[j]
            },
            Placement::Dropped => None,
        };
        let h = match parent {
            Some(p) => append_comment(&mut tree, p, comment),
            None => None,
        };
        proof {
            assert forall|a: int|
                0 <= a < k && placed@[a] != Placement::Dropped implies #[trigger] handles@[a] == Some(
                    comment_tree_handle(tree, comment_layout(root_id, ids, placed@, a).len() as int),
                ) by {
                comment_layout_grows(root_id, ids, placed@, a, k as int);
            }
        }
        handles.push(h);
        k = k + 1;
    }
    tree
}

/// The download link of file `index` of post `post_id`.
pub open spec fn download_url(post_id: int, index: int) -> Seq<char> {
    "https://divamodarchive.com/api/v1/posts/"@ + decimal(post_id) + "/download/"@ + decimal(index)
}

/// `format!("https://divamodarchive.com/api/v1/posts/{post_id}/download/{index}")`.
pub fn download_link(post_id: i32, index: usize) -> (s: String)
    requires
        index <= i64::MAX,
    ensures
        s@ == download_url(post_id as int, index as int),
{
    let mut v: Vec<char> = Vec::new();
    push_str(&mut v, "https://divamodarchive.com/api/v1/posts/");
    let id = decimal_i64(post_id as i64);
    push_all(&mut v, &id);
    push_str(&mut v, "/download/");
    let i = decimal_i64(index as i64);
    push_all(&mut v, &i);
    string_of(&v)
}

/// A post as shown: its files are listed as download links, and its stored
/// file paths by their last segment.
pub open spec fn shown_files(id: int, files: Seq<String>, local: Seq<String>, files_after: Seq<String>, local_after: Seq<String>) -> bool {
    &&& files_after.len() == files.len()
    &&& local_after.len() == local.len()
    &&& forall|i: int| 0 <= i < files.len() ==> (#[trigger] files_after[i])@ == download_url(id, i)
    &&& forall|i: int| 0 <= i < files.len() ==> (#[trigger] local_after[i])@ == after_last(local[i]@, '/')
    &&& forall|i: int| files.len() <= i < local.len() ==> #[trigger] local_after[i] == local[i]
}

/// A post.
#[derive(Debug)]
pub struct Post {
    pub id: i32,
    pub name: String,
    pub text: String,
    pub images: Vec<String>,
    /// Public download links of the files.
    pub files: Vec<String>,
    /// Where the files are stored.
    pub local_files: Vec<String>,
    /// Unix time in nanoseconds.
    pub time: i128,
    pub post_type: PostType,
    pub download_count: i64,
    pub like_count: i64,
    pub authors: Vec<User>,
    pub dependencies: Option<Vec<Post>>,
    pub comments: Option<slab_tree::Tree<Comment>>,
    pub explicit: bool,
}

impl Post {
    /// Replaces each file by the service's own download link for it, and each
    /// stored path by its last segment (`split("/").last()`).
    pub fn link_files(&mut self)
        requires
            old(self).local_files.len() >= old(self).files.len(),
            old(self).files.len() <= i64::MAX,
        ensures
            shown_files(
                old(self).id as int,
                old(self).files@,
                old(self).local_files@,
                final(self).files@,
                final(self).local_files@,
            ),
            final(self).id == old(self).id,
            final(self).name == old(self).name,
            final(self).text == old(self).text,
            final(self).images == old(self).images,
            final(self).time == old(self).time,
            final(self).post_type == old(self).post_type,
            final(self).download_count == old(self).download_count,
            final(self).like_count == old(self).like_count,
            final(self).authors == old(self).authors,
            final(self).dependencies == old(self).dependencies,
            final(self).comments == old(self).comments,
            final(self).explicit == old(self).explicit,
    {
        let n = self.files.len();
        let mut i: usize = 0;
        while i < n
            invariant
                n == old(self).files.len(),
                i <= n,
                self.id == old(self).id,
                self.name == old(self).name,
                self.text == old(self).text,
                self.images == old(self).images,
                self.time == old(self).time,
                self.post_type == old(self).post_type,
                self.download_count == old(self).download_count,
                self.like_count == old(self).like_count,
                self.authors == old(self).authors,
                self.dependencies == old(self).dependencies,
                self.comments == old(self).comments,
                self.explicit == old(self).explicit,
                self.files.len() == n,
                self.local_files.len() == old(self).local_files.len(),
                n <= self.local_files.len(),
                n <= i64::MAX,
                forall|j: int| 0 <= j < i ==> (#[trigger] self.files@[j])@ == download_url(self.id as int, j),
                forall|j: int| 0 <= j < i ==> (#[trigger] self.local_files@[j])@ == after_last(old(self).local_files@[j]@, '/'),
                forall|j: int| i <= j < self.local_files.len() ==> #[trigger] self.local_files@[j] == old(self).local_files@[j],
            decreases n - i,
        {
            let link = download_link(self.id, i);
            self.files.set(i, link);
            let path = chars_of(self.local_files[i].as_str());
            let seg = last_segment(&path, '/');
            let seg_string = string_of(&seg);
            self.local_files.set(i, seg_string);
            i = i + 1;
        }
    }
}

} // verus!
