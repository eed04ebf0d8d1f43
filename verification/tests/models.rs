use divamodarchive::models::{
    comment_tree, download_link, place_comments, same_user, Comment, CommentLink, Placement, Post, PostType, Status, User,
};

pub fn user(id: i64) -> User {
    User {
        id,
        name: format!("user{id}"),
        avatar: String::from("a.png"),
        display_name: None,
        public_likes: false,
        show_explicit: false,
        theme: 0,
    }
}

pub fn post(id: i32, authors: Vec<User>) -> Post {
    Post {
        id,
        name: String::from("Pack"),
        text: String::from("text"),
        images: vec![],
        files: vec![String::from("https://pixeldrain.com/api/filesystem/a?download")],
        local_files: vec![String::from("12/a.zip")],
        time: 0,
        post_type: PostType::Song,
        download_count: 3,
        like_count: 4,
        authors,
        dependencies: None,
        comments: None,
        explicit: false,
    }
}

#[test]
fn post_type_numbers_and_names() {
    assert_eq!(PostType::from(0), PostType::Plugin);
    assert_eq!(PostType::from(1), PostType::Module);
    assert_eq!(PostType::from(2), PostType::Song);
    assert_eq!(PostType::from(3), PostType::Ui);
    assert_eq!(PostType::from(4), PostType::Other);
    assert_eq!(PostType::from(99), PostType::Other);
    assert_eq!(PostType::Ui.to_string(), "UI");
    assert_eq!(PostType::Plugin.to_string(), "Plugin");
    for t in [PostType::Plugin, PostType::Module, PostType::Song, PostType::Ui, PostType::Other] {
        assert_eq!(PostType::from(t.as_i32()), t);
    }
}

#[test]
fn status_codes() {
    assert_eq!(Status::Success.code(), 200);
    assert_eq!(Status::PartialContent.code(), 206);
    assert_eq!(Status::BadRequest.code(), 400);
    assert_eq!(Status::Unauthorized.code(), 401);
    assert_eq!(Status::Forbidden.code(), 403);
    assert_eq!(Status::NotFound.code(), 404);
    assert_eq!(Status::Conflict.code(), 409);
    assert_eq!(Status::TooManyRequests.code(), 429);
    assert_eq!(Status::InternalServerError.code(), 500);
}

#[test]
fn comments_compare_by_id() {
    let a = Comment { id: 1, user: user(1), text: String::from("x"), time: 0 };
    let b = Comment { id: 1, user: user(2), text: String::from("y"), time: 5 };
    let c = Comment { id: 2, user: user(1), text: String::from("x"), time: 0 };
    assert!(a == b);
    assert!(a != c);
}

#[test]
fn users_compare_field_by_field() {
    assert!(same_user(&user(1), &user(1)));
    let mut other = user(1);
    other.display_name = Some(String::from("n"));
    assert!(!same_user(&user(1), &other));
}

#[test]
fn comment_tree_placement() {
    let links = vec![
        CommentLink { id: 1, parent: None },
        CommentLink { id: 2, parent: Some(1) },
        CommentLink { id: 3, parent: Some(9) },
        CommentLink { id: 4, parent: Some(3) },
        CommentLink { id: 5, parent: Some(2) },
    ];
    assert_eq!(
        place_comments(&links),
        vec![
            Placement::Top,
            Placement::Reply(0),
            Placement::Dropped,
            Placement::Dropped,
            Placement::Reply(1),
        ]
    );
}

#[test]
fn download_links_name_post_and_file() {
    assert_eq!(download_link(17, 2), "https://divamodarchive.com/api/v1/posts/17/download/2");
    assert_eq!(download_link(-1, 0), "https://divamodarchive.com/api/v1/posts/-1/download/0");
}

#[test]
fn files_shown_as_links() {
    let mut p = post(8, vec![]);
    p.files.push(String::from("other"));
    p.local_files.push(String::from("12/b.rar"));
    p.local_files.push(String::from("12/c.7z"));
    p.link_files();
    assert_eq!(
        p.files,
        vec![
            "https://divamodarchive.com/api/v1/posts/8/download/0",
            "https://divamodarchive.com/api/v1/posts/8/download/1",
        ]
    );
    assert_eq!(p.local_files, vec!["a.zip", "b.rar", "12/c.7z"]);
    assert_eq!(p.id, 8);
    assert_eq!(p.name, "Pack");
    assert_eq!(p.text, "text");
    assert_eq!(p.post_type, PostType::Song);
    assert_eq!((p.download_count, p.like_count, p.time, p.explicit), (3, 4, 0, false));
    assert!(p.dependencies.is_none() && p.comments.is_none());
}

fn note(id: i32) -> Comment {
    Comment { id, user: user(1), text: format!("c{id}"), time: id as i128 }
}

fn shape(node: slab_tree::NodeRef<Comment>) -> Vec<(i32, Vec<i32>)> {
    let mut out = vec![(node.data().id, node.children().map(|c| c.data().id).collect())];
    for child in node.children() {
        out.extend(shape(child));
    }
    out
}

#[test]
fn comment_tree_follows_placements() {
    let comments: Vec<Comment> = (1..=6).map(note).collect();
    let parents = vec![None, Some(1), Some(9), Some(3), Some(2), None];
    let tree = comment_tree(note(-1), comments, &parents);
    let root = tree.root().unwrap();
    assert_eq!(
        shape(root),
        vec![(-1, vec![1, 6]), (1, vec![2]), (2, vec![5]), (5, vec![]), (6, vec![])]
    );
}
