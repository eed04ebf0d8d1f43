use divamodarchive::access::{
    add_author_permission, add_dependency_permission, delete_comment_permission, delete_post_permission,
    download_target, edit_permission, is_author, like_taken_back, liked_page_visible, may_update, post_visible,
    show_explicit, user_totals,
};
use divamodarchive::models::{Config, Post, PostType, Status, User};

fn user(id: i64) -> User {
    User {
        id,
        name: format!("user{id}"),
        avatar: String::from("a.png"),
        display_name: None,
        public_likes: false,
        show_explicit: false,
        theme: 0,
    }
}

fn post(id: i32, authors: Vec<User>) -> Post {
    Post {
        id,
        name: String::from("Pack"),
        text: String::new(),
        images: vec![],
        files: vec![String::from("f0"), String::from("f1")],
        local_files: vec![],
        time: 0,
        post_type: PostType::Module,
        download_count: 10,
        like_count: 2,
        authors,
        dependencies: None,
        comments: None,
        explicit: false,
    }
}

fn config(admins: Vec<i64>) -> Config {
    Config {
        session_secret: b"k".to_vec(),
        discord_id: String::new(),
        discord_secret: String::new(),
        cloudflare_image_token: String::new(),
        cloudflare_account_id: String::new(),
        admins,
    }
}

#[test]
fn admins_are_listed() {
    let c = config(vec![5, 9]);
    assert!(user(9).is_admin(&c));
    assert!(!user(1).is_admin(&c));
}

#[test]
fn editing_needs_post_and_authorship() {
    assert_eq!(edit_permission(None, &vec![1], &user(1)), Err(Status::BadRequest));
    assert_eq!(edit_permission(Some(4), &vec![2], &user(1)), Err(Status::BadRequest));
    assert_eq!(edit_permission(Some(4), &vec![2, 1], &user(1)), Ok(4));
}

#[test]
fn deleting_posts() {
    let p = post(1, vec![user(1)]);
    assert_eq!(delete_post_permission(&p, &user(1), &config(vec![])), Ok(()));
    assert_eq!(delete_post_permission(&p, &user(2), &config(vec![])), Err(Status::Unauthorized));
    assert_eq!(delete_post_permission(&p, &user(2), &config(vec![2])), Ok(()));
}

#[test]
fn adding_authors() {
    let p = post(1, vec![user(1), user(2)]);
    assert_eq!(add_author_permission(&p, &user(3), &String::from("user4")), Err(Status::Unauthorized));
    assert_eq!(add_author_permission(&p, &user(1), &String::from("user2")), Err(Status::BadRequest));
    assert_eq!(add_author_permission(&p, &user(1), &String::from("user4")), Ok(()));
}

#[test]
fn adding_dependencies() {
    let p = post(1, vec![user(1)]);
    assert_eq!(add_dependency_permission(&p, &user(2), Some(false), Some(false)), Err(Status::Unauthorized));
    assert_eq!(add_dependency_permission(&p, &user(1), Some(true), Some(false)), Err(Status::BadRequest));
    assert_eq!(add_dependency_permission(&p, &user(1), Some(false), Some(true)), Err(Status::BadRequest));
    assert_eq!(add_dependency_permission(&p, &user(1), None, Some(false)), Err(Status::BadRequest));
    assert_eq!(add_dependency_permission(&p, &user(1), Some(false), Some(false)), Ok(()));
}

#[test]
fn deleting_comments() {
    assert_eq!(delete_comment_permission(3, &user(3), &config(vec![])), Ok(()));
    assert_eq!(delete_comment_permission(3, &user(4), &config(vec![])), Err(Status::Unauthorized));
    assert_eq!(delete_comment_permission(3, &user(4), &config(vec![4])), Ok(()));
}

#[test]
fn explicit_posts_and_likes_pages() {
    let mut viewer = user(2);
    assert!(!show_explicit(&None));
    assert!(!show_explicit(&Some(viewer.clone())));
    viewer.show_explicit = true;
    assert!(show_explicit(&Some(viewer.clone())));
    let mut p = post(1, vec![user(1)]);
    assert!(post_visible(&p, &None));
    p.explicit = true;
    assert!(!post_visible(&p, &None));
    assert!(post_visible(&p, &Some(viewer)));
    let mut owner = user(1);
    assert!(!liked_page_visible(&owner, &None));
    assert!(liked_page_visible(&owner, &Some(user(1))));
    assert!(!liked_page_visible(&owner, &Some(user(2))));
    owner.public_likes = true;
    assert!(liked_page_visible(&owner, &None));
}

#[test]
fn authorship() {
    let p = post(1, vec![user(1)]);
    assert!(is_author(&p, &Some(user(1))));
    assert!(!is_author(&p, &Some(user(2))));
    assert!(!is_author(&p, &None));
    assert!(may_update(&p, &user(1)));
    let mut renamed = user(1);
    renamed.name = String::from("other");
    assert!(!may_update(&p, &renamed));
}

#[test]
fn totals_of_a_users_posts() {
    let posts = vec![post(1, vec![]), post(2, vec![])];
    assert_eq!(user_totals(&posts), (4, 20));
    assert_eq!(user_totals(&vec![]), (0, 0));
}

#[test]
fn liking_toggles() {
    assert!(like_taken_back(Some(1)));
    assert!(!like_taken_back(Some(0)));
    assert!(!like_taken_back(None));
}

#[test]
fn liking_twice_restores_the_likes() {
    let mut likes: std::collections::BTreeSet<(i32, i64)> = [(1, 7), (2, 8)].into_iter().collect();
    let before = likes.clone();
    for _ in 0..2 {
        let count = Some(if likes.contains(&(1, 8)) { 1 } else { 0 });
        if like_taken_back(count) {
            likes.remove(&(1, 8));
        } else {
            likes.insert((1, 8));
        }
        if likes.len() == 3 {
            assert!(likes.contains(&(1, 8)));
        }
    }
    assert_eq!(likes, before);
}

#[test]
fn download_variants() {
    let files = vec![String::from("f0"), String::from("f1")];
    assert_eq!(download_target(&files, 1), Some(&files[1]));
    assert_eq!(download_target(&files, 2), None);
    assert_eq!(download_target(&files, -1), None);
}

#[test]
fn recorded_dependencies_never_become_mutual() {
    let p1 = post(1, vec![user(1)]);
    let p2 = post(2, vec![user(2)]);
    let mut deps: std::collections::BTreeSet<(i32, i32)> = std::collections::BTreeSet::new();
    let requests = [(&p1, 2, &user(1)), (&p2, 1, &user(2)), (&p1, 2, &user(1)), (&p2, 1, &user(1))];
    for (post, dependency, requester) in requests {
        let forward = Some(deps.contains(&(post.id, dependency)));
        let backward = Some(deps.contains(&(dependency, post.id)));
        if add_dependency_permission(post, requester, forward, backward).is_ok() {
            deps.insert((post.id, dependency));
        }
    }
    assert_eq!(deps.into_iter().collect::<Vec<_>>(), vec![(1, 2)]);
}
