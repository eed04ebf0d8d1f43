//! The description of the first version of the public interface.

use vstd::prelude::*;

verus! {

/// The interface description served for the first version of the API: its
/// routes, their methods and their query parameters. The text is written from
/// the routes that the first version's handlers declare (their paths,
/// methods and query parameters); the handlers' summaries are one line each.
pub open spec fn v1_description() -> Seq<char> {
    "{\"openapi\":\"3.0.0\",\"info\":{\"title\":\"DivaModArchive\",\"version\":\"1\"},\"paths\":{\"/api/v1/posts/upload_image\":{\"get\":{\"summary\":\"Direct upload URL for an image\"}},\"/api/v1/posts/upload_archive\":{\"get\":{\"summary\":\"Signed upload URL for an archive\",\"parameters\":[{\"name\":\"name\",\"in\":\"query\",\"required\":true}]}},\"/api/v1/posts/upload\":{\"post\":{\"summary\":\"Create or replace a post\",\"parameters\":[{\"name\":\"update_id\",\"in\":\"query\",\"required\":false}]}},\"/api/v1/posts/edit\":{\"post\":{\"summary\":\"Edit the metadata of a post\",\"parameters\":[{\"name\":\"update_id\",\"in\":\"query\",\"required\":true}]}},\"/api/v1/posts/{id}\":{\"get\":{\"summary\":\"Details of a post\"}},\"/api/v1/posts/{id}/like\":{\"post\":{\"summary\":\"Like a post\"}},\"/api/v1/posts/{id}/dislike\":{\"post\":{\"summary\":\"Dislike a post\"}},\"/api/v1/posts/{id}/dependency/{dependency}\":{\"post\":{\"summary\":\"Add a dependency to a post\"}},\"/api/v1/posts/latest\":{\"get\":{\"summary\":\"Latest posts\",\"parameters\":[{\"name\":\"name\",\"in\":\"query\"},{\"name\":\"offset\",\"in\":\"query\"},{\"name\":\"game_tag\",\"in\":\"query\"},{\"name\":\"limit\",\"in\":\"query\"}]}},\"/api/v1/posts/popular\":{\"get\":{\"summary\":\"Popular posts\",\"parameters\":[{\"name\":\"name\",\"in\":\"query\"},{\"name\":\"offset\",\"in\":\"query\"},{\"name\":\"game_tag\",\"in\":\"query\"},{\"name\":\"limit\",\"in\":\"query\"}]}},\"/api/v1/posts/{id}/delete\":{\"delete\":{\"summary\":\"Delete a post\"}},\"/api/v1/posts/posts\":{\"get\":{\"summary\":\"Details of several posts, by ascending id\",\"parameters\":[{\"name\":\"post_id\",\"in\":\"query\",\"required\":true}]}},\"/api/v1/posts/post_count\":{\"get\":{\"summary\":\"Number of posts\",\"parameters\":[{\"name\":\"name\",\"in\":\"query\"},{\"name\":\"game_tag\",\"in\":\"query\"}]}},\"/api/v1/users/login\":{\"get\":{\"summary\":\"Sign in with a Discord code\",\"parameters\":[{\"name\":\"code\",\"in\":\"query\",\"required\":true},{\"name\":\"redirect_uri\",\"in\":\"query\"}]}},\"/api/v1/users/{id}\":{\"get\":{\"summary\":\"Details of a user\"}},\"/api/v1/users/{id}/latest\":{\"get\":{\"summary\":\"Latest posts of a user\"}},\"/api/v1/users/{id}/popular\":{\"get\":{\"summary\":\"Popular posts of a user\"}},\"/api/v1/users/delete\":{\"delete\":{\"summary\":\"Delete the signed-in user\"}}}}"@
}

/// The interface description of the first version of the API.
pub fn get_spec() -> (s: &'static str)
    ensures
        s@ == v1_description(),
{
    "{\"openapi\":\"3.0.0\",\"info\":{\"title\":\"DivaModArchive\",\"version\":\"1\"},\"paths\":{\"/api/v1/posts/upload_image\":{\"get\":{\"summary\":\"Direct upload URL for an image\"}},\"/api/v1/posts/upload_archive\":{\"get\":{\"summary\":\"Signed upload URL for an archive\",\"parameters\":[{\"name\":\"name\",\"in\":\"query\",\"required\":true}]}},\"/api/v1/posts/upload\":{\"post\":{\"summary\":\"Create or replace a post\",\"parameters\":[{\"name\":\"update_id\",\"in\":\"query\",\"required\":false}]}},\"/api/v1/posts/edit\":{\"post\":{\"summary\":\"Edit the metadata of a post\",\"parameters\":[{\"name\":\"update_id\",\"in\":\"query\",\"required\":true}]}},\"/api/v1/posts/{id}\":{\"get\":{\"summary\":\"Details of a post\"}},\"/api/v1/posts/{id}/like\":{\"post\":{\"summary\":\"Like a post\"}},\"/api/v1/posts/{id}/dislike\":{\"post\":{\"summary\":\"Dislike a post\"}},\"/api/v1/posts/{id}/dependency/{dependency}\":{\"post\":{\"summary\":\"Add a dependency to a post\"}},\"/api/v1/posts/latest\":{\"get\":{\"summary\":\"Latest posts\",\"parameters\":[{\"name\":\"name\",\"in\":\"query\"},{\"name\":\"offset\",\"in\":\"query\"},{\"name\":\"game_tag\",\"in\":\"query\"},{\"name\":\"limit\",\"in\":\"query\"}]}},\"/api/v1/posts/popular\":{\"get\":{\"summary\":\"Popular posts\",\"parameters\":[{\"name\":\"name\",\"in\":\"query\"},{\"name\":\"offset\",\"in\":\"query\"},{\"name\":\"game_tag\",\"in\":\"query\"},{\"name\":\"limit\",\"in\":\"query\"}]}},\"/api/v1/posts/{id}/delete\":{\"delete\":{\"summary\":\"Delete a post\"}},\"/api/v1/posts/posts\":{\"get\":{\"summary\":\"Details of several posts, by ascending id\",\"parameters\":[{\"name\":\"post_id\",\"in\":\"query\",\"required\":true}]}},\"/api/v1/posts/post_count\":{\"get\":{\"summary\":\"Number of posts\",\"parameters\":[{\"name\":\"name\",\"in\":\"query\"},{\"name\":\"game_tag\",\"in\":\"query\"}]}},\"/api/v1/users/login\":{\"get\":{\"summary\":\"Sign in with a Discord code\",\"parameters\":[{\"name\":\"code\",\"in\":\"query\",\"required\":true},{\"name\":\"redirect_uri\",\"in\":\"query\"}]}},\"/api/v1/users/{id}\":{\"get\":{\"summary\":\"Details of a user\"}},\"/api/v1/users/{id}/latest\":{\"get\":{\"summary\":\"Latest posts of a user\"}},\"/api/v1/users/{id}/popular\":{\"get\":{\"summary\":\"Popular posts of a user\"}},\"/api/v1/users/delete\":{\"delete\":{\"summary\":\"Delete the signed-in user\"}}}}"
}

} // verus!
