//! Tests of the handler layer: status codes and bodies per route.

use idea_api::errors::ApiError;
use idea_api::idea::{self, IdeaRequest};
use idea_api::like;
use idea_api::store::Store;

#[test]
fn post_then_get_then_like_then_delete() {
    let mut store = Store::new();

    // POST /ideas with a message: 201, created idea with empty image, no likes.
    let req = IdeaRequest { message: Some("hello".to_string()) };
    let (status, body) = idea::create(&mut store, req);
    assert_eq!(status, 201);
    let created = body.unwrap();
    assert_eq!(created.message, "hello");
    assert_eq!(created.image, "");
    assert!(created.likes.is_empty());

    // GET /ideas/{id}: 200 with the same idea and no likes.
    let (status, body) = idea::get(&store, &created.id);
    assert_eq!(status, 200);
    let fetched = body.unwrap();
    assert_eq!(fetched.id, created.id);
    assert_eq!(fetched.message, "hello");
    assert!(fetched.likes.is_empty());

    // POST /ideas/{id}/likes twice: likes come back newest first.
    let (status, _like) = like::plus_one(&mut store, &created.id);
    assert_eq!(status, 200);
    let (status, newest) = like::plus_one(&mut store, &created.id);
    assert_eq!(status, 200);
    let (status, body) = idea::get(&store, &created.id);
    assert_eq!(status, 200);
    let fetched = body.unwrap();
    assert_eq!(fetched.likes.len(), 2);
    assert_eq!(fetched.likes[0].id, newest.id);
    assert!(fetched.likes[0].created_at >= fetched.likes[1].created_at);

    // DELETE /ideas/{id}/likes once: one like remains.
    let status = like::minus_one(&mut store, &created.id);
    assert_eq!(status, 204);
    let (_, body) = idea::get(&store, &created.id);
    assert_eq!(body.unwrap().likes.len(), 1);

    // DELETE /ideas/{id}: 204; then GET answers 204 with no body.
    let status = idea::delete(&mut store, &created.id);
    assert_eq!(status, 204);
    let (status, body) = idea::get(&store, &created.id);
    assert_eq!(status, 204);
    assert!(body.is_none());
}

#[test]
fn post_without_message_is_bad_request() {
    let mut store = Store::new();
    let (status, body) = idea::create(&mut store, IdeaRequest { message: None });
    assert_eq!(status, 400);
    assert_eq!(body.unwrap_err(), ApiError::ValidationFailure);
    let (_, listed) = idea::list(&store);
    assert!(listed.results.is_empty());
}

#[test]
fn idea_list_attaches_likes_to_the_right_idea() {
    let mut store = Store::new();
    let (_, liked) = idea::create(&mut store, IdeaRequest { message: Some("liked".to_string()) });
    let liked = liked.unwrap();
    let (_, plain) = idea::create(&mut store, IdeaRequest { message: Some("plain".to_string()) });
    let plain = plain.unwrap();
    like::plus_one(&mut store, &liked.id);
    let (status, listed) = idea::list(&store);
    assert_eq!(status, 200);
    assert_eq!(listed.results.len(), 2);
    for item in &listed.results {
        if item.id == liked.id {
            assert_eq!(item.likes.len(), 1);
        } else {
            assert_eq!(item.id, plain.id);
            assert!(item.likes.is_empty());
        }
    }
}

#[test]
fn like_list_of_unknown_idea_is_empty_ok() {
    let store = Store::new();
    let missing = "00000000-0000-4000-8000-000000000000".to_string();
    let (status, listed) = like::list(&store, &missing);
    assert_eq!(status, 200);
    assert!(listed.results.is_empty());
}

#[test]
fn minus_one_with_no_likes_still_no_content() {
    let mut store = Store::new();
    let (_, created) = idea::create(&mut store, IdeaRequest { message: Some("bare".to_string()) });
    let created = created.unwrap();
    let status = like::minus_one(&mut store, &created.id);
    assert_eq!(status, 204);
    let (_, listed) = like::list(&store, &created.id);
    assert!(listed.results.is_empty());
}
