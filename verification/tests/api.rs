//! End-to-end tests of the idea and like services and of the handler layer,
//! run against a fresh store.

use idea_api::errors::ApiError;
use idea_api::idea::{create_idea, delete_idea, find_idea, list_ideas, Idea, IdeaRequest};
use idea_api::like::{create_like, delete_like, list_likes, Likes};
use idea_api::store::Store;

#[test]
fn an_empty_response_has_no_results() {
    let empty: Likes = Likes::new();
    assert!(empty.results.is_empty());
}

#[test]
fn find_after_create_returns_same_record() {
    let mut store = Store::new();
    let idea = Idea::new("hello".to_string(), "cat.png".to_string());
    let stored = create_idea(&mut store, idea).unwrap();
    let found = find_idea(&store, &stored.id).unwrap();
    assert_eq!(found.id, stored.id);
    assert_eq!(found.message, "hello");
    assert_eq!(found.image, "cat.png");
    assert!(found.likes.is_empty());
}

#[test]
fn find_unknown_id_is_not_found() {
    let store = Store::new();
    let missing = "00000000-0000-4000-8000-000000000000".to_string();
    assert_eq!(find_idea(&store, &missing).unwrap_err(), ApiError::NotFound);
}

#[test]
fn list_ideas_caps_and_orders() {
    let mut store = Store::new();
    for k in 0..5 {
        let idea = Idea::new(format!("idea {}", k), String::new());
        create_idea(&mut store, idea).unwrap();
    }
    let capped = list_ideas(&store, 3);
    assert_eq!(capped.results.len(), 3);
    let all = list_ideas(&store, 50);
    assert_eq!(all.results.len(), 5);
    for w in all.results.windows(2) {
        assert!(w[0].created_at >= w[1].created_at);
    }
    for idea in &all.results {
        assert!(idea.likes.is_empty());
    }
    assert_eq!(list_ideas(&store, 0).results.len(), 0);
}

#[test]
fn delete_then_find_is_not_found() {
    let mut store = Store::new();
    let stored = create_idea(&mut store, Idea::new("gone".to_string(), String::new())).unwrap();
    delete_idea(&mut store, &stored.id).unwrap();
    assert_eq!(find_idea(&store, &stored.id).unwrap_err(), ApiError::NotFound);
}

#[test]
fn delete_idea_twice_is_ok() {
    let mut store = Store::new();
    let stored = create_idea(&mut store, Idea::new("twice".to_string(), String::new())).unwrap();
    assert!(delete_idea(&mut store, &stored.id).is_ok());
    assert!(delete_idea(&mut store, &stored.id).is_ok());
}

#[test]
fn new_like_lists_first() {
    let mut store = Store::new();
    let idea = create_idea(&mut store, Idea::new("liked".to_string(), String::new())).unwrap();
    let first = create_like(&mut store, &idea.id).unwrap();
    let listed = list_likes(&store, &idea.id);
    assert_eq!(listed.results.len(), 1);
    assert_eq!(listed.results[0].id, first.id);
    let second = create_like(&mut store, &idea.id).unwrap();
    let listed = list_likes(&store, &idea.id);
    assert_eq!(listed.results.len(), 2);
    assert_eq!(listed.results[0].id, second.id);
    assert_eq!(listed.results[1].id, first.id);
    for w in listed.results.windows(2) {
        assert!(w[0].created_at >= w[1].created_at);
    }
}

#[test]
fn likes_are_scoped_to_their_idea() {
    let mut store = Store::new();
    let liked = create_idea(&mut store, Idea::new("liked".to_string(), String::new())).unwrap();
    let plain = create_idea(&mut store, Idea::new("plain".to_string(), String::new())).unwrap();
    create_like(&mut store, &liked.id).unwrap();
    assert_eq!(list_likes(&store, &liked.id).results.len(), 1);
    assert_eq!(list_likes(&store, &plain.id).results.len(), 0);
}

#[test]
fn delete_like_removes_most_recent() {
    let mut store = Store::new();
    let idea = create_idea(&mut store, Idea::new("liked".to_string(), String::new())).unwrap();
    let first = create_like(&mut store, &idea.id).unwrap();
    let _second = create_like(&mut store, &idea.id).unwrap();
    delete_like(&mut store, &idea.id).unwrap();
    let listed = list_likes(&store, &idea.id);
    assert_eq!(listed.results.len(), 1);
    assert_eq!(listed.results[0].id, first.id);
}

#[test]
fn delete_like_with_none_is_a_no_op() {
    let mut store = Store::new();
    let idea = create_idea(&mut store, Idea::new("bare".to_string(), String::new())).unwrap();
    assert!(delete_like(&mut store, &idea.id).is_ok());
    assert_eq!(list_likes(&store, &idea.id).results.len(), 0);
}

#[test]
fn request_without_message_makes_no_idea() {
    let req = IdeaRequest { message: None };
    assert!(req.to_idea().is_none());
    let req = IdeaRequest { message: Some("text".to_string()) };
    let idea = req.to_idea().unwrap();
    assert_eq!(idea.message, "text");
    assert_eq!(idea.image, "");
    assert!(idea.likes.is_empty());
}

#[test]
fn idea_round_trips_through_its_row() {
    let idea = Idea::new("msg".to_string(), "img".to_string());
    let row = idea.to_idea_db();
    assert_eq!(row.id, idea.id);
    assert_eq!(row.created_at, idea.created_at);
    assert_eq!(row.message, "msg");
    assert_eq!(row.image, "img");
    let back = row.to_idea();
    assert_eq!(back.id, idea.id);
    assert_eq!(back.message, "msg");
    assert_eq!(back.image, "img");
    assert!(back.likes.is_empty());
}

#[test]
fn add_likes_replaces_only_the_likes() {
    let mut store = Store::new();
    let idea = create_idea(&mut store, Idea::new("msg".to_string(), String::new())).unwrap();
    create_like(&mut store, &idea.id).unwrap();
    let likes = list_likes(&store, &idea.id);
    let composed = idea.add_likes(likes.results);
    assert_eq!(composed.id, idea.id);
    assert_eq!(composed.message, idea.message);
    assert_eq!(composed.likes.len(), 1);
    assert!(idea.likes.is_empty());
}
