//! Tests of identifier generation and validation.

use std::collections::HashSet;

use idea_api::idea::Idea;
use idea_api::is_valid_uuid;
use idea_api::like::Like;

#[test]
fn generated_ids_are_valid_uuids_and_distinct() {
    let mut seen: HashSet<String> = HashSet::new();
    for _ in 0..1000 {
        let idea = Idea::new(String::new(), String::new());
        assert!(is_valid_uuid(&idea.id));
        assert!(seen.insert(idea.id));
    }
    for _ in 0..1000 {
        let like = Like::new();
        assert!(is_valid_uuid(&like.id));
        assert!(seen.insert(like.id));
    }
}

#[test]
fn uuid_validation_accepts_the_hyphenated_form() {
    assert!(is_valid_uuid("123e4567-e89b-42d3-a456-426614174000"));
    assert!(is_valid_uuid("00000000-0000-0000-0000-000000000000"));
}

#[test]
fn uuid_validation_rejects_malformed_strings() {
    assert!(!is_valid_uuid(""));
    assert!(!is_valid_uuid("123e4567-e89b-42d3-a456-42661417400"));
    assert!(!is_valid_uuid("123e4567-e89b-42d3-a456-4266141740000"));
    assert!(!is_valid_uuid("123e4567-e89b-42d3-a456_426614174000"));
    assert!(!is_valid_uuid("123E4567-e89b-42d3-a456-426614174000"));
    assert!(!is_valid_uuid("123e4567-e89b-42d3-a456-42661417400g"));
    assert!(!is_valid_uuid("123e4567ae89b-42d3-a456-426614174000"));
}
