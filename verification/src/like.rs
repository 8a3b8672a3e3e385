//! Likes: anonymous, timestamped endorsements, each attached to one idea.

use vstd::prelude::*;

use crate::clock::now_millis;
use crate::errors::ApiError;
use crate::ids::{fresh_uuid, is_uuid_chars};
use crate::response::{Response, STATUS_NO_CONTENT, STATUS_OK};
use crate::store::{
    lemma_filter_sorted, like_of_idea, like_time, likes_view, spec_delete_like, spec_insert_like,
    spec_likes_of, Store,
};

verus! {

/// The list form in which likes are returned.
pub type Likes = Response<Like>;

/// A like as the API returns it: the owning idea is not exposed.
#[derive(Debug)]
pub struct Like {
    pub id: String,
    pub created_at: i64,
}

/// A like as the store holds it: the same fields plus the owning idea.
#[derive(Debug)]
pub struct LikeDB {
    pub id: String,
    pub created_at: i64,
    pub idea_id: String,
}

/// The mathematical content of a stored like row.
#[verifier::ext_equal]
pub ghost struct LikeRowV {
    pub id: Seq<char>,
    pub created_at: int,
    pub idea_id: Seq<char>,
}

impl View for LikeDB {
    type V = LikeRowV;

    open spec fn view(&self) -> LikeRowV {
        LikeRowV { id: self.id@, created_at: self.created_at as int, idea_id: self.idea_id@ }
    }
}

/// The row a like maps to when persisted against the idea `idea_id`.
pub open spec fn row_of_like(like: Like, idea_id: Seq<char>) -> LikeRowV {
    LikeRowV { id: like.id@, created_at: like.created_at as int, idea_id: idea_id }
}

/// A returned like carries the same id and timestamp as a stored row.
pub open spec fn like_matches_row(like: Like, row: LikeRowV) -> bool {
    like.id@ == row.id && like.created_at as int == row.created_at
}

/// Pointwise correspondence between a list of likes and a list of rows.
pub open spec fn likes_match_rows(ls: Seq<Like>, rows: Seq<LikeRowV>) -> bool {
    &&& ls.len() == rows.len()
    &&& forall|i: int| 0 <= i < ls.len() ==> like_matches_row(#[trigger] ls[i], rows[i])
}

impl Like {
    /// A fresh like: a new UUID and the current time.
    pub fn new() -> (r: Like)
        ensures
            is_uuid_chars(r.id@),
    {
        Like { id: fresh_uuid(), created_at: now_millis() }
    }

    /// The row this like maps to when persisted against `idea_id`.
    pub fn to_like_db(&self, idea_id: String) -> (r: LikeDB)
        ensures
            r@ == row_of_like(*self, idea_id@),
    {
        LikeDB { id: self.id.clone(), created_at: self.created_at, idea_id }
    }
}

impl LikeDB {
    /// The API form of a stored like.
    pub fn to_like(&self) -> (r: Like)
        ensures
            like_matches_row(r, self@),
    {
        Like { id: self.id.clone(), created_at: self.created_at }
    }
}

// ---------------------------------------------------------------------------
// The like service.
// ---------------------------------------------------------------------------
/// The likes of an idea, newest first. An unknown idea simply has none.
pub fn list_likes(store: &Store, idea_id: &String) -> (r: Likes)
    requires
        store@.wf(),
    ensures
        likes_match_rows(r.results@, spec_likes_of(store@, idea_id@)),
        forall|i: int, j: int|
            0 <= i <= j < r.results@.len() ==> (#[trigger] r.results@[i]).created_at >= (
            #[trigger] r.results@[j]).created_at,
{
    proof {
        lemma_filter_sorted(store@.likes, like_time(), like_of_idea(idea_id@));
    }
    let rows = store.select_likes(idea_id);
    let n = rows.len();
    let mut out: Vec<Like> = Vec::new();
    let mut i: usize = 0;
    while i < n
        invariant
            0 <= i <= n,
            n == rows.len(),
            likes_view(rows@) == spec_likes_of(store@, idea_id@),
            out@.len() == i,
            forall|j: int| 0 <= j < i ==> like_matches_row(#[trigger] out@[j], likes_view(rows@)[j]),
        decreases n - i,
    {
        out.push(rows[i].to_like());
        i = i + 1;
    }
    proof {
        assert forall|i: int, j: int| 0 <= i <= j < out@.len() implies (#[trigger] out@[i]).created_at
            >= (#[trigger] out@[j]).created_at by {
            assert(out@[i].created_at as int == spec_likes_of(store@, idea_id@)[i].created_at);
            assert(out@[j].created_at as int == spec_likes_of(store@, idea_id@)[j].created_at);
        }
    }
    Likes { results: out }
}

/// Create a like against `idea_id`: a fresh id and the current time,
/// persisted and returned. Whether the idea exists is not checked.
pub fn create_like(store: &mut Store, idea_id: &String) -> (r: Result<Like, ApiError>)
    requires
        old(store)@.wf(),
    ensures
        final(store)@.wf(),
        r is Ok,
        (match r {
            Ok(like) => {
                &&& is_uuid_chars(like.id@)
                &&& (old(store)@.like_id_fresh(like.id@) ==> final(store)@ == spec_insert_like(
                    old(store)@,
                    row_of_like(like, idea_id@),
                ))
                &&& (!old(store)@.like_id_fresh(like.id@) ==> final(store)@ == old(store)@)
            },
            Err(_) => false,
        }),
{
    let like = Like::new();
    let row = like.to_like_db(idea_id.clone());
    if store.contains_like_id(&like.id) {
        Ok(like)
    } else {
        store.insert_like(row);
        Ok(like)
    }
}

/// Delete one like of `idea_id`: the most recently created one goes; with
/// no likes there, this is a no-op that still succeeds.
pub fn delete_like(store: &mut Store, idea_id: &String) -> (r: Result<(), ApiError>)
    requires
        old(store)@.wf(),
    ensures
        final(store)@.wf(),
        r is Ok,
        final(store)@ == spec_delete_like(old(store)@, idea_id@),
{
    let likes = list_likes(store, idea_id);
    if likes.results.len() == 0 {
        return Ok(());
    }
    store.delete_like_row(&likes.results[0].id);
    proof {
        assert(store@ =~= spec_delete_like(old(store)@, idea_id@));
    }
    Ok(())
}

// ---------------------------------------------------------------------------
// What the HTTP layer answers on the like routes.
// ---------------------------------------------------------------------------
/// GET of an idea's likes: always 200, with the likes newest first.
pub fn list(store: &Store, idea_id: &String) -> (r: (u16, Likes))
    requires
        store@.wf(),
    ensures
        r.0 == STATUS_OK,
        likes_match_rows(r.1.results@, spec_likes_of(store@, idea_id@)),
        forall|i: int, j: int|
            0 <= i <= j < r.1.results@.len() ==> (#[trigger] r.1.results@[i]).created_at >= (
            #[trigger] r.1.results@[j]).created_at,
{
    (STATUS_OK, list_likes(store, idea_id))
}

/// POST of one like: always 200 with the created like.
pub fn plus_one(store: &mut Store, idea_id: &String) -> (r: (u16, Like))
    requires
        old(store)@.wf(),
    ensures
        final(store)@.wf(),
        r.0 == STATUS_OK,
        is_uuid_chars(r.1.id@),
        old(store)@.like_id_fresh(r.1.id@) ==> final(store)@ == spec_insert_like(
            old(store)@,
            row_of_like(r.1, idea_id@),
        ),
        !old(store)@.like_id_fresh(r.1.id@) ==> final(store)@ == old(store)@,
{
    match create_like(store, idea_id) {
        Ok(like) => (STATUS_OK, like),
        Err(_) => {
            proof {
                assert(false);
            }
            (STATUS_OK, Like::new())
        },
    }
}

/// DELETE of one like: always 204; the most recent like of the idea goes.
pub fn minus_one(store: &mut Store, idea_id: &String) -> (r: u16)
    requires
        old(store)@.wf(),
    ensures
        final(store)@.wf(),
        r == STATUS_NO_CONTENT,
        final(store)@ == spec_delete_like(old(store)@, idea_id@),
{
    let _ = delete_like(store, idea_id);
    STATUS_NO_CONTENT
}

} // verus!
