//! Ideas: the primary content entity, a short message with an optional image
//! reference and the likes attached to it at read time.

use vstd::prelude::*;

use crate::clock::now_millis;
use crate::errors::ApiError;
use crate::ids::{fresh_uuid, is_uuid_chars};
use crate::like::{likes_match_rows, list_likes, Like};
use crate::response::{Response, STATUS_BAD_REQUEST, STATUS_CREATED, STATUS_NO_CONTENT, STATUS_OK};
use crate::store::{
    idea_time, ideas_view, spec_delete_idea, spec_find_idea, spec_first_ideas, spec_insert_idea,
    spec_likes_of, Store,
};

verus! {

/// The list form in which ideas are returned.
pub type Ideas = Response<Idea>;

/// An idea as the API returns it. `likes` is never persisted with the idea;
/// it is attached at read time.
#[derive(Debug)]
pub struct Idea {
    pub id: String,
    pub created_at: i64,
    pub message: String,
    pub image: String,
    pub likes: Vec<Like>,
}

/// An idea as the store holds it: the idea row never carries likes.
#[derive(Debug)]
pub struct IdeaDB {
    pub id: String,
    pub created_at: i64,
    pub message: String,
    pub image: String,
}

/// The mathematical content of a stored idea row.
#[verifier::ext_equal]
pub ghost struct IdeaRowV {
    pub id: Seq<char>,
    pub created_at: int,
    pub message: Seq<char>,
    pub image: Seq<char>,
}

impl View for IdeaDB {
    type V = IdeaRowV;

    open spec fn view(&self) -> IdeaRowV {
        IdeaRowV {
            id: self.id@,
            created_at: self.created_at as int,
            message: self.message@,
            image: self.image@,
        }
    }
}

/// The row an idea maps to when persisted.
pub open spec fn row_of_idea(idea: Idea) -> IdeaRowV {
    IdeaRowV {
        id: idea.id@,
        created_at: idea.created_at as int,
        message: idea.message@,
        image: idea.image@,
    }
}

/// A returned idea carries the same id, timestamp, message and image as a
/// stored row.
pub open spec fn idea_matches_row(idea: Idea, row: IdeaRowV) -> bool {
    &&& idea.id@ == row.id
    &&& idea.created_at as int == row.created_at
    &&& idea.message@ == row.message
    &&& idea.image@ == row.image
}

impl Idea {
    /// A fresh idea: a new UUID, the current time, and no likes yet.
    pub fn new(message: String, image: String) -> (r: Idea)
        ensures
            is_uuid_chars(r.id@),
            r.message@ == message@,
            r.image@ == image@,
            r.likes@.len() == 0,
    {
        Idea {
            id: fresh_uuid(),
            created_at: now_millis(),
            message,
            image,
            likes: Vec::new(),
        }
    }

    /// The row this idea maps to when persisted.
    pub fn to_idea_db(&self) -> (r: IdeaDB)
        ensures
            r@ == row_of_idea(*self),
    {
        IdeaDB {
            id: self.id.clone(),
            created_at: self.created_at,
            message: self.message.clone(),
            image: self.image.clone(),
        }
    }

    /// The same idea with `likes` replaced; the original is not changed.
    pub fn add_likes(&self, likes: Vec<Like>) -> (r: Idea)
        ensures
            r.id@ == self.id@,
            r.created_at == self.created_at,
            r.message@ == self.message@,
            r.image@ == self.image@,
            r.likes == likes,
    {
        Idea {
            id: self.id.clone(),
            created_at: self.created_at,
            message: self.message.clone(),
            image: self.image.clone(),
            likes,
        }
    }
}

impl IdeaDB {
    /// The API form of a stored idea, with no likes attached yet.
    pub fn to_idea(&self) -> (r: Idea)
        ensures
            idea_matches_row(r, self@),
            r.likes@.len() == 0,
    {
        Idea {
            id: self.id.clone(),
            created_at: self.created_at,
            message: self.message.clone(),
            image: self.image.clone(),
            likes: Vec::new(),
        }
    }
}

/// A creation request: the message is required, and there is no image field
/// on the wire, so the image defaults to the empty string.
#[derive(Debug)]
pub struct IdeaRequest {
    pub message: Option<String>,
}

impl IdeaRequest {
    /// The idea a request describes, or `None` when the message is missing.
    pub fn to_idea(&self) -> (r: Option<Idea>)
        ensures
            r is Some <==> self.message is Some,
            (match r {
                Some(idea) => {
                    &&& is_uuid_chars(idea.id@)
                    &&& (match self.message {
                        Some(m) => idea.message@ == m@,
                        None => false,
                    })
                    &&& idea.image@ == Seq::<char>::empty()
                    &&& idea.likes@.len() == 0
                },
                None => true,
            }),
    {
        match &self.message {
            Some(m) => Some(Idea::new(m.clone(), String::new())),
            None => None,
        }
    }
}

// ---------------------------------------------------------------------------
// The idea service.
// ---------------------------------------------------------------------------
/// The first `limit` ideas, newest first, each with no likes attached yet.
pub fn list_ideas(store: &Store, limit: usize) -> (r: Ideas)
    requires
        store@.wf(),
    ensures
        r.results@.len() == spec_first_ideas(store@, limit as int).len(),
        r.results@.len() <= limit,
        forall|i: int|
            0 <= i < r.results@.len() ==> idea_matches_row(
                #[trigger] r.results@[i],
                spec_first_ideas(store@, limit as int)[i],
            ),
        forall|i: int| 0 <= i < r.results@.len() ==> (#[trigger] r.results@[i]).likes@.len() == 0,
        forall|i: int, j: int|
            0 <= i <= j < r.results@.len() ==> (#[trigger] r.results@[i]).created_at >= (
            #[trigger] r.results@[j]).created_at,
{
    let rows = store.select_ideas(limit);
    let n = rows.len();
    let mut out: Vec<Idea> = Vec::new();
    let mut i: usize = 0;
    while i < n
        invariant
            0 <= i <= n,
            n == rows.len(),
            ideas_view(rows@) == spec_first_ideas(store@, limit as int),
            out@.len() == i,
            forall|j: int|
                0 <= j < i ==> idea_matches_row(#[trigger] out@[j], ideas_view(rows@)[j]),
            forall|j: int| 0 <= j < i ==> (#[trigger] out@[j]).likes@.len() == 0,
        decreases n - i,
    {
        out.push(rows[i].to_idea());
        i = i + 1;
    }
    proof {
        assert forall|i: int, j: int| 0 <= i <= j < out@.len() implies (#[trigger] out@[i]).created_at
            >= (#[trigger] out@[j]).created_at by {
            let vr = ideas_view(rows@);
            assert(out@[i].created_at as int == vr[i].created_at);
            assert(out@[j].created_at as int == vr[j].created_at);
            assert(vr[i] == store@.ideas[i] && vr[j] == store@.ideas[j]);
            assert(idea_time()(store@.ideas[i]) >= idea_time()(store@.ideas[j]));
        }
    }
    Ideas { results: out }
}

/// The idea carrying `id`, with no likes attached, or `NotFound`.
pub fn find_idea(store: &Store, id: &String) -> (r: Result<Idea, ApiError>)
    ensures
        r is Ok <==> spec_find_idea(store@, id@) is Some,
        (match r {
            Ok(idea) => (match spec_find_idea(store@, id@) {
                Some(row) => idea_matches_row(idea, row) && idea.likes@.len() == 0,
                None => false,
            }),
            Err(e) => e == ApiError::NotFound,
        }),
{
    match store.select_idea(id) {
        Some(row) => Ok(row.to_idea()),
        None => Err(ApiError::NotFound),
    }
}

/// Persist an idea and return the stored record. A collision on the id — the
/// store already holding a row with it — leaves the store unchanged, and the
/// record is still returned.
pub fn create_idea(store: &mut Store, idea: Idea) -> (r: Result<Idea, ApiError>)
    requires
        old(store)@.wf(),
    ensures
        final(store)@.wf(),
        r is Ok,
        (match r {
            Ok(out) => {
                &&& out.id@ == idea.id@
                &&& out.created_at == idea.created_at
                &&& out.message@ == idea.message@
                &&& out.image@ == idea.image@
                &&& out.likes@.len() == 0
            },
            Err(_) => false,
        }),
        old(store)@.idea_id_fresh(idea.id@) ==> final(store)@ == spec_insert_idea(
            old(store)@,
            row_of_idea(idea),
        ),
        !old(store)@.idea_id_fresh(idea.id@) ==> final(store)@ == old(store)@,
{
    let row = idea.to_idea_db();
    let out = row.to_idea();
    if store.contains_idea_id(&row.id) {
        Ok(out)
    } else {
        store.insert_idea(row);
        Ok(out)
    }
}

/// Delete the idea carrying `id`. Success is reported whether or not such an
/// idea existed; its likes stay in their table, unreachable through the API.
pub fn delete_idea(store: &mut Store, id: &String) -> (r: Result<(), ApiError>)
    requires
        old(store)@.wf(),
    ensures
        final(store)@.wf(),
        r is Ok,
        final(store)@ == spec_delete_idea(old(store)@, id@),
{
    store.delete_idea_row(id);
    Ok(())
}

// ---------------------------------------------------------------------------
// What the HTTP layer answers on the idea routes.
// ---------------------------------------------------------------------------
/// GET of the idea list: always 200, at most fifty ideas, newest first, each
/// with its own likes attached.
pub fn list(store: &Store) -> (r: (u16, Ideas))
    requires
        store@.wf(),
    ensures
        r.0 == STATUS_OK,
        r.1.results@.len() == spec_first_ideas(store@, 50).len(),
        forall|i: int|
            0 <= i < r.1.results@.len() ==> idea_matches_row(
                #[trigger] r.1.results@[i],
                spec_first_ideas(store@, 50)[i],
            ),
        forall|i: int|
            0 <= i < r.1.results@.len() ==> likes_match_rows(
                (#[trigger] r.1.results@[i]).likes@,
                spec_likes_of(store@, r.1.results@[i].id@),
            ),
        forall|i: int, j: int|
            0 <= i <= j < r.1.results@.len() ==> (#[trigger] r.1.results@[i]).created_at >= (
            #[trigger] r.1.results@[j]).created_at,
{
    let ideas = list_ideas(store, 50);
    let n = ideas.results.len();
    let mut out: Vec<Idea> = Vec::new();
    let mut i: usize = 0;
    while i < n
        invariant
            0 <= i <= n,
            n == ideas.results.len(),
            store@.wf(),
            out@.len() == i,
            forall|j: int|
                0 <= j < i ==> idea_matches_row(
                    #[trigger] out@[j],
                    row_of_idea(ideas.results@[j]),
                ),
            forall|j: int|
                0 <= j < i ==> likes_match_rows(
                    (#[trigger] out@[j]).likes@,
                    spec_likes_of(store@, out@[j].id@),
                ),
        decreases n - i,
    {
        let likes = list_likes(store, &ideas.results[i].id);
        out.push(ideas.results[i].add_likes(likes.results));
        i = i + 1;
    }
    proof {
        assert forall|i: int| 0 <= i < out@.len() implies idea_matches_row(
            #[trigger] out@[i],
            spec_first_ideas(store@, 50)[i],
        ) by {
            assert(idea_matches_row(ideas.results@[i], spec_first_ideas(store@, 50)[i]));
        }
        assert forall|i: int, j: int| 0 <= i <= j < out@.len() implies (#[trigger] out@[i]).created_at
            >= (#[trigger] out@[j]).created_at by {
            assert(idea_matches_row(out@[i], row_of_idea(ideas.results@[i])));
            assert(idea_matches_row(out@[j], row_of_idea(ideas.results@[j])));
            assert(ideas.results@[i].created_at >= ideas.results@[j].created_at);
        }
    }
    (STATUS_OK, Ideas { results: out })
}

/// POST of an idea: 201 with the stored record, or 400 with a structured
/// validation error when the message is missing.
pub fn create(store: &mut Store, req: IdeaRequest) -> (r: (u16, Result<Idea, ApiError>))
    requires
        old(store)@.wf(),
    ensures
        final(store)@.wf(),
        req.message is None ==> r.0 == STATUS_BAD_REQUEST && r.1 == Err::<Idea, ApiError>(
            ApiError::ValidationFailure,
        ) && final(store)@ == old(store)@,
        req.message is Some ==> r.0 == STATUS_CREATED && r.1 is Ok,
        (match r.1 {
            Ok(out) => {
                &&& is_uuid_chars(out.id@)
                &&& (match req.message {
                    Some(m) => out.message@ == m@,
                    None => false,
                })
                &&& out.image@ == Seq::<char>::empty()
                &&& out.likes@.len() == 0
                &&& (old(store)@.idea_id_fresh(out.id@) ==> final(store)@ == spec_insert_idea(
                    old(store)@,
                    row_of_idea(out),
                ))
                &&& (!old(store)@.idea_id_fresh(out.id@) ==> final(store)@ == old(store)@)
            },
            Err(e) => e == ApiError::ValidationFailure,
        }),
{
    match req.to_idea() {
        Some(idea) => {
            let ghost planned = row_of_idea(idea);
            match create_idea(store, idea) {
                Ok(out) => {
                    proof {
                        assert(row_of_idea(out) =~= planned);
                    }
                    (STATUS_CREATED, Ok(out))
                },
                Err(_) => {
                    proof {
                        assert(false);
                    }
                    (STATUS_BAD_REQUEST, Err(ApiError::ValidationFailure))
                },
            }
        },
        None => (STATUS_BAD_REQUEST, Err(ApiError::ValidationFailure)),
    }
}

/// GET of one idea: 200 with the idea and its likes, or 204 with no body
/// when the id is unknown.
pub fn get(store: &Store, id: &String) -> (r: (u16, Option<Idea>))
    requires
        store@.wf(),
    ensures
        (match spec_find_idea(store@, id@) {
            Some(row) => r.0 == STATUS_OK && (match r.1 {
                Some(idea) => idea_matches_row(idea, row) && likes_match_rows(
                    idea.likes@,
                    spec_likes_of(store@, row.id),
                ) && (forall|a: int, b: int|
                    0 <= a <= b < idea.likes@.len() ==> (#[trigger] idea.likes@[a]).created_at >= (
                    #[trigger] idea.likes@[b]).created_at),
                None => false,
            }),
            None => r.0 == STATUS_NO_CONTENT && r.1 is None,
        }),
{
    match find_idea(store, id) {
        Ok(idea) => {
            let likes = list_likes(store, &idea.id);
            let full = idea.add_likes(likes.results);
            (STATUS_OK, Some(full))
        },
        Err(_) => (STATUS_NO_CONTENT, None),
    }
}

/// DELETE of one idea: always 204.
pub fn delete(store: &mut Store, id: &String) -> (r: u16)
    requires
        old(store)@.wf(),
    ensures
        final(store)@.wf(),
        r == STATUS_NO_CONTENT,
        final(store)@ == spec_delete_idea(old(store)@, id@),
{
    let _ = delete_idea(store, id);
    STATUS_NO_CONTENT
}

} // verus!
