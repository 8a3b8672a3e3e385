//! The laws the services obey, proved over the same store model their
//! contracts are stated with.

use vstd::prelude::*;

use crate::idea::IdeaRowV;
use crate::like::LikeRowV;
use crate::store::{
    idea_has_id, idea_lacks_id, idea_time, insert_pos, lemma_filter_all, lemma_filter_first_match,
    lemma_filter_none, lemma_filter_sorted, lemma_insert_pos_props, lemma_remove_only_mismatch,
    like_id_of, like_lacks_id, like_of_idea, like_time, spec_delete_idea, spec_delete_like,
    spec_find_idea, spec_insert_idea, spec_insert_like, spec_likes_of, StoreV,
};

verus! {

/// The index of the first row satisfying `p`, for a table where some row does.
proof fn first_match_index<A>(s: Seq<A>, p: spec_fn(A) -> bool) -> (j: int)
    requires
        s.filter(p).len() > 0,
    ensures
        0 <= j < s.len(),
        p(s[j]),
        forall|i: int| 0 <= i < j ==> !p(#[trigger] s[i]),
    decreases s.len(),
{
    assert(s.len() > 0) by {
        if s.len() == 0 {
            lemma_filter_none(s, p);
        }
    }
    if p(s[0]) {
        0
    } else {
        assert(s =~= seq![s[0]] + s.drop_first());
        s.drop_first().lemma_filter_prepend(s[0], p);
        let j = first_match_index(s.drop_first(), p) + 1;
        assert forall|i: int| 0 <= i < j implies !p(#[trigger] s[i]) by {
            if i > 0 {
                assert(s.drop_first()[i - 1] == s[i]);
            }
        }
        assert(s.drop_first()[j - 1] == s[j]);
        j
    }
}

/// An id that cannot be found is exactly an id no stored idea carries; it is
/// the shape in which the hypotheses of the creation and deletion laws show
/// up through `find`.
pub proof fn lemma_find_none_iff_fresh(s: StoreV, id: Seq<char>)
    ensures
        spec_find_idea(s, id) is None <==> s.idea_id_fresh(id),
{
    if s.idea_id_fresh(id) {
        lemma_filter_none(s.ideas, idea_has_id(id));
    }
    if spec_find_idea(s, id) is None {
        assert forall|i: int| 0 <= i < s.ideas.len() implies (#[trigger] s.ideas[i]).id != id by {
            if s.ideas[i].id == id {
                s.ideas.lemma_filter_contains(idea_has_id(id), i);
            }
        }
    }
}

/// Creating an idea and looking its id up finds exactly what was created:
/// inserting a row with a fresh id into a well-formed store and then finding
/// that id yields that row, message and image included.
pub proof fn lemma_find_after_create(s: StoreV, row: IdeaRowV)
    requires
        s.wf(),
        s.idea_id_fresh(row.id),
    ensures
        spec_find_idea(spec_insert_idea(s, row), row.id) == Some(row),
{
    let pos = insert_pos(s.ideas, idea_time(), row.created_at);
    lemma_insert_pos_props(s.ideas, idea_time(), row.created_at);
    let t = s.ideas.insert(pos, row);
    s.ideas.insert_ensures(pos, row);
    assert forall|i: int| 0 <= i < pos implies !idea_has_id(row.id)(#[trigger] t[i]) by {
        assert(t[i] == s.ideas[i]);
    }
    lemma_filter_first_match(t, idea_has_id(row.id), pos);
}

/// Deleting an idea makes its id unfindable: after a delete, finding the
/// same id yields nothing.
pub proof fn lemma_find_after_delete(s: StoreV, id: Seq<char>)
    ensures
        spec_find_idea(spec_delete_idea(s, id), id) is None,
{
    let kept = s.ideas.filter(idea_lacks_id(id));
    assert forall|i: int| 0 <= i < kept.len() implies !idea_has_id(id)(#[trigger] kept[i]) by {
        s.ideas.lemma_filter_pred(idea_lacks_id(id), i);
    }
    lemma_filter_none(kept, idea_has_id(id));
}

/// Deleting an idea is idempotent: a second delete of the same id changes
/// nothing (and the service reports success both times).
pub proof fn lemma_delete_idea_idempotent(s: StoreV, id: Seq<char>)
    ensures
        spec_delete_idea(spec_delete_idea(s, id), id) == spec_delete_idea(s, id),
{
    let kept = s.ideas.filter(idea_lacks_id(id));
    assert forall|i: int| 0 <= i < kept.len() implies idea_lacks_id(id)(#[trigger] kept[i]) by {
        s.ideas.lemma_filter_pred(idea_lacks_id(id), i);
    }
    lemma_filter_all(kept, idea_lacks_id(id));
    assert(spec_delete_idea(spec_delete_idea(s, id), id) =~= spec_delete_idea(s, id));
}

/// A new like lists first: as long as its timestamp is not behind any stored
/// like's, inserting it puts it at the head of its idea's like list, and the
/// rest of that list is unchanged.
pub proof fn lemma_new_like_listed_first(s: StoreV, row: LikeRowV)
    requires
        forall|i: int| 0 <= i < s.likes.len() ==> row.created_at >= (#[trigger] s.likes[i]).created_at,
    ensures
        spec_likes_of(spec_insert_like(s, row), row.idea_id) == seq![row] + spec_likes_of(
            s,
            row.idea_id,
        ),
        spec_likes_of(spec_insert_like(s, row), row.idea_id).len() == spec_likes_of(
            s,
            row.idea_id,
        ).len() + 1,
        spec_likes_of(spec_insert_like(s, row), row.idea_id)[0] == row,
{
    let pos = insert_pos(s.likes, like_time(), row.created_at);
    assert(pos == 0);
    let t = s.likes.insert(0, row);
    assert(t =~= seq![row] + s.likes);
    s.likes.lemma_filter_prepend(row, like_of_idea(row.idea_id));
}

/// Deleting a like removes exactly the most recent one: with likes present,
/// the idea's like list afterwards is the old list without its head, one
/// stored like is gone in all, and the head was the newest of the list.
pub proof fn lemma_delete_like_removes_most_recent(s: StoreV, idea_id: Seq<char>)
    requires
        s.wf(),
        spec_likes_of(s, idea_id).len() > 0,
    ensures
        spec_likes_of(spec_delete_like(s, idea_id), idea_id) == spec_likes_of(
            s,
            idea_id,
        ).drop_first(),
        spec_delete_like(s, idea_id).likes.len() == s.likes.len() - 1,
        forall|i: int|
            0 <= i < spec_likes_of(s, idea_id).len() ==> spec_likes_of(s, idea_id)[0].created_at
                >= (#[trigger] spec_likes_of(s, idea_id)[i]).created_at,
{
    let p = like_of_idea(idea_id);
    let ls = s.likes.filter(p);
    let j = first_match_index(s.likes, p);
    lemma_filter_first_match(s.likes, p, j);
    let target = ls[0].id;
    assert(s.likes[j] == ls[0]);
    // Removing by the head's id removes the row at `j` and nothing else.
    assert forall|k: int| 0 <= k < s.likes.len() && k != j implies like_lacks_id(target)(
        #[trigger] s.likes[k],
    ) by {
        if k < j {
            assert(like_id_of()(s.likes[k]) != like_id_of()(s.likes[j]));
        } else {
            assert(like_id_of()(s.likes[j]) != like_id_of()(s.likes[k]));
        }
    }
    lemma_remove_only_mismatch(s.likes, like_lacks_id(target), j);
    // The idea's like list afterwards: everything that matched after `j`.
    let after = s.likes.remove(j);
    assert(after =~= s.likes.take(j) + s.likes.skip(j + 1));
    Seq::filter_distributes_over_add(s.likes.take(j), s.likes.skip(j + 1), p);
    assert forall|i: int| 0 <= i < s.likes.take(j).len() implies !p(
        #[trigger] s.likes.take(j)[i],
    ) by {
        assert(s.likes.take(j)[i] == s.likes[i]);
    }
    lemma_filter_none(s.likes.take(j), p);
    assert(after.filter(p) =~= s.likes.skip(j + 1).filter(p));
    assert(ls.drop_first() =~= s.likes.skip(j + 1).filter(p));
    // The head was the newest like of the idea.
    lemma_filter_sorted(s.likes, like_time(), p);
    assert forall|i: int| 0 <= i < ls.len() implies ls[0].created_at >= (
    #[trigger] ls[i]).created_at by {
        assert(like_time()(ls[0]) >= like_time()(ls[i]));
    }
}

} // verus!
