//! The store: the two relational tables behind the services. Each table is
//! held sorted by creation time, newest first, and keyed by a unique id;
//! those two facts are the store's well-formedness invariant, established by
//! the empty store and preserved by every operation.

use vstd::prelude::*;

use crate::idea::{IdeaDB, IdeaRowV};
use crate::like::{LikeDB, LikeRowV};

verus! {

// ---------------------------------------------------------------------------
// Ordering and uniqueness of table rows.
// ---------------------------------------------------------------------------
/// Rows are ordered by `key`, largest first.
pub open spec fn sorted_desc<A>(s: Seq<A>, key: spec_fn(A) -> int) -> bool {
    forall|i: int, j: int| 0 <= i <= j < s.len() ==> key(#[trigger] s[i]) >= key(#[trigger] s[j])
}

/// No two rows share the same id.
pub open spec fn keys_unique<A>(s: Seq<A>, idk: spec_fn(A) -> Seq<char>) -> bool {
    forall|i: int, j: int|
        0 <= i < j < s.len() ==> idk(#[trigger] s[i]) != idk(#[trigger] s[j])
}

/// Where a row with key `ts` is placed in a descending table: before the
/// first row whose key is at most `ts`, so among equal keys the new row
/// comes first.
pub open spec fn insert_pos<A>(s: Seq<A>, key: spec_fn(A) -> int, ts: int) -> int
    decreases s.len(),
{
    if s.len() == 0 {
        0
    } else if ts >= key(s[0]) {
        0
    } else {
        1 + insert_pos(s.drop_first(), key, ts)
    }
}

/// The insertion position is a valid index bound; everything before it has a
/// strictly larger key, and the row at it (if any) has a key at most `ts`.
pub proof fn lemma_insert_pos_props<A>(s: Seq<A>, key: spec_fn(A) -> int, ts: int)
    ensures
        0 <= insert_pos(s, key, ts) <= s.len(),
        forall|j: int| 0 <= j < insert_pos(s, key, ts) ==> key(#[trigger] s[j]) > ts,
        insert_pos(s, key, ts) < s.len() ==> ts >= key(s[insert_pos(s, key, ts)]),
    decreases s.len(),
{
    let pos = insert_pos(s, key, ts);
    if s.len() == 0 || ts >= key(s[0]) {
    } else {
        lemma_insert_pos_props(s.drop_first(), key, ts);
        assert forall|j: int| 0 <= j < pos implies key(#[trigger] s[j]) > ts by {
            if j > 0 {
                assert(s.drop_first()[j - 1] == s[j]);
            }
        }
        if pos < s.len() {
            assert(s.drop_first()[pos - 1] == s[pos]);
        }
    }
}

/// Inserting at the insertion position keeps the table sorted.
pub proof fn lemma_insert_sorted<A>(s: Seq<A>, key: spec_fn(A) -> int, x: A)
    requires
        sorted_desc(s, key),
    ensures
        sorted_desc(s.insert(insert_pos(s, key, key(x)), x), key),
{
    let pos = insert_pos(s, key, key(x));
    lemma_insert_pos_props(s, key, key(x));
    let t = s.insert(pos, x);
    assert forall|i: int, j: int| 0 <= i <= j < t.len() implies key(#[trigger] t[i]) >= key(
        #[trigger] t[j],
    ) by {
        if i < pos {
            assert(t[i] == s[i]);
        } else if i > pos {
            assert(t[i] == s[i - 1]);
        }
        if j < pos {
            assert(t[j] == s[j]);
        } else if j > pos {
            assert(t[j] == s[j - 1]);
        }
    }
}

/// Inserting a row whose id is fresh keeps the ids unique.
pub proof fn lemma_insert_unique<A>(s: Seq<A>, idk: spec_fn(A) -> Seq<char>, x: A, pos: int)
    requires
        keys_unique(s, idk),
        forall|i: int| 0 <= i < s.len() ==> idk(#[trigger] s[i]) != idk(x),
        0 <= pos <= s.len(),
    ensures
        keys_unique(s.insert(pos, x), idk),
{
    let t = s.insert(pos, x);
    assert forall|i: int, j: int| 0 <= i < j < t.len() implies idk(#[trigger] t[i]) != idk(
        #[trigger] t[j],
    ) by {
        if i < pos {
            assert(t[i] == s[i]);
        } else if i > pos {
            assert(t[i] == s[i - 1]);
        }
        if j < pos {
            assert(t[j] == s[j]);
        } else if j > pos {
            assert(t[j] == s[j - 1]);
        }
    }
}

// ---------------------------------------------------------------------------
// Facts about filtering a table.
// ---------------------------------------------------------------------------
/// A filter that nothing satisfies keeps nothing.
pub proof fn lemma_filter_none<A>(s: Seq<A>, p: spec_fn(A) -> bool)
    requires
        forall|i: int| 0 <= i < s.len() ==> !p(#[trigger] s[i]),
    ensures
        s.filter(p) == Seq::<A>::empty(),
    decreases s.len(),
{
    reveal(Seq::filter);
    if s.len() > 0 {
        lemma_filter_none(s.drop_last(), p);
    }
    assert(s.filter(p) =~= Seq::<A>::empty());
}

/// A filter that everything satisfies keeps everything.
pub proof fn lemma_filter_all<A>(s: Seq<A>, p: spec_fn(A) -> bool)
    requires
        forall|i: int| 0 <= i < s.len() ==> p(#[trigger] s[i]),
    ensures
        s.filter(p) == s,
    decreases s.len(),
{
    reveal(Seq::filter);
    if s.len() > 0 {
        lemma_filter_all(s.drop_last(), p);
    }
    assert(s.filter(p) =~= s);
}

/// Everything a filter keeps was in the table.
pub proof fn lemma_filter_members<A>(s: Seq<A>, p: spec_fn(A) -> bool)
    ensures
        forall|k: int| 0 <= k < s.filter(p).len() ==> s.contains(#[trigger] s.filter(p)[k]),
    decreases s.len(),
{
    reveal(Seq::filter);
    if s.len() > 0 {
        let d = s.drop_last();
        lemma_filter_members(d, p);
        broadcast use vstd::seq_lib::group_filter_ensures;

        assert forall|k: int| 0 <= k < s.filter(p).len() implies s.contains(
            #[trigger] s.filter(p)[k],
        ) by {
            let f = s.filter(p);
            let fd = d.filter(p);
            if p(s.last()) {
                assert(f == fd.push(s.last()));
            }
            if k < fd.len() {
                assert(f[k] == fd[k]);
                assert(d.contains(fd[k]));
                let w = choose|w: int| 0 <= w < d.len() && d[w] == fd[k];
                assert(s[w] == f[k]);
            } else {
                assert(f[k] == s.last());
                assert(s[s.len() - 1] == f[k]);
            }
        }
    }
}

/// Filtering a sorted table yields a sorted table.
pub proof fn lemma_filter_sorted<A>(s: Seq<A>, key: spec_fn(A) -> int, p: spec_fn(A) -> bool)
    requires
        sorted_desc(s, key),
    ensures
        sorted_desc(s.filter(p), key),
    decreases s.len(),
{
    reveal(Seq::filter);
    if s.len() > 0 {
        let d = s.drop_last();
        lemma_filter_sorted(d, key, p);
        lemma_filter_members(d, p);
        let f = s.filter(p);
        let fd = d.filter(p);
        assert forall|i: int, j: int| 0 <= i <= j < f.len() implies key(#[trigger] f[i]) >= key(
            #[trigger] f[j],
        ) by {
            if p(s.last()) {
                assert(f == fd.push(s.last()));
            }
            if j < fd.len() {
                assert(f[i] == fd[i] && f[j] == fd[j]);
            } else if i < fd.len() {
                // f[j] is the last row of s; f[i] sits somewhere in d.
                assert(f[i] == fd[i]);
                assert(d.contains(fd[i]));
                let w = choose|w: int| 0 <= w < d.len() && d[w] == fd[i];
                assert(s[w] == f[i]);
                assert(key(s[w]) >= key(s[s.len() - 1]));
            }
        }
    }
}

/// Filtering a table with unique ids yields a table with unique ids.
pub proof fn lemma_filter_unique<A>(s: Seq<A>, idk: spec_fn(A) -> Seq<char>, p: spec_fn(A) -> bool)
    requires
        keys_unique(s, idk),
    ensures
        keys_unique(s.filter(p), idk),
    decreases s.len(),
{
    reveal(Seq::filter);
    if s.len() > 0 {
        let d = s.drop_last();
        lemma_filter_unique(d, idk, p);
        lemma_filter_members(d, p);
        let f = s.filter(p);
        let fd = d.filter(p);
        assert forall|i: int, j: int| 0 <= i < j < f.len() implies idk(#[trigger] f[i]) != idk(
            #[trigger] f[j],
        ) by {
            if p(s.last()) {
                assert(f == fd.push(s.last()));
            }
            if j < fd.len() {
                assert(f[i] == fd[i] && f[j] == fd[j]);
            } else if i < fd.len() {
                assert(f[i] == fd[i]);
                assert(d.contains(fd[i]));
                let w = choose|w: int| 0 <= w < d.len() && d[w] == fd[i];
                assert(s[w] == f[i]);
                assert(idk(s[w]) != idk(s[s.len() - 1]));
            }
        }
    }
}

/// When the first row satisfying `p` stands at index `j`, the filter keeps
/// that row first, followed by whatever matches after it.
pub proof fn lemma_filter_first_match<A>(s: Seq<A>, p: spec_fn(A) -> bool, j: int)
    requires
        0 <= j < s.len(),
        p(s[j]),
        forall|i: int| 0 <= i < j ==> !p(#[trigger] s[i]),
    ensures
        s.filter(p) == seq![s[j]] + s.skip(j + 1).filter(p),
{
    let a = s.take(j);
    let b = seq![s[j]] + s.skip(j + 1);
    assert(s =~= a + b);
    Seq::filter_distributes_over_add(a, b, p);
    lemma_filter_none(a, p);
    s.skip(j + 1).lemma_filter_prepend(s[j], p);
    assert(s.filter(p) =~= seq![s[j]] + s.skip(j + 1).filter(p));
}

/// Removing the one row that fails `q` is the same as filtering by `q`.
pub proof fn lemma_remove_only_mismatch<A>(s: Seq<A>, q: spec_fn(A) -> bool, j: int)
    requires
        0 <= j < s.len(),
        !q(s[j]),
        forall|i: int| 0 <= i < s.len() && i != j ==> q(#[trigger] s[i]),
    ensures
        s.filter(q) == s.remove(j),
{
    let a = s.take(j);
    let b = s.skip(j + 1);
    assert(s =~= a + (seq![s[j]] + b));
    Seq::filter_distributes_over_add(a, seq![s[j]] + b, q);
    b.lemma_filter_prepend(s[j], q);
    lemma_filter_all(a, q);
    lemma_filter_all(b, q);
    assert(s.filter(q) =~= s.remove(j));
}

// ---------------------------------------------------------------------------
// The store and its mathematical model.
// ---------------------------------------------------------------------------
/// The mathematical content of the store: the two tables as row sequences.
#[verifier::ext_equal]
pub ghost struct StoreV {
    pub ideas: Seq<IdeaRowV>,
    pub likes: Seq<LikeRowV>,
}

/// The rows of the idea table.
pub open spec fn ideas_view(s: Seq<IdeaDB>) -> Seq<IdeaRowV> {
    s.map_values(|r: IdeaDB| r@)
}

/// The rows of the like table.
pub open spec fn likes_view(s: Seq<LikeDB>) -> Seq<LikeRowV> {
    s.map_values(|r: LikeDB| r@)
}

/// An idea row's creation time.
pub open spec fn idea_time() -> spec_fn(IdeaRowV) -> int {
    |r: IdeaRowV| r.created_at
}

/// An idea row's id.
pub open spec fn idea_id_of() -> spec_fn(IdeaRowV) -> Seq<char> {
    |r: IdeaRowV| r.id
}

/// A like row's creation time.
pub open spec fn like_time() -> spec_fn(LikeRowV) -> int {
    |l: LikeRowV| l.created_at
}

/// A like row's id.
pub open spec fn like_id_of() -> spec_fn(LikeRowV) -> Seq<char> {
    |l: LikeRowV| l.id
}

/// The idea row carrying `id`.
pub open spec fn idea_has_id(id: Seq<char>) -> spec_fn(IdeaRowV) -> bool {
    |r: IdeaRowV| r.id == id
}

/// Every idea row but the one carrying `id`.
pub open spec fn idea_lacks_id(id: Seq<char>) -> spec_fn(IdeaRowV) -> bool {
    |r: IdeaRowV| r.id != id
}

/// Every like row but the one carrying `id`.
pub open spec fn like_lacks_id(id: Seq<char>) -> spec_fn(LikeRowV) -> bool {
    |l: LikeRowV| l.id != id
}

/// The like rows owned by the idea `idea_id`.
pub open spec fn like_of_idea(idea_id: Seq<char>) -> spec_fn(LikeRowV) -> bool {
    |l: LikeRowV| l.idea_id == idea_id
}

impl StoreV {
    /// Both tables sorted newest first, both keyed by unique ids.
    pub open spec fn wf(self) -> bool {
        &&& sorted_desc(self.ideas, idea_time())
        &&& keys_unique(self.ideas, idea_id_of())
        &&& sorted_desc(self.likes, like_time())
        &&& keys_unique(self.likes, like_id_of())
    }

    /// No idea row carries `id`.
    pub open spec fn idea_id_fresh(self, id: Seq<char>) -> bool {
        forall|i: int| 0 <= i < self.ideas.len() ==> (#[trigger] self.ideas[i]).id != id
    }

    /// No like row carries `id`.
    pub open spec fn like_id_fresh(self, id: Seq<char>) -> bool {
        forall|i: int| 0 <= i < self.likes.len() ==> (#[trigger] self.likes[i]).id != id
    }
}

/// The idea row carrying `id`, if any.
pub open spec fn spec_find_idea(s: StoreV, id: Seq<char>) -> Option<IdeaRowV> {
    let m = s.ideas.filter(idea_has_id(id));
    if m.len() == 0 {
        None
    } else {
        Some(m[0])
    }
}

/// The store after an idea row is inserted at its sorted position.
pub open spec fn spec_insert_idea(s: StoreV, row: IdeaRowV) -> StoreV {
    StoreV {
        ideas: s.ideas.insert(insert_pos(s.ideas, idea_time(), row.created_at), row),
        likes: s.likes,
    }
}

/// The store after the idea row carrying `id` is deleted. The likes it owned
/// stay in their table; referential integrity is the application's concern,
/// not the store's.
pub open spec fn spec_delete_idea(s: StoreV, id: Seq<char>) -> StoreV {
    StoreV { ideas: s.ideas.filter(idea_lacks_id(id)), likes: s.likes }
}

/// The like rows owned by `idea_id`, newest first.
pub open spec fn spec_likes_of(s: StoreV, idea_id: Seq<char>) -> Seq<LikeRowV> {
    s.likes.filter(like_of_idea(idea_id))
}

/// The store after a like row is inserted at its sorted position.
pub open spec fn spec_insert_like(s: StoreV, row: LikeRowV) -> StoreV {
    StoreV {
        ideas: s.ideas,
        likes: s.likes.insert(insert_pos(s.likes, like_time(), row.created_at), row),
    }
}

/// The store after a like of `idea_id` is deleted: the newest one goes;
/// with none there, nothing changes.
pub open spec fn spec_delete_like(s: StoreV, idea_id: Seq<char>) -> StoreV {
    let ls = spec_likes_of(s, idea_id);
    if ls.len() == 0 {
        s
    } else {
        StoreV { ideas: s.ideas, likes: s.likes.filter(like_lacks_id(ls[0].id)) }
    }
}

/// The first `n` idea rows, or all of them when fewer exist.
pub open spec fn spec_first_ideas(s: StoreV, n: int) -> Seq<IdeaRowV> {
    if n <= s.ideas.len() {
        s.ideas.take(n)
    } else {
        s.ideas
    }
}

// ---------------------------------------------------------------------------
// The store itself.
// ---------------------------------------------------------------------------
/// The two tables. The `wf` invariant of the view is what every operation
/// here requires and preserves.
pub struct Store {
    pub ideas: Vec<IdeaDB>,
    pub likes: Vec<LikeDB>,
}

impl View for Store {
    type V = StoreV;

    open spec fn view(&self) -> StoreV {
        StoreV { ideas: ideas_view(self.ideas@), likes: likes_view(self.likes@) }
    }
}

/// A copy of an idea row.
fn dup_idea_row(r: &IdeaDB) -> (d: IdeaDB)
    ensures
        d@ == r@,
{
    IdeaDB {
        id: r.id.clone(),
        created_at: r.created_at,
        message: r.message.clone(),
        image: r.image.clone(),
    }
}

/// A copy of a like row.
fn dup_like_row(r: &LikeDB) -> (d: LikeDB)
    ensures
        d@ == r@,
{
    LikeDB { id: r.id.clone(), created_at: r.created_at, idea_id: r.idea_id.clone() }
}

impl Store {
    /// The empty store.
    pub fn new() -> (r: Store)
        ensures
            r@.ideas.len() == 0,
            r@.likes.len() == 0,
            r@.wf(),
    {
        Store { ideas: Vec::new(), likes: Vec::new() }
    }

    /// Whether some idea row carries `id`.
    pub fn contains_idea_id(&self, id: &String) -> (r: bool)
        ensures
            r == !self@.idea_id_fresh(id@),
    {
        let ghost s = self@.ideas;
        let n = self.ideas.len();
        let mut i: usize = 0;
        while i < n
            invariant
                0 <= i <= n,
                n == self.ideas.len(),
                s == self@.ideas,
                forall|j: int| 0 <= j < i ==> (#[trigger] s[j]).id != id@,
            decreases n - i,
        {
            if self.ideas[i].id == *id {
                assert(s[i as int].id == id@);
                return true;
            }
            i = i + 1;
        }
        false
    }

    /// Whether some like row carries `id`.
    pub fn contains_like_id(&self, id: &String) -> (r: bool)
        ensures
            r == !self@.like_id_fresh(id@),
    {
        let ghost s = self@.likes;
        let n = self.likes.len();
        let mut i: usize = 0;
        while i < n
            invariant
                0 <= i <= n,
                n == self.likes.len(),
                s == self@.likes,
                forall|j: int| 0 <= j < i ==> (#[trigger] s[j]).id != id@,
            decreases n - i,
        {
            if self.likes[i].id == *id {
                assert(s[i as int].id == id@);
                return true;
            }
            i = i + 1;
        }
        false
    }

    /// Insert an idea row at its sorted position; the id must be fresh.
    pub fn insert_idea(&mut self, row: IdeaDB)
        requires
            old(self)@.wf(),
            old(self)@.idea_id_fresh(row@.id),
        ensures
            final(self)@ == spec_insert_idea(old(self)@, row@),
            final(self)@.wf(),
    {
        let ghost s = self@.ideas;
        let ghost ts = row@.created_at;
        proof {
            lemma_insert_pos_props(s, idea_time(), ts);
        }
        let ghost pos = insert_pos(s, idea_time(), ts);
        let n = self.ideas.len();
        let mut i: usize = 0;
        while i < n && row.created_at < self.ideas[i].created_at
            invariant
                0 <= i <= n,
                n == self.ideas.len(),
                s == self@.ideas,
                ts == row@.created_at,
                forall|j: int| 0 <= j < i ==> (#[trigger] s[j]).created_at > ts,
            decreases n - i,
        {
            i = i + 1;
        }
        proof {
            if (i as int) < pos {
                assert(s[i as int].created_at > ts);
                assert(false);
            }
            if pos < i as int {
                assert(s[pos].created_at > ts);
                assert(false);
            }
        }
        self.ideas.insert(i, row);
        proof {
            assert(ideas_view(self.ideas@) =~= s.insert(pos, row@));
            lemma_insert_sorted(s, idea_time(), row@);
            lemma_insert_unique(s, idea_id_of(), row@, pos);
            assert(self@ =~= spec_insert_idea(old(self)@, row@));
        }
    }

    /// Insert a like row at its sorted position; the id must be fresh.
    pub fn insert_like(&mut self, row: LikeDB)
        requires
            old(self)@.wf(),
            old(self)@.like_id_fresh(row@.id),
        ensures
            final(self)@ == spec_insert_like(old(self)@, row@),
            final(self)@.wf(),
    {
        let ghost s = self@.likes;
        let ghost ts = row@.created_at;
        proof {
            lemma_insert_pos_props(s, like_time(), ts);
        }
        let ghost pos = insert_pos(s, like_time(), ts);
        let n = self.likes.len();
        let mut i: usize = 0;
        while i < n && row.created_at < self.likes[i].created_at
            invariant
                0 <= i <= n,
                n == self.likes.len(),
                s == self@.likes,
                ts == row@.created_at,
                forall|j: int| 0 <= j < i ==> (#[trigger] s[j]).created_at > ts,
            decreases n - i,
        {
            i = i + 1;
        }
        proof {
            if (i as int) < pos {
                assert(s[i as int].created_at > ts);
                assert(false);
            }
            if pos < i as int {
                assert(s[pos].created_at > ts);
                assert(false);
            }
        }
        self.likes.insert(i, row);
        proof {
            assert(likes_view(self.likes@) =~= s.insert(pos, row@));
            lemma_insert_sorted(s, like_time(), row@);
            lemma_insert_unique(s, like_id_of(), row@, pos);
            assert(self@ =~= spec_insert_like(old(self)@, row@));
        }
    }

    /// The idea row carrying `id`, if any.
    pub fn select_idea(&self, id: &String) -> (r: Option<&IdeaDB>)
        ensures
            (match r {
                Some(row) => spec_find_idea(self@, id@) == Some(row@),
                None => spec_find_idea(self@, id@) is None,
            }),
    {
        let ghost s = self@.ideas;
        let n = self.ideas.len();
        let mut i: usize = 0;
        while i < n
            invariant
                0 <= i <= n,
                n == self.ideas.len(),
                s == self@.ideas,
                forall|j: int| 0 <= j < i ==> (#[trigger] s[j]).id != id@,
            decreases n - i,
        {
            if self.ideas[i].id == *id {
                proof {
                    lemma_filter_first_match(s, idea_has_id(id@), i as int);
                }
                return Some(&self.ideas[i]);
            }
            i = i + 1;
        }
        proof {
            lemma_filter_none(s, idea_has_id(id@));
        }
        None
    }

    /// The first `limit` idea rows, newest first.
    pub fn select_ideas(&self, limit: usize) -> (r: Vec<IdeaDB>)
        ensures
            ideas_view(r@) == spec_first_ideas(self@, limit as int),
            ideas_view(r@).len() <= self@.ideas.len(),
            forall|k: int|
                0 <= k < ideas_view(r@).len() ==> #[trigger] ideas_view(r@)[k] == self@.ideas[k],
    {
        let ghost s = self@.ideas;
        let n = self.ideas.len();
        let mut out: Vec<IdeaDB> = Vec::new();
        let mut i: usize = 0;
        while i < n && i < limit
            invariant
                0 <= i <= n,
                i <= limit,
                n == self.ideas.len(),
                s == self@.ideas,
                ideas_view(out@) == s.take(i as int),
            decreases n - i,
        {
            let ghost prev = out@;
            out.push(dup_idea_row(&self.ideas[i]));
            proof {
                s.lemma_take_succ_push(i as int);
                assert(ideas_view(out@) =~= ideas_view(prev).push(s[i as int]));
            }
            i = i + 1;
        }
        proof {
            if limit as int <= s.len() {
                assert(i == limit);
            } else {
                assert(i as int == s.len());
                s.lemma_take_len();
            }
        }
        out
    }

    /// The like rows owned by `idea_id`, newest first.
    pub fn select_likes(&self, idea_id: &String) -> (r: Vec<LikeDB>)
        ensures
            likes_view(r@) == spec_likes_of(self@, idea_id@),
    {
        let ghost s = self@.likes;
        let ghost p = like_of_idea(idea_id@);
        let n = self.likes.len();
        let mut out: Vec<LikeDB> = Vec::new();
        let mut i: usize = 0;
        while i < n
            invariant
                0 <= i <= n,
                n == self.likes.len(),
                s == self@.likes,
                p == like_of_idea(idea_id@),
                likes_view(out@) == s.take(i as int).filter(p),
            decreases n - i,
        {
            let ghost prev = out@;
            if self.likes[i].idea_id == *idea_id {
                out.push(dup_like_row(&self.likes[i]));
            }
            proof {
                s.lemma_take_succ_push(i as int);
                s.take(i as int).lemma_filter_push(s[i as int], p);
                if s[i as int].idea_id == idea_id@ {
                    assert(likes_view(out@) =~= likes_view(prev).push(s[i as int]));
                } else {
                    assert(out@ == prev);
                }
            }
            i = i + 1;
        }
        proof {
            s.lemma_take_len();
        }
        out
    }

    /// Delete the idea row carrying `id`; absent, nothing changes.
    #[verifier::loop_isolation(false)]
    pub fn delete_idea_row(&mut self, id: &String)
        requires
            old(self)@.wf(),
        ensures
            final(self)@ == spec_delete_idea(old(self)@, id@),
            final(self)@.wf(),
    {
        let ghost s = self@.ideas;
        let ghost q = idea_lacks_id(id@);
        proof {
            lemma_filter_sorted(s, idea_time(), q);
            lemma_filter_unique(s, idea_id_of(), q);
        }
        let n = self.ideas.len();
        let mut i: usize = 0;
        while i < n
            invariant
                0 <= i <= n,
                n == self.ideas.len(),
                s == self@.ideas,
                self@.likes == old(self)@.likes,
                forall|j: int| 0 <= j < i ==> (#[trigger] s[j]).id != id@,
            decreases n - i,
        {
            if self.ideas[i].id == *id {
                proof {
                    assert forall|k: int| 0 <= k < s.len() && k != i as int implies q(
                        #[trigger] s[k],
                    ) by {
                        if k > i as int {
                            assert(idea_id_of()(s[i as int]) != idea_id_of()(s[k]));
                        }
                    }
                    lemma_remove_only_mismatch(s, q, i as int);
                }
                self.ideas.remove(i);
                proof {
                    assert(ideas_view(self.ideas@) =~= s.remove(i as int));
                    assert(self@ =~= spec_delete_idea(old(self)@, id@));
                }
                return;
            }
            i = i + 1;
        }
        proof {
            lemma_filter_all(s, q);
            assert(self@ =~= spec_delete_idea(old(self)@, id@));
        }
    }

    /// Delete the like row carrying `id`; absent, nothing changes.
    #[verifier::loop_isolation(false)]
    pub fn delete_like_row(&mut self, id: &String)
        requires
            old(self)@.wf(),
        ensures
            final(self)@.ideas == old(self)@.ideas,
            final(self)@.likes == old(self)@.likes.filter(like_lacks_id(id@)),
            final(self)@.wf(),
    {
        let ghost s = self@.likes;
        let ghost q = like_lacks_id(id@);
        proof {
            lemma_filter_sorted(s, like_time(), q);
            lemma_filter_unique(s, like_id_of(), q);
        }
        let n = self.likes.len();
        let mut i: usize = 0;
        while i < n
            invariant
                0 <= i <= n,
                n == self.likes.len(),
                s == self@.likes,
                self@.ideas == old(self)@.ideas,
                forall|j: int| 0 <= j < i ==> (#[trigger] s[j]).id != id@,
            decreases n - i,
        {
            if self.likes[i].id == *id {
                proof {
                    assert forall|k: int| 0 <= k < s.len() && k != i as int implies q(
                        #[trigger] s[k],
                    ) by {
                        if k > i as int {
                            assert(like_id_of()(s[i as int]) != like_id_of()(s[k]));
                        }
                    }
                    lemma_remove_only_mismatch(s, q, i as int);
                }
                self.likes.remove(i);
                proof {
                    assert(likes_view(self.likes@) =~= s.remove(i as int));
                }
                return;
            }
            i = i + 1;
        }
        proof {
            lemma_filter_all(s, q);
        }
    }
}

} // verus!
