use crate::notes_model::Note;
use vstd::prelude::*;

verus! {

/// How long a note lives, in seconds, counted from its creation.
pub const RETENTION_SECS: u64 = 900;

/// A note is expired at `now` when it was created more than the retention
/// window before `now`.
pub open spec fn expired(n: Note, now: u64) -> bool {
    now as int - n.created_at as int > RETENTION_SECS as int
}

/// Recency order: newer creation first, and for equal creation times the
/// smaller (earlier inserted) id first.
pub open spec fn precedes(a: Note, b: Note) -> bool {
    a.created_at > b.created_at || (a.created_at == b.created_at && a.id < b.id)
}

/// Every element precedes every later one.
pub open spec fn ordered_by_recency(s: Seq<Note>) -> bool {
    forall|i: int, j: int| 0 <= i < j < s.len() ==> precedes(#[trigger] s[i], #[trigger] s[j])
}

/// `l` is the recency listing of `owner`'s notes among `notes`: exactly those
/// notes, newest first, ties in insertion order.
pub open spec fn is_recency_listing(l: Seq<Note>, notes: Seq<Note>, owner: Seq<char>) -> bool {
    &&& forall|i: int| 0 <= i < l.len() ==> (#[trigger] l[i]).user_id@ == owner
    &&& forall|i: int| 0 <= i < l.len() ==> notes.contains(#[trigger] l[i])
    &&& forall|n: Note| #[trigger] notes.contains(n) && n.user_id@ == owner ==> l.contains(n)
    &&& ordered_by_recency(l)
}

/// Ids strictly increase along the sequence.
pub open spec fn ids_increasing(s: Seq<Note>) -> bool {
    forall|i: int, j: int| 0 <= i < j < s.len() ==> (#[trigger] s[i]).id < (#[trigger] s[j]).id
}

/// The notes that survive a sweep at `now`, in their original order.
pub open spec fn kept(s: Seq<Note>, now: u64) -> Seq<Note>
    decreases s.len(),
{
    if s.len() == 0 {
        Seq::empty()
    } else {
        let rest = kept(s.drop_last(), now);
        if expired(s.last(), now) {
            rest
        } else {
            rest.push(s.last())
        }
    }
}

/// The newest-inserted note with the given id and owner, if any.
pub open spec fn lookup(s: Seq<Note>, id: i64, owner: Seq<char>) -> Option<Note>
    decreases s.len(),
{
    if s.len() == 0 {
        None
    } else if s.last().id == id && s.last().user_id@ == owner {
        Some(s.last())
    } else {
        lookup(s.drop_last(), id, owner)
    }
}

/// `r` is `n` with its content replaced by `content` at `now`: the update
/// time is `now`, but never earlier than the creation time.
pub open spec fn is_update_of(r: Note, n: Note, content: Seq<char>, now: u64) -> bool {
    &&& r.id == n.id
    &&& r.content@ == content
    &&& r.created_at == n.created_at
    &&& r.updated_at == Some(if now >= n.created_at { now } else { n.created_at })
    &&& r.user_id == n.user_id
}

/// An in-memory note store. Ids are handed out from `next_id` upwards.
pub struct NotesService {
    pub notes: Vec<Note>,
    pub next_id: i64,
}

impl NotesService {
    pub open spec fn wf(&self) -> bool {
        &&& ids_increasing(self.notes@)
        &&& forall|i: int|
            0 <= i < self.notes@.len() ==> 0 < (#[trigger] self.notes@[i]).id < self.next_id
        &&& forall|i: int|
            0 <= i < self.notes@.len() ==> match (#[trigger] self.notes@[i]).updated_at {
                Some(u) => u >= self.notes@[i].created_at,
                None => true,
            }
        &&& self.next_id >= 1
    }

    /// An empty store.
    pub fn new() -> (r: NotesService)
        ensures
            r.wf(),
            r.notes@ == Seq::<Note>::empty(),
            r.next_id == 1,
    {
        NotesService { notes: Vec::new(), next_id: 1 }
    }

    /// Stores a new note for `user_id`, created at `now`. Fails only when the
    /// id space is used up.
    pub fn create_note(&mut self, content: String, user_id: String, now: u64) -> (r: Option<Note>)
        requires
            old(self).wf(),
        ensures
            final(self).wf(),
            old(self).next_id < i64::MAX <==> r.is_some(),
            match r {
                Some(n) => {
                    &&& n.id == old(self).next_id
                    &&& n.content == content
                    &&& n.created_at == now
                    &&& n.updated_at.is_none()
                    &&& n.user_id == user_id
                    &&& final(self).notes@ == old(self).notes@.push(n)
                    &&& final(self).next_id == old(self).next_id + 1
                },
                None => *final(self) == *old(self),
            },
    {
        if self.next_id == i64::MAX {
            return None;
        }
        let n = Note {
            id: self.next_id,
            content,
            created_at: now,
            updated_at: None,
            user_id,
        };
        let r = n.copy_note();
        self.notes.push(n);
        self.next_id = self.next_id + 1;
        Some(r)
    }

    /// Replaces the content of the note with id `note_id`, whoever owns it,
    /// and stamps its update time. `None` when no note has that id.
    pub fn update_note(&mut self, content: String, note_id: i64, now: u64) -> (r: Option<Note>)
        requires
            old(self).wf(),
        ensures
            final(self).wf(),
            final(self).next_id == old(self).next_id,
            r.is_some() <==> exists|i: int|
                0 <= i < old(self).notes@.len() && (#[trigger] old(self).notes@[i]).id == note_id,
            match r {
                Some(n) => exists|i: int|
                    0 <= i < old(self).notes@.len() && (#[trigger] old(self).notes@[i]).id == note_id
                        && is_update_of(n, old(self).notes@[i], content@, now)
                        && final(self).notes@ == old(self).notes@.update(i, n),
                None => final(self).notes@ == old(self).notes@,
            },
    {
        let mut k: usize = 0;
        while k < self.notes.len()
            invariant
                k <= self.notes@.len(),
                *self == *old(self),
                self.wf(),
                forall|i: int| 0 <= i < k ==> (#[trigger] self.notes@[i]).id != note_id,
            decreases self.notes@.len() - k,
        {
            if self.notes[k].id == note_id {
                let old_note = self.notes[k].copy_note();
                let stamp: u64 = if now >= old_note.created_at { now } else { old_note.created_at };
                let n = Note {
                    id: old_note.id,
                    content,
                    created_at: old_note.created_at,
                    updated_at: Some(stamp),
                    user_id: old_note.user_id,
                };
                let r = n.copy_note();
                self.notes.set(k, n);
                proof {
                    assert(is_update_of(r, old(self).notes@[k as int], content@, now));
                    assert(self.notes@ == old(self).notes@.update(k as int, r));
                }
                return Some(r);
            }
            k += 1;
        }
        None
    }

    /// The note with id `id` if `user_id` owns it. The lookup runs over the
    /// owner's recency listing, so other owners' notes are never seen.
    pub fn note_by_id(&self, id: i64, user_id: &String) -> (r: Option<Note>)
        requires
            self.wf(),
        ensures
            r == lookup(self.notes@, id, user_id@),
    {
        let notes = self.all_notes_ordered_by_most_recent(user_id);
        let r = find_note(&notes, id);
        proof {
            lemma_lookup(self.notes@, id, user_id@);
            match r {
                Some(ref n) => {
                    let i = choose|i: int| 0 <= i < notes@.len() && notes@[i] == *n;
                    assert(self.notes@.contains(notes@[i]));
                },
                None => {
                    assert forall|i: int| 0 <= i < self.notes@.len() && (#[trigger] self.notes@[i]).id == id
                        implies self.notes@[i].user_id@ != user_id@ by {
                        if self.notes@[i].user_id@ == user_id@ {
                            assert(self.notes@.contains(self.notes@[i]));
                            assert(notes@.contains(self.notes@[i]));
                        }
                    }
                },
            }
        }
        r
    }

    /// Removes every note, of any owner, created more than the retention
    /// window before `now`. Notes that stay keep their order.
    pub fn delete_notes_old_than_15_minutes(&mut self, now: u64)
        requires
            old(self).wf(),
        ensures
            final(self).wf(),
            final(self).next_id == old(self).next_id,
            final(self).notes@ == kept(old(self).notes@, now),
    {
        let mut out: Vec<Note> = Vec::new();
        let mut k: usize = 0;
        while k < self.notes.len()
            invariant
                k <= self.notes@.len(),
                *self == *old(self),
                out@ == kept(self.notes@.subrange(0, k as int), now),
            decreases self.notes@.len() - k,
        {
            let c = self.notes[k].copy_note();
            proof {
                assert(self.notes@.subrange(0, k + 1).drop_last() == self.notes@.subrange(0, k as int));
            }
            if !is_expired(&c, now) {
                out.push(c);
            }
            k += 1;
        }
        proof {
            assert(self.notes@.subrange(0, k as int) == self.notes@);
            lemma_kept_subsequence(self.notes@, now);
        }
        self.notes = out;
        proof {
            assert forall|i: int| 0 <= i < self.notes@.len() implies 0 < (#[trigger] self.notes@[i]).id < self.next_id by {
                let m = choose|m: int| 0 <= m < old(self).notes@.len() && old(self).notes@[m] == self.notes@[i];
            }
            assert forall|i: int| 0 <= i < self.notes@.len() implies match (#[trigger] self.notes@[i]).updated_at {
                Some(u) => u >= self.notes@[i].created_at,
                None => true,
            } by {
                let m = choose|m: int| 0 <= m < old(self).notes@.len() && old(self).notes@[m] == self.notes@[i];
            }
        }
    }

    /// The notes owned by `user_id`, newest first; notes created at the same
    /// time come in insertion order.
    pub fn all_notes_ordered_by_most_recent(&self, user_id: &String) -> (r: Vec<Note>)
        requires
            self.wf(),
        ensures
            forall|i: int| 0 <= i < r@.len() ==> (#[trigger] r@[i]).user_id@ == user_id@,
            forall|i: int| 0 <= i < r@.len() ==> self.notes@.contains(#[trigger] r@[i]),
            forall|n: Note| #[trigger] self.notes@.contains(n) && n.user_id@ == user_id@ ==> r@.contains(n),
            ordered_by_recency(r@),
            is_recency_listing(r@, self.notes@, user_id@),
    {
        let mut out: Vec<Note> = Vec::new();
        let mut k: usize = 0;
        while k < self.notes.len()
            invariant
                k <= self.notes@.len(),
                self.wf(),
                forall|i: int| 0 <= i < out@.len() ==> (#[trigger] out@[i]).user_id@ == user_id@,
                forall|i: int| 0 <= i < out@.len() ==> self.notes@.subrange(0, k as int).contains(#[trigger] out@[i]),
                forall|m: int| 0 <= m < k && (#[trigger] self.notes@[m]).user_id@ == user_id@ ==> out@.contains(self.notes@[m]),
                ordered_by_recency(out@),
            decreases self.notes@.len() - k,
        {
            let c = self.notes[k].copy_note();
            if c.user_id == *user_id {
                proof {
                    assert forall|i: int| 0 <= i < out@.len() implies (#[trigger] out@[i]).id < c.id by {
                        let m = choose|m: int| 0 <= m < k && self.notes@.subrange(0, k as int)[m] == out@[i];
                        assert(self.notes@[m] == out@[i]);
                    }
                }
                let pos = insert_position(&out, &c);
                let ghost before = out@;
                out.insert(pos, c);
                proof {
                    assert(out@ == before.insert(pos as int, c));
                    assert forall|i: int, j: int| 0 <= i < j < out@.len() implies precedes(#[trigger] out@[i], #[trigger] out@[j]) by {
                        if j < pos {
                        } else if i < pos && j == pos {
                        } else if i < pos {
                            assert(out@[j] == before[j - 1]);
                        } else if i == pos {
                            assert(out@[j] == before[j - 1]);
                            assert(precedes(c, before[pos as int]));
                        } else {
                            assert(out@[i] == before[i - 1]);
                            assert(out@[j] == before[j - 1]);
                        }
                    }
                    assert forall|i: int| 0 <= i < out@.len() implies self.notes@.subrange(0, k + 1).contains(#[trigger] out@[i]) by {
                        if i == pos {
                            assert(self.notes@.subrange(0, k + 1)[k as int] == c);
                        } else {
                            let t = if i < pos { i } else { i - 1 };
                            assert(out@[i] == before[t]);
                            let m = choose|m: int| 0 <= m < k && self.notes@.subrange(0, k as int)[m] == before[t];
                            assert(self.notes@.subrange(0, k + 1)[m] == before[t]);
                        }
                    }
                    assert forall|m: int| 0 <= m < k + 1 && (#[trigger] self.notes@[m]).user_id@ == user_id@ implies out@.contains(self.notes@[m]) by {
                        if m == k {
                            assert(out@[pos as int] == c);
                        } else {
                            let t = choose|t: int| 0 <= t < before.len() && before[t] == self.notes@[m];
                            if t < pos {
                                assert(out@[t] == before[t]);
                            } else {
                                assert(out@[t + 1] == before[t]);
                            }
                        }
                    }
                }
            } else {
                proof {
                    assert forall|i: int| 0 <= i < out@.len() implies self.notes@.subrange(0, k + 1).contains(#[trigger] out@[i]) by {
                        let m = choose|m: int| 0 <= m < k && self.notes@.subrange(0, k as int)[m] == out@[i];
                        assert(self.notes@.subrange(0, k + 1)[m] == out@[i]);
                    }
                }
            }
            k += 1;
        }
        proof {
            assert(self.notes@.subrange(0, k as int) == self.notes@);
            assert forall|n: Note| #[trigger] self.notes@.contains(n) && n.user_id@ == user_id@ implies out@.contains(n) by {
                let m = choose|m: int| 0 <= m < self.notes@.len() && self.notes@[m] == n;
                assert(self.notes@[m].user_id@ == user_id@);
            }
        }
        out
    }
}

/// The first position in `out` whose note does not precede `c`.
fn insert_position(out: &Vec<Note>, c: &Note) -> (pos: usize)
    requires
        ordered_by_recency(out@),
        forall|i: int| 0 <= i < out@.len() ==> (#[trigger] out@[i]).id < c.id,
    ensures
        pos <= out@.len(),
        forall|i: int| 0 <= i < pos ==> precedes(#[trigger] out@[i], *c),
        forall|i: int| pos <= i < out@.len() ==> precedes(*c, #[trigger] out@[i]),
{
    let mut pos: usize = 0;
    while pos < out.len()
        invariant
            pos <= out@.len(),
            ordered_by_recency(out@),
            forall|i: int| 0 <= i < out@.len() ==> (#[trigger] out@[i]).id < c.id,
            forall|i: int| 0 <= i < pos ==> precedes(#[trigger] out@[i], *c),
        decreases out@.len() - pos,
    {
        let o = &out[pos];
        if !(o.created_at > c.created_at || (o.created_at == c.created_at && o.id < c.id)) {
            proof {
                assert(precedes(*c, out@[pos as int]));
                assert forall|i: int| pos <= i < out@.len() implies precedes(*c, #[trigger] out@[i]) by {
                    if i > pos {
                        assert(precedes(out@[pos as int], out@[i]));
                    }
                }
            }
            return pos;
        }
        pos += 1;
    }
    pos
}

/// Whether `n` has outlived the retention window at `now`.
pub fn is_expired(n: &Note, now: u64) -> (r: bool)
    ensures
        r == expired(*n, now),
{
    now > n.created_at && now - n.created_at > RETENTION_SECS
}

/// The first note in `notes` with id `id`, if there is one.
pub fn find_note(notes: &Vec<Note>, id: i64) -> (r: Option<Note>)
    ensures
        match r {
            Some(n) => exists|i: int|
                0 <= i < notes@.len() && #[trigger] notes@[i] == n && n.id == id
                    && forall|j: int| 0 <= j < i ==> (#[trigger] notes@[j]).id != id,
            None => forall|i: int| 0 <= i < notes@.len() ==> (#[trigger] notes@[i]).id != id,
        },
{
    let mut k: usize = 0;
    while k < notes.len()
        invariant
            k <= notes@.len(),
            forall|j: int| 0 <= j < k ==> (#[trigger] notes@[j]).id != id,
        decreases notes@.len() - k,
    {
        if notes[k].id == id {
            let n = notes[k].copy_note();
            assert(notes@[k as int] == n);
            return Some(n);
        }
        k += 1;
    }
    None
}

/// With unique ids, `lookup` finds exactly the note with that id and owner.
pub proof fn lemma_lookup(s: Seq<Note>, id: i64, owner: Seq<char>)
    requires
        ids_increasing(s),
    ensures
        forall|i: int| 0 <= i < s.len() && (#[trigger] s[i]).id == id && s[i].user_id@ == owner
            ==> lookup(s, id, owner) == Some(s[i]),
        (forall|i: int| 0 <= i < s.len() && (#[trigger] s[i]).id == id ==> s[i].user_id@ != owner)
            ==> lookup(s, id, owner).is_none(),
    decreases s.len(),
{
    if s.len() > 0 {
        let t = s.drop_last();
        assert forall|i: int, j: int| 0 <= i < j < t.len() implies (#[trigger] t[i]).id < (#[trigger] t[j]).id by {
            assert(t[i] == s[i] && t[j] == s[j]);
        }
        lemma_lookup(t, id, owner);
        assert forall|i: int| 0 <= i < t.len() implies #[trigger] t[i] == s[i] by {}
        assert forall|i: int| 0 <= i < s.len() && (#[trigger] s[i]).id == id && s[i].user_id@ == owner
            implies lookup(s, id, owner) == Some(s[i]) by {
            if i < s.len() - 1 {
                assert(s[i].id < s[s.len() - 1].id);
                assert(t[i] == s[i]);
            }
        }
    }
}

/// Every note that survives a sweep was in the store, in the same relative
/// order, and a sweep of increasing ids leaves them increasing.
pub proof fn lemma_kept_subsequence(s: Seq<Note>, now: u64)
    ensures
        forall|i: int| 0 <= i < kept(s, now).len() ==> s.contains(#[trigger] kept(s, now)[i]),
        ids_increasing(s) ==> ids_increasing(kept(s, now)),
    decreases s.len(),
{
    if s.len() > 0 {
        let t = s.drop_last();
        lemma_kept_subsequence(t, now);
        let r = kept(t, now);
        assert forall|i: int| 0 <= i < r.len() implies s.contains(#[trigger] r[i]) by {
            let m = choose|m: int| 0 <= m < t.len() && t[m] == r[i];
            assert(s[m] == r[i]);
        }
        if !expired(s.last(), now) {
            let k = kept(s, now);
            assert(k == r.push(s.last()));
            assert forall|i: int| 0 <= i < k.len() implies s.contains(#[trigger] k[i]) by {
                if i == r.len() {
                    assert(s[s.len() - 1] == k[i]);
                } else {
                    assert(k[i] == r[i]);
                }
            }
            if ids_increasing(s) {
                assert forall|i: int, j: int| 0 <= i < j < t.len() implies (#[trigger] t[i]).id < (#[trigger] t[j]).id by {
                    assert(t[i] == s[i] && t[j] == s[j]);
                }
                assert forall|i: int, j: int| 0 <= i < j < k.len() implies (#[trigger] k[i]).id < (#[trigger] k[j]).id by {
                    if j == r.len() {
                        assert(k[i] == r[i]);
                        let m = choose|m: int| 0 <= m < t.len() && t[m] == r[i];
                        assert(s[m] == r[i]);
                    } else {
                        assert(k[i] == r[i] && k[j] == r[j]);
                    }
                }
            }
        } else {
            if ids_increasing(s) {
                assert forall|i: int, j: int| 0 <= i < j < t.len() implies (#[trigger] t[i]).id < (#[trigger] t[j]).id by {
                    assert(t[i] == s[i] && t[j] == s[j]);
                }
            }
        }
    }
}

/// A note survives a sweep exactly when it was in the store and has not
/// outlived the retention window.
pub proof fn lemma_kept_contains(s: Seq<Note>, now: u64, n: Note)
    ensures
        kept(s, now).contains(n) <==> s.contains(n) && !expired(n, now),
    decreases s.len(),
{
    lemma_kept_subsequence(s, now);
    if s.len() > 0 {
        let t = s.drop_last();
        lemma_kept_contains(t, now, n);
        let r = kept(t, now);
        if s.contains(n) && !expired(n, now) {
            let m = choose|m: int| 0 <= m < s.len() && s[m] == n;
            if m == s.len() - 1 {
                assert(kept(s, now) == r.push(n));
                assert(kept(s, now)[r.len() as int] == n);
            } else {
                assert(t[m] == n);
                let q = choose|q: int| 0 <= q < r.len() && r[q] == n;
                if !expired(s.last(), now) {
                    assert(kept(s, now)[q] == n);
                }
            }
        }
        if kept(s, now).contains(n) {
            let q = choose|q: int| 0 <= q < kept(s, now).len() && kept(s, now)[q] == n;
            if expired(s.last(), now) {
                assert(r.contains(n));
            } else if q < r.len() {
                assert(kept(s, now)[q] == r[q]);
                assert(r.contains(n));
            } else {
                assert(n == s.last());
                assert(!expired(n, now));
            }
        }
    }
}

/// Retention window: a note created at `t` is still there after a sweep up
/// to fourteen minutes later, and gone after a sweep sixteen minutes later or
/// more.
pub proof fn lemma_retention_window(s: Seq<Note>, n: Note, now: u64)
    requires
        s.contains(n),
    ensures
        now <= n.created_at + 14 * 60 ==> kept(s, now).contains(n),
        now >= n.created_at + 16 * 60 ==> !kept(s, now).contains(n),
{
    lemma_kept_contains(s, now, n);
}

/// In a store with unique ids, a note created at `t` leaves no note with its
/// id behind after a sweep sixteen minutes later or more.
pub proof fn lemma_expired_id_gone(s: Seq<Note>, n: Note, now: u64)
    requires
        ids_increasing(s),
        s.contains(n),
        now >= n.created_at + 16 * 60,
    ensures
        forall|i: int| 0 <= i < kept(s, now).len() ==> (#[trigger] kept(s, now)[i]).id != n.id,
{
    let k = kept(s, now);
    lemma_kept_subsequence(s, now);
    lemma_kept_contains(s, now, n);
    assert forall|i: int| 0 <= i < k.len() implies (#[trigger] k[i]).id != n.id by {
        let m = choose|m: int| 0 <= m < s.len() && s[m] == k[i];
        let j = choose|j: int| 0 <= j < s.len() && s[j] == n;
        if k[i].id == n.id {
            if m < j {
                assert(s[m].id < s[j].id);
            } else if j < m {
                assert(s[j].id < s[m].id);
            }
            assert(k.contains(n));
        }
    }
}

/// Sweeping twice at the same time leaves the same notes as sweeping once.
pub proof fn lemma_sweep_idempotent(s: Seq<Note>, now: u64)
    ensures
        kept(kept(s, now), now) == kept(s, now),
    decreases s.len(),
{
    if s.len() > 0 {
        let t = s.drop_last();
        lemma_sweep_idempotent(t, now);
        if !expired(s.last(), now) {
            let r = kept(t, now);
            assert(r.push(s.last()).drop_last() == r);
        }
    }
}

/// A note just created is found again by its id and owner, with the content
/// it was given and a creation time no later than the time of the creation.
pub proof fn lemma_create_then_find(before: Seq<Note>, n: Note, now: u64)
    requires
        n.created_at == now,
    ensures
        lookup(before.push(n), n.id, n.user_id@) == Some(n),
        lookup(before.push(n), n.id, n.user_id@).unwrap().content == n.content,
        lookup(before.push(n), n.id, n.user_id@).unwrap().created_at <= now,
{
}

} // verus!
