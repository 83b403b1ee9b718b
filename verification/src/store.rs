//! Generation-tagged arenas for renderable records, with a depth-sorted draw
//! order.
//!
//! A store hands out `Handle`s that stay valid until the record is removed;
//! a removed handle can never alias a record inserted later, because every
//! insertion stamps its slot with a generation drawn from a counter that
//! only grows. `draw_sort` materializes the order in which live records are
//! drawn: by non-increasing depth, records of equal depth in insertion
//! order (their generation stamps order insertions); `iter_draw` walks
//! that order through a one-shot cursor.

use vstd::prelude::*;

verus! {

/// A stable reference to a record in a `Store`: the slot index plus the
/// generation the slot carried when the record was inserted.
#[derive(Clone, Copy, Debug, PartialEq, Eq, Structural)]
pub struct Handle {
    pub index: usize,
    pub generation: u64,
}

/// One arena slot: its current generation stamp, the depth of the record it
/// holds (meaningful only while occupied), and the record itself.
pub struct Slot<T> {
    pub generation: u64,
    pub depth: i32,
    pub record: Option<T>,
}

/// An arena of records addressed by generation-tagged handles, with a cached
/// draw order.
pub struct Store<T> {
    pub slots: Vec<Slot<T>>,
    pub free: Vec<usize>,
    pub next_gen: u64,
    pub cache: Vec<Handle>,
}

/// `a` is drawn before `b` in store `s`: strictly greater depth draws
/// earlier, and of equal depths the earlier insertion — the lower
/// generation stamp — draws earlier. Slot reuse does not disturb this:
/// a record inserted into a reused slot still draws after every
/// equal-depth record inserted before it.
pub open spec fn draw_before<T>(s: Store<T>, a: Handle, b: Handle) -> bool {
    s.depth_of(a) > s.depth_of(b) || (s.depth_of(a) == s.depth_of(b) && a.generation
        < b.generation)
}

/// The draw-order cache lists exactly the live handles, in draw order.
pub open spec fn cache_ok<T>(s: Store<T>) -> bool {
    &&& forall|p: int| 0 <= p < s.cache@.len() ==> s.valid(#[trigger] s.cache@[p])
    &&& forall|h: Handle| #[trigger] s.valid(h) ==> s.cache@.contains(h)
    &&& forall|p: int, q: int|
        0 <= p < q < s.cache@.len() ==> draw_before(s, s.cache@[p], s.cache@[q])
}

/// How a store looks after `remove(h)`: `h` no longer resolves, every other
/// handle is untouched, and the generation counter is kept.
pub open spec fn remove_rel<T>(pre: Store<T>, post: Store<T>, h: Handle) -> bool {
    &&& !post.valid(h)
    &&& post.slots@.len() == pre.slots@.len()
    &&& post.next_gen == pre.next_gen
    &&& forall|h2: Handle| h2 != h ==> (post.valid(h2) <==> pre.valid(h2))
    &&& forall|h2: Handle|
        h2 != h && pre.valid(h2) ==> post.depth_of(h2) == pre.depth_of(h2) && post.record_of(h2)
            == pre.record_of(h2)
    &&& !pre.valid(h) ==> post.slots@ == pre.slots@
}

/// How a store looks after `insert`: the returned handle is fresh — it was
/// not valid before and carries the generation counter's old value — it now
/// resolves to the inserted record, and every other handle is untouched.
pub open spec fn insert_rel<T>(
    pre: Store<T>,
    post: Store<T>,
    depth: i32,
    record: T,
    r: Handle,
) -> bool {
    &&& post.valid(r)
    &&& !pre.valid(r)
    &&& r.generation == pre.next_gen
    &&& post.next_gen == pre.next_gen + 1
    &&& post.depth_of(r) == depth
    &&& post.record_of(r) == record
    &&& forall|h2: Handle| h2 != r ==> (post.valid(h2) <==> pre.valid(h2))
    &&& forall|h2: Handle|
        h2 != r && pre.valid(h2) ==> post.depth_of(h2) == pre.depth_of(h2) && post.record_of(h2)
            == pre.record_of(h2)
}

impl<T> Store<T> {
    /// `h` currently resolves to a record.
    pub open spec fn valid(self, h: Handle) -> bool {
        &&& h.index < self.slots@.len()
        &&& self.slots@[h.index as int].generation == h.generation
        &&& self.slots@[h.index as int].record is Some
    }

    /// The depth of the record `h` resolves to.
    pub open spec fn depth_of(self, h: Handle) -> i32 {
        self.slots@[h.index as int].depth
    }

    /// The record `h` resolves to.
    pub open spec fn record_of(self, h: Handle) -> T {
        self.slots@[h.index as int].record->Some_0
    }

    /// Store invariant: the free list names distinct empty slots, every
    /// slot's generation stamp is below the counter, and no two slots share
    /// a stamp (each insertion consumed a fresh counter value).
    pub open spec fn wf(self) -> bool {
        &&& forall|k: int|
            0 <= k < self.free@.len() ==> (#[trigger] self.free@[k]) < self.slots@.len()
                && self.slots@[self.free@[k] as int].record is None
        &&& forall|k: int, l: int| 0 <= k < l < self.free@.len() ==> self.free@[k] != self.free@[l]
        &&& forall|i: int|
            0 <= i < self.slots@.len() ==> (#[trigger] self.slots@[i]).generation < self.next_gen
                || self.next_gen == 0 && self.slots@.len() == 0
        &&& forall|i: int, j: int|
            0 <= i < j < self.slots@.len() ==> (#[trigger] self.slots@[i]).generation != (
            #[trigger] self.slots@[j]).generation
    }

    /// An empty store.
    pub fn new() -> (r: Self)
        ensures
            r.wf(),
            r.slots@.len() == 0,
            r.cache@.len() == 0,
            r.next_gen == 0,
            forall|h: Handle| !r.valid(h),
    {
        Store { slots: Vec::new(), free: Vec::new(), next_gen: 0, cache: Vec::new() }
    }

    /// Insert a record at the given depth, reusing a free slot if one
    /// exists. The handle returned is fresh: it aliases no handle that was
    /// valid before the call.
    pub fn insert(&mut self, depth: i32, record: T) -> (r: Handle)
        requires
            old(self).wf(),
            old(self).next_gen < u64::MAX,
        ensures
            final(self).wf(),
            insert_rel(*old(self), *final(self), depth, record, r),
            final(self).cache@ == old(self).cache@,
    {
        let gen = self.next_gen;
        self.next_gen = gen + 1;
        if let Some(idx) = self.free.pop() {
            let slot = &mut self.slots[idx];
            slot.generation = gen;
            slot.depth = depth;
            slot.record = Some(record);
            let h = Handle { index: idx, generation: gen };
            proof {
                assert forall|h2: Handle| h2 != h implies (self.valid(h2) <==> old(self).valid(h2)) by {
                    if h2.index == h.index {
                        assert(!old(self).valid(h2));
                    }
                };
            }
            h
        } else {
            let idx = self.slots.len();
            self.slots.push(Slot { generation: gen, depth, record: Some(record) });
            let h = Handle { index: idx, generation: gen };
            proof {
                assert forall|h2: Handle| h2 != h implies (self.valid(h2) <==> old(self).valid(h2)) by {
                    if h2.index == h.index {
                        assert(!old(self).valid(h2));
                    }
                };
            }
            h
        }
    }

    /// Resolve a handle: the record it was inserted for, or `None` once it
    /// has been removed (or was never issued by this store).
    pub fn get(&self, h: Handle) -> (r: Option<&T>)
        ensures
            match r {
                Some(rec) => self.valid(h) && *rec == self.record_of(h),
                None => !self.valid(h),
            },
    {
        if h.index < self.slots.len() {
            let slot = &self.slots[h.index];
            if slot.generation == h.generation {
                if let Some(rec) = &slot.record {
                    return Some(rec);
                }
            }
        }
        None
    }

    /// The depth recorded for a handle, or `None` if it does not resolve.
    pub fn depth(&self, h: Handle) -> (r: Option<i32>)
        ensures
            match r {
                Some(d) => self.valid(h) && d == self.depth_of(h),
                None => !self.valid(h),
            },
    {
        if h.index < self.slots.len() {
            let slot = &self.slots[h.index];
            if slot.generation == h.generation && slot.record.is_some() {
                return Some(slot.depth);
            }
        }
        None
    }

    /// Change the depth of a live record; `false` (and no change) if the
    /// handle does not resolve.
    pub fn set_depth(&mut self, h: Handle, depth: i32) -> (r: bool)
        requires
            old(self).wf(),
        ensures
            final(self).wf(),
            r == old(self).valid(h),
            !r ==> *final(self) == *old(self),
            r ==> final(self).valid(h) && final(self).depth_of(h) == depth
                && final(self).record_of(h) == old(self).record_of(h),
            forall|h2: Handle| (final(self).valid(h2) <==> old(self).valid(h2)),
            forall|h2: Handle|
                h2.index != h.index && old(self).valid(h2) ==> final(self).depth_of(h2) == old(self).depth_of(h2),
            forall|h2: Handle|
                old(self).valid(h2) ==> final(self).record_of(h2) == old(self).record_of(h2),
            final(self).cache@ == old(self).cache@,
            final(self).next_gen == old(self).next_gen,
    {
        if h.index < self.slots.len() {
            let hit = {
                let slot = &self.slots[h.index];
                slot.generation == h.generation && slot.record.is_some()
            };
            if hit {
                let slot = &mut self.slots[h.index];
                slot.depth = depth;
                return true;
            }
        }
        false
    }

    /// Remove the record a handle resolves to, freeing its slot for reuse;
    /// `false` (and no change) if the handle does not resolve. Any copy of
    /// the handle resolves to nothing from here on.
    pub fn remove(&mut self, h: Handle) -> (r: bool)
        requires
            old(self).wf(),
        ensures
            final(self).wf(),
            remove_rel(*old(self), *final(self), h),
            r == old(self).valid(h),
            final(self).cache@ == old(self).cache@,
    {
        if h.index < self.slots.len() {
            let hit = {
                let slot = &self.slots[h.index];
                slot.generation == h.generation && slot.record.is_some()
            };
            if hit {
                let slot = &mut self.slots[h.index];
                slot.record = None;
                proof {
                    assert forall|k: int| 0 <= k < self.free@.len() implies self.free@[k]
                        != h.index by {
                        assert(old(self).slots@[self.free@[k] as int].record is None);
                    };
                }
                self.free.push(h.index);
                proof {
                    assert forall|h2: Handle| h2 != h implies (self.valid(h2) <==> old(self).valid(h2)) by {
                        if h2.index == h.index {
                            assert(!old(self).valid(h2));
                        }
                    };
                }
                return true;
            }
        }
        false
    }
}

/// The draw entries a cursor is built from: the handles of `hs` that are
/// live in `s`, in order, each paired with its depth.
pub open spec fn live_entries<T>(s: Store<T>, hs: Seq<Handle>) -> Seq<(Handle, i32)>
    decreases hs.len(),
{
    if hs.len() == 0 {
        Seq::empty()
    } else if s.valid(hs[0]) {
        seq![(hs[0], s.depth_of(hs[0]))].add(live_entries(s, hs.drop_first()))
    } else {
        live_entries(s, hs.drop_first())
    }
}

/// Depths of a draw-entry sequence never increase.
pub open spec fn entries_sorted(s: Seq<(Handle, i32)>) -> bool {
    forall|p: int, q: int| 0 <= p < q < s.len() ==> (#[trigger] s[p]).1 >= (#[trigger] s[q]).1
}

/// A one-shot, forward-only cursor over a store's draw order, carrying a
/// snapshot of the live handles and their depths at the time it was made.
pub struct DrawCursor {
    pub items: Vec<(Handle, i32)>,
    pub pos: usize,
}

impl DrawCursor {
    /// The entries not yet yielded.
    pub open spec fn remaining(self) -> Seq<(Handle, i32)> {
        if self.pos as int <= self.items@.len() {
            self.items@.skip(self.pos as int)
        } else {
            Seq::empty()
        }
    }

    /// Next entry of the snapshot, or `None` once it is exhausted.
    pub fn next(&mut self) -> (r: Option<(Handle, i32)>)
        ensures
            old(self).remaining().len() == 0 ==> r is None && *final(self) == *old(self),
            old(self).remaining().len() > 0 ==> r == Some(old(self).remaining()[0])
                && final(self).remaining() == old(self).remaining().drop_first(),
    {
        if self.pos < self.items.len() {
            let e = self.items[self.pos];
            self.pos = self.pos + 1;
            proof {
                assert(final(self).remaining() =~= old(self).remaining().drop_first());
            }
            Some(e)
        } else {
            None
        }
    }

    /// Look at the next entry without advancing.
    pub fn peek(&self) -> (r: Option<(Handle, i32)>)
        ensures
            self.remaining().len() == 0 ==> r is None,
            self.remaining().len() > 0 ==> r == Some(self.remaining()[0]),
    {
        if self.pos < self.items.len() {
            Some(self.items[self.pos])
        } else {
            None
        }
    }
}

impl<T> Store<T> {
    /// Recompute the cached draw order: every live handle exactly once, by
    /// non-increasing depth, records of equal depth in insertion order.
    /// Records, handles and depths are untouched.
    #[verifier::loop_isolation(false)]
    pub fn draw_sort(&mut self)
        requires
            old(self).wf(),
        ensures
            final(self).wf(),
            final(self).slots@ == old(self).slots@,
            final(self).free@ == old(self).free@,
            final(self).next_gen == old(self).next_gen,
            cache_ok(*final(self)),
    {
        let ghost snap = *self;
        let mut cache: Vec<Handle> = Vec::new();
        let mut i: usize = 0;
        while i < self.slots.len()
            invariant
                *self == snap,
                0 <= i <= self.slots@.len(),
                forall|p: int|
                    0 <= p < cache@.len() ==> self.valid(#[trigger] cache@[p]) && (
                    #[trigger] cache@[p]).index < i,
                forall|h: Handle|
                    #[trigger] self.valid(h) && h.index < i ==> cache@.contains(h),
                forall|p: int, q: int|
                    0 <= p < q < cache@.len() ==> draw_before(*self, cache@[p], cache@[q]),
            decreases self.slots@.len() - i,
        {
            let occupied = self.slots[i].record.is_some();
            if occupied {
                let h = Handle { index: i, generation: self.slots[i].generation };
                let d = self.slots[i].depth;
                let mut pos: usize = cache.len();
                #[verifier::loop_isolation(true)]
                loop
                    invariant
                        0 <= pos <= cache@.len(),
                        self.wf(),
                        i < self.slots@.len(),
                        h.index == i,
                        h.generation == self.slots@[i as int].generation,
                        d == self.slots@[i as int].depth,
                        forall|p: int|
                            0 <= p < cache@.len() ==> self.valid(#[trigger] cache@[p]) && (
                            #[trigger] cache@[p]).index < i,
                        forall|q: int|
                            pos <= q < cache@.len() ==> draw_before(*self, h, #[trigger] cache@[q]),
                    ensures
                        0 <= pos <= cache@.len(),
                        forall|q: int|
                            pos <= q < cache@.len() ==> draw_before(*self, h, #[trigger] cache@[q]),
                        pos > 0 ==> draw_before(*self, cache@[pos - 1], h),
                    decreases pos,
                {
                    if pos == 0 {
                        break ;
                    }
                    let prev = cache[pos - 1];
                    let prev_depth = self.slots[prev.index].depth;
                    if prev_depth < d || (prev_depth == d && prev.generation > h.generation) {
                        pos = pos - 1;
                    } else {
                        // distinct slots carry distinct stamps, so on equal
                        // depths the generations decide either way
                        proof {
                            assert(self.slots@[prev.index as int].generation != self.slots@[
                                i as int].generation);
                        }
                        break ;
                    }
                }
                let ghost precache = cache@;
                cache.insert(pos, h);
                proof {
                    assert(self.valid(h) && self.depth_of(h) == d);
                    assert forall|p: int| 0 <= p < pos implies draw_before(
                        *self,
                        precache[p],
                        h,
                    ) by {
                        if p < pos - 1 {
                            assert(draw_before(*self, precache[p], precache[pos - 1]));
                        }
                        assert(draw_before(*self, precache[pos - 1], h));
                    };
                    assert forall|p: int, q: int|
                        0 <= p < q < cache@.len() implies draw_before(
                        *self,
                        cache@[p],
                        cache@[q],
                    ) by {
                        if q == pos {
                            assert(cache@[p] == precache[p]);
                            assert(cache@[q] == h);
                        } else if p == pos {
                            assert(cache@[p] == h);
                            assert(cache@[q] == precache[q - 1]);
                        } else if p < pos && q > pos {
                            assert(cache@[p] == precache[p]);
                            assert(cache@[q] == precache[q - 1]);
                        } else if q < pos {
                            assert(cache@[p] == precache[p]);
                            assert(cache@[q] == precache[q]);
                        } else {
                            assert(cache@[p] == precache[p - 1]);
                            assert(cache@[q] == precache[q - 1]);
                        }
                    };
                    assert forall|h2: Handle|
                        #[trigger] self.valid(h2) && h2.index < i + 1 implies cache@.contains(
                        h2,
                    ) by {
                        if h2.index < i {
                            let k = choose|k: int|
                                0 <= k < precache.len() && precache[k] == h2;
                            if k < pos {
                                assert(cache@[k] == h2);
                            } else {
                                assert(cache@[k + 1] == h2);
                            }
                        } else {
                            assert(h2 == h);
                            assert(cache@[pos as int] == h);
                        }
                    };
                }
            } else {
                proof {
                    assert forall|h2: Handle|
                        #[trigger] self.valid(h2) && h2.index < i + 1 implies cache@.contains(
                        h2,
                    ) by {
                        assert(h2.index != i);
                    };
                }
            }
            i += 1;
        }
        self.cache = cache;
        proof {
            assert forall|p: int| 0 <= p < self.cache@.len() implies self.valid(
                #[trigger] self.cache@[p],
            ) by {
                assert(snap.valid(self.cache@[p]));
            };
            assert forall|h: Handle| #[trigger] self.valid(h) implies self.cache@.contains(h) by {
                assert(snap.valid(h));
            };
            assert forall|p: int, q: int|
                0 <= p < q < self.cache@.len() implies draw_before(
                *self,
                self.cache@[p],
                self.cache@[q],
            ) by {
                assert(draw_before(snap, self.cache@[p], self.cache@[q]));
            };
        }
    }

    /// Snapshot the draw order into a cursor: the cached handles that are
    /// still live, in cache order, each with its current depth.
    #[verifier::loop_isolation(false)]
    pub fn iter_draw(&self) -> (r: DrawCursor)
        ensures
            r.pos == 0,
            r.items@ == live_entries(*self, self.cache@),
            r.remaining() == live_entries(*self, self.cache@),
    {
        let mut items: Vec<(Handle, i32)> = Vec::new();
        let mut i: usize = 0;
        proof {
            assert(self.cache@.skip(0) =~= self.cache@);
            assert(Seq::<(Handle, i32)>::empty() + live_entries(*self, self.cache@)
                =~= live_entries(*self, self.cache@));
        }
        while i < self.cache.len()
            invariant
                0 <= i <= self.cache@.len(),
                live_entries(*self, self.cache@) =~= items@ + live_entries(
                    *self,
                    self.cache@.skip(i as int),
                ),
            decreases self.cache@.len() - i,
        {
            let h = self.cache[i];
            let ghost rest = self.cache@.skip(i as int);
            proof {
                assert(rest[0] == self.cache@[i as int]);
                assert(rest.drop_first() =~= self.cache@.skip(i as int + 1));
            }
            if let Some(d) = self.depth(h) {
                items.push((h, d));
                proof {
                    assert(live_entries(*self, rest) =~= seq![(h, d)].add(
                        live_entries(*self, rest.drop_first()),
                    ));
                    assert(live_entries(*self, self.cache@) =~= items@ + live_entries(
                        *self,
                        self.cache@.skip(i as int + 1),
                    ));
                }
            } else {
                proof {
                    assert(live_entries(*self, rest) =~= live_entries(*self, rest.drop_first()));
                    assert(live_entries(*self, self.cache@) =~= items@ + live_entries(
                        *self,
                        self.cache@.skip(i as int + 1),
                    ));
                }
            }
            i += 1;
        }
        proof {
            assert(self.cache@.skip(self.cache@.len() as int) =~= Seq::<Handle>::empty());
            assert(live_entries(*self, self.cache@) =~= items@);
        }
        let r = DrawCursor { items, pos: 0 };
        proof {
            assert(r.remaining() =~= r.items@);
        }
        r
    }
}

/// Law: the cursor made from a freshly sorted store yields depths that
/// never increase.
pub proof fn lemma_draw_entries_sorted<T>(s: Store<T>, hs: Seq<Handle>)
    requires
        forall|p: int, q: int| 0 <= p < q < hs.len() ==> draw_before(s, hs[p], hs[q]),
    ensures
        entries_sorted(live_entries(s, hs)),
        forall|k: int|
            0 <= k < live_entries(s, hs).len() ==> hs.len() > 0 && (#[trigger] live_entries(
                s,
                hs,
            )[k]).1 <= s.depth_of(hs[0]),
    decreases hs.len(),
{
    if hs.len() > 0 {
        let rest = hs.drop_first();
        assert forall|p: int, q: int| 0 <= p < q < rest.len() implies draw_before(
            s,
            rest[p],
            rest[q],
        ) by {
            assert(rest[p] == hs[p + 1]);
            assert(rest[q] == hs[q + 1]);
        };
        lemma_draw_entries_sorted(s, rest);
        let es = live_entries(s, hs);
        let er = live_entries(s, rest);
        if rest.len() > 0 {
            assert(rest[0] == hs[1]);
            assert(draw_before(s, hs[0], hs[1]));
        }
        if s.valid(hs[0]) {
            assert(es =~= seq![(hs[0], s.depth_of(hs[0]))].add(er));
            assert forall|k: int| 0 <= k < es.len() implies (#[trigger] es[k]).1 <= s.depth_of(
                hs[0],
            ) by {
                if k > 0 {
                    assert(es[k] == er[k - 1]);
                    assert(er[k - 1].1 <= s.depth_of(rest[0]));
                }
            };
            assert forall|p: int, q: int| 0 <= p < q < es.len() implies (#[trigger] es[p]).1 >= (
            #[trigger] es[q]).1 by {
                if p > 0 {
                    assert(es[p] == er[p - 1]);
                    assert(es[q] == er[q - 1]);
                } else {
                    assert(es[q] == er[q - 1]);
                    assert(er[q - 1].1 <= s.depth_of(rest[0]));
                }
            };
        } else {
            assert(es =~= er);
            assert forall|k: int| 0 <= k < es.len() implies (#[trigger] es[k]).1 <= s.depth_of(
                hs[0],
            ) by {
                assert(es[k] == er[k]);
                assert(er[k].1 <= s.depth_of(rest[0]));
            };
        }
    }
}

/// Law: a handle returned by `insert` directly after `remove(h)` is never
/// `h` itself, `h` stays dead, and the new handle aliases no handle that was
/// live between the two calls.
pub proof fn lemma_handle_reuse<T>(
    s0: Store<T>,
    s1: Store<T>,
    s2: Store<T>,
    h: Handle,
    depth: i32,
    record: T,
    r: Handle,
)
    requires
        s0.wf(),
        s0.valid(h),
        remove_rel(s0, s1, h),
        insert_rel(s1, s2, depth, record, r),
    ensures
        r != h,
        !s2.valid(h),
        forall|h2: Handle| s1.valid(h2) ==> r != h2,
{
    assert(s0.slots@[h.index as int].generation < s0.next_gen);
    assert(r.generation == s1.next_gen);
    assert(r != h);
}

} // verus!
