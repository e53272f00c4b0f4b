//! Bounded per-player command history: inputs keyed by the tick they were
//! produced for, kept in ascending tick order under the wrap-aware clock.
//!
//! The buffer holds at most its fixed capacity; making room evicts the
//! oldest entry. Inserting a tick that is already recorded, or older than
//! the oldest retained tick, is rejected as a silent no-op — callers are
//! expected to check [`CommandHistory::can_insert`] first. Replay walks the
//! retained entries strictly newer than a starting tick, in ascending
//! order, without mutating the buffer, so a replay can be restarted.

use vstd::prelude::*;
use crate::messages::PlayerInput;
use crate::tick::{
    lemma_compare_offsets, lemma_dist_add, lemma_dist_eq, lemma_dist_sub, seq_after,
    sequence_greater_than, tick_distance, tick_distance_exec,
};

verus! {

/// Number of commands the history retains; bounds memory and how far back
/// a correction can be replayed.
pub const HISTORY_CAPACITY: usize = 64;

/// One recorded command: the input and the tick it was produced for.
#[derive(Clone, Copy)]
pub struct CommandHistoryEntry {
    pub tick: u16,
    pub input: PlayerInput,
}

/// Some retained entry carries tick `t`.
pub open spec fn contains_tick(s: Seq<CommandHistoryEntry>, t: u16) -> bool {
    exists|i: int| 0 <= i < s.len() && s[i].tick == t
}

/// Every entry lies within half the tick range ahead of base `b`, at
/// strictly increasing offsets: the window in which wrap-aware ordering is
/// total.
pub open spec fn ordered_from(s: Seq<CommandHistoryEntry>, b: u16) -> bool {
    &&& forall|i: int| 0 <= i < s.len() ==> #[trigger] tick_distance(b, s[i].tick) <= 0x7fff
    &&& forall|i: int, j: int|
        0 <= i < j < s.len() ==> tick_distance(b, s[i].tick) < tick_distance(b, s[j].tick)
}

/// Entries are ordered relative to their own oldest entry.
pub open spec fn ordered(s: Seq<CommandHistoryEntry>) -> bool {
    s.len() == 0 || ordered_from(s, s[0].tick)
}

/// A sequence ordered from any base is ordered from its own first entry.
pub proof fn lemma_ordered_any_base(s: Seq<CommandHistoryEntry>, b: u16)
    requires
        ordered_from(s, b),
    ensures
        ordered(s),
{
    if s.len() > 0 {
        assert forall|i: int| 0 <= i < s.len() implies #[trigger] tick_distance(s[0].tick, s[i].tick)
            <= 0x7fff by {
            lemma_dist_sub(b, s[0].tick, s[i].tick);
        }
        assert forall|i: int, j: int| 0 <= i < j < s.len() implies tick_distance(
            s[0].tick,
            s[i].tick,
        ) < tick_distance(s[0].tick, s[j].tick) by {
            lemma_dist_sub(b, s[0].tick, s[i].tick);
            lemma_dist_sub(b, s[0].tick, s[j].tick);
        }
    }
}

/// In an ordered history every later entry is wrap-aware after every
/// earlier one.
pub proof fn lemma_ordered_pairwise(s: Seq<CommandHistoryEntry>)
    requires
        ordered(s),
    ensures
        forall|i: int, j: int| 0 <= i < j < s.len() ==> seq_after(s[j].tick, s[i].tick),
{
    assert forall|i: int, j: int| 0 <= i < j < s.len() implies seq_after(
        s[j].tick,
        s[i].tick,
    ) by {
        lemma_dist_sub(s[0].tick, s[i].tick, s[j].tick);
    }
}

/// The bounded, tick-ordered command history of one predicted entity.
pub struct CommandHistory {
    entries: Vec<CommandHistoryEntry>,
    capacity: usize,
}

impl View for CommandHistory {
    type V = Seq<CommandHistoryEntry>;

    closed spec fn view(&self) -> Seq<CommandHistoryEntry> {
        self.entries@
    }
}

impl CommandHistory {
    /// How many entries the buffer can retain.
    pub closed spec fn capacity(self) -> int {
        self.capacity as int
    }

    /// Positive capacity, entry count within it, entries tick-ordered.
    pub open spec fn wf(self) -> bool {
        &&& 1 <= self.capacity()
        &&& self@.len() <= self.capacity()
        &&& ordered(self@)
    }

    /// `t` can be recorded: the buffer is empty, or `t` is within the
    /// ordering window ahead of the oldest retained tick and not already
    /// recorded.
    pub open spec fn spec_can_insert(self, t: u16) -> bool {
        self@.len() == 0 || (1 <= tick_distance(self@[0].tick, t) <= 0x7fff && !contains_tick(
            self@,
            t,
        ))
    }

    /// An empty history with the given capacity.
    pub fn new(capacity: usize) -> (h: Self)
        requires
            capacity >= 1,
        ensures
            h@ == Seq::<CommandHistoryEntry>::empty(),
            h.capacity() == capacity,
            h.wf(),
    {
        CommandHistory { entries: Vec::new(), capacity }
    }

    /// Number of retained entries.
    pub fn len(&self) -> (n: usize)
        ensures
            n == self@.len(),
    {
        self.entries.len()
    }

    /// Whether `insert` would record `tick`: true iff `tick` is not older
    /// than the oldest retained tick, within the ordering window, and not
    /// already recorded.
    pub fn can_insert(&self, tick: u16) -> (r: bool)
        requires
            self.wf(),
        ensures
            r == self.spec_can_insert(tick),
    {
        let n = self.entries.len();
        if n == 0 {
            return true;
        }
        let base = self.entries[0].tick;
        let d = tick_distance_exec(base, tick);
        if d == 0 {
            proof {
                assert(tick_distance(base, base) == 0);
                lemma_dist_eq(base, tick, base);
                assert(self@[0].tick == tick);
            }
            return false;
        }
        if d > 0x7fff {
            return false;
        }
        let mut i: usize = 0;
        while i < n
            invariant
                n == self@.len(),
                i <= n,
                forall|k: int| 0 <= k < i ==> self@[k].tick != tick,
            decreases n - i,
        {
            if self.entries[i].tick == tick {
                return false;
            }
            i += 1;
        }
        true
    }

    /// Records `input` at `tick`. A tick that cannot be inserted (older
    /// than the oldest retained tick, outside the ordering window, or
    /// already recorded) leaves the history unchanged; otherwise the entry
    /// is placed at its tick position, evicting the oldest entry first when
    /// the buffer is full.
    #[verifier::rlimit(100)]
    pub fn insert(&mut self, tick: u16, input: PlayerInput)
        requires
            old(self).wf(),
        ensures
            final(self).wf(),
            final(self).capacity() == old(self).capacity(),
            !old(self).spec_can_insert(tick) ==> final(self)@ == old(self)@,
            old(self).spec_can_insert(tick) ==> {
                &&& contains_tick(final(self)@, tick)
                &&& final(self)@.contains((CommandHistoryEntry { tick, input }))
                &&& final(self)@.len() == (if old(self)@.len() == old(self).capacity() {
                    old(self).capacity()
                } else {
                    old(self)@.len() + 1int
                })
                &&& forall|i: int|
                    0 <= i < final(self)@.len() ==> final(self)@[i] == (CommandHistoryEntry {
                        tick,
                        input,
                    }) || old(self)@.contains(final(self)@[i])
                &&& forall|i: int|
                    (if old(self)@.len() == old(self).capacity() {
                        1int
                    } else {
                        0int
                    }) <= i < old(self)@.len() ==> final(self)@.contains(old(self)@[i])
            },
    {
        if !self.can_insert(tick) {
            return;
        }
        let entry = CommandHistoryEntry { tick, input };
        if self.entries.len() == 0 {
            self.entries.push(entry);
            proof {
                assert(tick_distance(tick, tick) == 0);
                assert(self@ =~= seq![entry]);
            }
            return;
        }
        let ghost s_orig = self@;
        let ghost b0 = self@[0].tick;
        let ghost d = tick_distance(b0, tick);
        proof {
            // every retained offset differs from `d`, else ticks collide
            assert forall|k: int| 0 <= k < s_orig.len() implies tick_distance(b0, s_orig[k].tick)
                != d by {
                if tick_distance(b0, s_orig[k].tick) == d {
                    lemma_dist_eq(b0, s_orig[k].tick, tick);
                }
            }
        }
        let evicting = self.entries.len() == self.capacity;
        if evicting {
            self.entries.remove(0);
        }
        let ghost s_ev = self@;
        proof {
            assert forall|k: int| 0 <= k < s_ev.len() implies s_ev[k] == s_orig[k + (if evicting {
                1int
            } else {
                0int
            })] by {}
        }
        let n = self.entries.len();
        let mut idx: usize = 0;
        let mut i: usize = 0;
        while i < n
            invariant
                self@ == s_ev,
                n == s_ev.len(),
                idx <= i <= n,
                d == tick_distance(b0, tick),
                1 <= d <= 0x7fff,
                forall|k: int| 0 <= k < s_ev.len() ==> #[trigger] tick_distance(b0, s_ev[k].tick)
                    <= 0x7fff,
                forall|k: int| 0 <= k < s_ev.len() ==> tick_distance(b0, s_ev[k].tick) != d,
                forall|k1: int, k2: int|
                    0 <= k1 < k2 < s_ev.len() ==> tick_distance(b0, s_ev[k1].tick) < tick_distance(
                        b0,
                        s_ev[k2].tick,
                    ),
                forall|k: int|
                    0 <= k < i ==> ((k < idx) <==> tick_distance(b0, s_ev[k].tick) < d),
            decreases n - i,
        {
            let e_tick = self.entries[i].tick;
            let before = sequence_greater_than(tick, e_tick);
            proof {
                lemma_compare_offsets(b0, s_ev[i as int].tick, tick);
                if before {
                    // offsets are increasing, so the strictly-older entries
                    // form a prefix and `idx` has kept up with `i`
                    if idx < i {
                        assert(tick_distance(b0, s_ev[idx as int].tick) < tick_distance(
                            b0,
                            s_ev[i as int].tick,
                        ));
                    }
                    assert(idx == i);
                }
            }
            if before {
                idx = idx + 1;
            }
            i += 1;
        }
        self.entries.insert(idx, entry);
        proof {
            let u = self@;
            assert(u == s_ev.insert(idx as int, entry));
            assert forall|k: int| 0 <= k < u.len() implies #[trigger] tick_distance(b0, u[k].tick)
                <= 0x7fff && tick_distance(b0, u[k].tick) != d || u[k] == entry by {
                if k < idx {
                    assert(u[k] == s_ev[k]);
                } else if k == idx {
                    assert(u[k] == entry);
                } else {
                    assert(u[k] == s_ev[k - 1]);
                }
            }
            assert forall|k1: int, k2: int| 0 <= k1 < k2 < u.len() implies tick_distance(
                b0,
                u[k1].tick,
            ) < tick_distance(b0, u[k2].tick) by {
                let o1 = if k1 < idx {
                    s_ev[k1]
                } else if k1 == idx {
                    entry
                } else {
                    s_ev[k1 - 1]
                };
                let o2 = if k2 < idx {
                    s_ev[k2]
                } else if k2 == idx {
                    entry
                } else {
                    s_ev[k2 - 1]
                };
                assert(u[k1] == o1);
                assert(u[k2] == o2);
            }
            assert(ordered_from(u, b0));
            lemma_ordered_any_base(u, b0);
            assert(u[idx as int] == entry);
            assert(contains_tick(u, tick));
            assert(u.contains(entry));
            // every retained entry is the inserted one or was already present
            assert forall|k: int| 0 <= k < u.len() implies u[k] == entry || s_orig.contains(
                u[k],
            ) by {
                let shift: int = if evicting {
                    1int
                } else {
                    0int
                };
                if k < idx {
                    assert(u[k] == s_orig[k + shift]);
                } else if k > idx {
                    assert(u[k] == s_orig[k - 1 + shift]);
                }
            }
            // every previously retained entry except a possibly evicted oldest is kept
            assert forall|k: int|
                (if evicting {
                    1int
                } else {
                    0int
                }) <= k < s_orig.len() implies u.contains(s_orig[k]) by {
                let shift: int = if evicting {
                    1int
                } else {
                    0int
                };
                let ke = k - shift;
                assert(s_ev[ke] == s_orig[k]);
                if ke < idx {
                    assert(u[ke] == s_orig[k]);
                } else {
                    assert(u[ke + 1] == s_orig[k]);
                }
            }
        }
    }

    /// Produces, in ascending tick order, every retained entry strictly
    /// newer than `from_tick`. The buffer itself is untouched, so the same
    /// replay can be produced again.
    pub fn replay(&self, from_tick: u16) -> (r: Vec<CommandHistoryEntry>)
        requires
            self.wf(),
        ensures
            forall|a: int|
                0 <= a < r@.len() ==> self@.contains(r@[a]) && seq_after(r@[a].tick, from_tick),
            forall|k: int|
                0 <= k < self@.len() && seq_after(#[trigger] self@[k].tick, from_tick)
                    ==> r@.contains(self@[k]),
            ordered_from(r@, from_tick),
    {
        let n = self.entries.len();
        let mut r: Vec<CommandHistoryEntry> = Vec::new();
        let mut i: usize = 0;
        proof {
            lemma_ordered_pairwise(self@);
        }
        while i < n
            invariant
                self.wf(),
                n == self@.len(),
                i <= n,
                forall|k1: int, k2: int|
                    0 <= k1 < k2 < self@.len() ==> seq_after(self@[k2].tick, self@[k1].tick),
                forall|a: int|
                    0 <= a < r@.len() ==> exists|k: int|
                        0 <= k < i && self@[k] == #[trigger] r@[a],
                forall|a: int|
                    0 <= a < r@.len() ==> 1 <= #[trigger] tick_distance(from_tick, r@[a].tick)
                        <= 0x7fff,
                forall|a1: int, a2: int|
                    0 <= a1 < a2 < r@.len() ==> tick_distance(from_tick, r@[a1].tick)
                        < tick_distance(from_tick, r@[a2].tick),
                forall|k: int|
                    0 <= k < i && seq_after(#[trigger] self@[k].tick, from_tick) ==> r@.contains(
                        self@[k],
                    ),
            decreases n - i,
        {
            let e = self.entries[i];
            let ghost r_prev = r@;
            if sequence_greater_than(e.tick, from_tick) {
                proof {
                    assert forall|a: int| 0 <= a < r_prev.len() implies tick_distance(
                        from_tick,
                        r_prev[a].tick,
                    ) < tick_distance(from_tick, e.tick) by {
                        let k = choose|k: int| 0 <= k < i && self@[k] == r_prev[a];
                        assert(seq_after(self@[i as int].tick, self@[k].tick));
                        lemma_dist_add(from_tick, r_prev[a].tick, e.tick);
                    }
                }
                r.push(e);
                proof {
                    assert forall|k: int|
                        0 <= k <= i as int && seq_after(
                            #[trigger] self@[k].tick,
                            from_tick,
                        ) implies r@.contains(self@[k]) by {
                        if k == i as int {
                            assert(r@[r@.len() - 1] == self@[k]);
                        } else {
                            let a = choose|a: int|
                                0 <= a < r_prev.len() && r_prev[a] == self@[k];
                            assert(r@[a] == self@[k]);
                        }
                    }
                }
            }
            i += 1;
        }
        proof {
            assert forall|a: int| 0 <= a < r@.len() implies self@.contains(r@[a]) && seq_after(
                r@[a].tick,
                from_tick,
            ) by {
                let k = choose|k: int| 0 <= k < n && self@[k] == r@[a];
                assert(self@.contains(r@[a]));
            }
        }
        r
    }
}

impl Default for CommandHistory {
    /// An empty history with the standard capacity.
    fn default() -> (h: Self)
        ensures
            h@ == Seq::<CommandHistoryEntry>::empty(),
            h.capacity() == HISTORY_CAPACITY,
            h.wf(),
    {
        CommandHistory { entries: Vec::new(), capacity: HISTORY_CAPACITY }
    }
}

/// A tick that is already recorded can never be inserted again: together
/// with [`CommandHistory::insert`]'s contract, inserting the same tick a
/// second time leaves the history unchanged.
pub proof fn lemma_insert_duplicate_rejected(h: CommandHistory, t: u16)
    requires
        h.wf(),
        contains_tick(h@, t),
    ensures
        !h.spec_can_insert(t),
{
}

} // verus!
