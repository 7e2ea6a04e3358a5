//! A queue of values that become available once their deadlines pass.
//!
//! Every value sits in a slot allocated by a slab and is found again by its
//! [`Key`]: the slot index and the insertion's sequence number. The slab
//! records each slot's sequence number; the deadline and the value sit in a
//! vector indexed by slot. The pending
//! entries are also kept in a list ordered by deadline, with the sequence
//! number breaking ties, whose last element is the next to expire. Removal
//! empties the slot and leaves the list entry behind; such stale entries are
//! skipped when they reach the end of the list.

use vstd::prelude::*;
use slab::Slab;
use crate::error::TimerError;
use crate::slots::{slab_entries, slab_new, slab_insert, slab_get, slab_clear};
use crate::time::Instant;
use crate::timer::{Timer, ArmPlan, Expiry, arm_spec, idle_timer, poll_spec};

verus! {

/// Identifies an entry stored in a [`DelayQueue`].
#[derive(Debug, Clone, Copy, PartialEq, Eq, Hash, Structural)]
pub struct Key {
    index: usize,
    sequence: u64,
}

impl Key {
    /// The insertion's sequence number, unique within its queue.
    pub closed spec fn seq(self) -> u64 {
        self.sequence
    }
}

/// Whether an entry due at `d1` and inserted as `s1` expires before one due
/// at `d2` and inserted as `s2`: by deadline, then by insertion order.
pub open spec fn precedes(d1: Instant, s1: u64, d2: Instant, s2: u64) -> bool {
    d1.nanos < d2.nanos || (d1.nanos == d2.nanos && s1 < s2)
}

/// Whether `key` is the pending entry of `pending` that expires first.
pub open spec fn is_earliest<T>(pending: Map<Key, (Instant, T)>, key: Key) -> bool {
    &&& pending.contains_key(key)
    &&& forall|other: Key| #[trigger]
        pending.contains_key(other) ==> !precedes(
            pending[other].0,
            other.seq(),
            pending[key].0,
            key.seq(),
        )
}

/// An entry of the ordered list: where a value lives and when it is due.
#[derive(Clone, Copy, Debug)]
struct Entry {
    deadline: Instant,
    index: usize,
    sequence: u64,
}

/// A queue of values that become available after their deadlines elapse.
pub struct DelayQueue<T> {
    timer: Timer,
    slots: Slab<u64>,
    values: Vec<Option<(Instant, T)>>,
    order: Vec<Entry>,
    next_sequence: u64,
    active: usize,
}

/// What [`DelayQueue::remove`] hands back: the value, if the key was still
/// pending, and whether the backend timer has to be disarmed.
pub struct Removal<T> {
    pub value: Option<T>,
    pub disarm_backend: bool,
}

/// One step of a [`DelayQueue`]'s stream; see [`DelayQueue::poll_next`].
pub enum QueueStep<T> {
    Idle { disarm_backend: bool },
    Ready(Expired<T>),
    Wait { deadline: Instant, plan: ArmPlan },
}

/// An entry returned after its deadline has elapsed.
pub struct Expired<T> {
    value: T,
    deadline: Instant,
    key: Key,
}

impl<T> Expired<T> {
    /// The deadline of the entry.
    pub closed spec fn deadline_spec(&self) -> Instant {
        self.deadline
    }

    /// The key of the entry.
    pub closed spec fn key_spec(&self) -> Key {
        self.key
    }

    /// The value of the entry.
    pub closed spec fn value_spec(&self) -> T {
        self.value
    }

    /// Returns the deadline that expired.
    pub fn deadline(&self) -> (r: Instant)
        ensures
            r == self.deadline_spec(),
    {
        self.deadline
    }

    /// Returns the key associated with the expired entry.
    pub fn key(&self) -> (r: Key)
        ensures
            r == self.key_spec(),
    {
        self.key
    }

    /// Consumes the entry and returns its value.
    pub fn into_inner(self) -> (r: T)
        ensures
            r == self.value_spec(),
    {
        self.value
    }
}

impl<T> DelayQueue<T> {
    /// Whether slot `index` holds the value inserted as `sequence`.
    spec fn live(&self, index: usize, sequence: u64) -> bool {
        &&& slab_entries(self.slots).contains_key(index)
        &&& slab_entries(self.slots)[index] == sequence
        &&& index < self.values@.len()
        &&& self.values@[index as int] is Some
    }

    /// Whether the ordered list holds an entry for slot `index` and `sequence`.
    spec fn listed(&self, index: usize, sequence: u64) -> bool {
        exists|j: int|
            0 <= j < self.order@.len() && #[trigger] self.order@[j].index == index
                && self.order@[j].sequence == sequence
    }

    /// The pending entries: each key with its deadline and value.
    pub closed spec fn pending(&self) -> Map<Key, (Instant, T)> {
        Map::new(
            |k: Key| self.live(k.index, k.sequence),
            |k: Key| self.values@[k.index as int].unwrap(),
        )
    }

    /// The state of the queue's timer.
    pub closed spec fn timer_spec(&self) -> Timer {
        self.timer
    }

    /// The sequence number the next insertion receives.
    pub closed spec fn sequence_spec(&self) -> u64 {
        self.next_sequence
    }

    /// The queue's internal invariant.
    pub closed spec fn wf(&self) -> bool {
        // a value is only held in an occupied slot
        &&& forall|i: int|
            0 <= i < self.values@.len() && #[trigger] self.values@[i] is Some
                ==> slab_entries(self.slots).contains_key(i as usize)
        // no two slots carry the same sequence number
        &&& forall|i: usize, j: usize|
            #[trigger] slab_entries(self.slots).contains_key(i) && #[trigger] slab_entries(
                self.slots,
            ).contains_key(j) && i != j ==> slab_entries(self.slots)[i] != slab_entries(
                self.slots,
            )[j]
        // every slot and list entry carries an already issued sequence number
        &&& forall|i: usize| #[trigger]
            slab_entries(self.slots).contains_key(i) ==> slab_entries(self.slots)[i]
                < self.next_sequence
        &&& forall|j: int| 0 <= j < self.order@.len() ==> #[trigger] self.order@[j].sequence
            < self.next_sequence
        // the list runs from the latest entry to the earliest
        &&& ordered(self.order@)
        // a list entry of a pending value carries that value's deadline
        &&& forall|j: int|
            0 <= j < self.order@.len() && self.live(
                #[trigger] self.order@[j].index,
                self.order@[j].sequence,
            ) ==> self.values@[self.order@[j].index as int].unwrap().0 == self.order@[j].deadline
        // every pending value is listed
        &&& forall|i: usize, s: u64| #[trigger] self.live(i, s) ==> self.listed(i, s)
        &&& self.pending().dom().finite()
        &&& self.active == self.pending().len()
    }
}

/// Whether `entry` expires before an entry due at `deadline` and inserted as
/// `sequence`.
fn entry_precedes(entry: &Entry, deadline: Instant, sequence: u64) -> (r: bool)
    ensures
        r == precedes(entry.deadline, entry.sequence, deadline, sequence),
{
    entry.deadline.nanos < deadline.nanos || (entry.deadline.nanos == deadline.nanos
        && entry.sequence < sequence)
}

/// The list is ordered from the latest entry to the earliest.
spec fn ordered(order: Seq<Entry>) -> bool {
    forall|i: int, j: int|
        0 <= i < j < order.len() ==> precedes(
            #[trigger] order[j].deadline,
            order[j].sequence,
            #[trigger] order[i].deadline,
            order[i].sequence,
        )
}

/// Where an entry due at `deadline`, inserted as `sequence`, belongs in the
/// ordered list: after every entry that expires later.
fn insertion_point(order: &Vec<Entry>, deadline: Instant, sequence: u64) -> (pos: usize)
    requires
        ordered(order@),
        forall|j: int| 0 <= j < order@.len() ==> #[trigger] order@[j].sequence < sequence,
    ensures
        pos <= order@.len(),
        forall|i: int|
            0 <= i < pos ==> precedes(deadline, sequence, #[trigger] order@[i].deadline, order@[i].sequence),
        forall|j: int|
            pos <= j < order@.len() ==> precedes(#[trigger] order@[j].deadline, order@[j].sequence, deadline, sequence),
{
    let mut pos: usize = 0;
    while pos < order.len() && !entry_precedes(&order[pos], deadline, sequence)
        invariant
            pos <= order@.len(),
            forall|j: int| 0 <= j < order@.len() ==> #[trigger] order@[j].sequence < sequence,
            forall|i: int|
                0 <= i < pos ==> precedes(deadline, sequence, #[trigger] order@[i].deadline, order@[i].sequence),
        decreases order@.len() - pos,
    {
        pos = pos + 1;
    }
    if pos < order.len() {
        assert forall|j: int|
            pos <= j < order@.len() implies precedes(#[trigger] order@[j].deadline, order@[j].sequence, deadline, sequence) by {
            if j > pos {
                assert(precedes(order@[j].deadline, order@[j].sequence, order@[pos as int].deadline, order@[pos as int].sequence));
            }
        }
    }
    pos
}

/// Makes `values` long enough to hold slot `index`; the new slots are empty.
fn reserve_slot<T>(values: &mut Vec<Option<(Instant, T)>>, index: usize)
    ensures
        index < final(values)@.len(),
        final(values)@.len() >= old(values)@.len(),
        forall|i: int| 0 <= i < old(values)@.len() ==> #[trigger] final(values)@[i] == old(values)@[i],
        forall|i: int|
            old(values)@.len() <= i < final(values)@.len() ==> #[trigger] final(values)@[i] is None,
{
    while values.len() <= index
        invariant
            values@.len() >= old(values)@.len(),
            forall|i: int| 0 <= i < old(values)@.len() ==> #[trigger] values@[i] == old(values)@[i],
            forall|i: int| old(values)@.len() <= i < values@.len() ==> #[trigger] values@[i] is None,
        decreases index + 1 - values@.len(),
    {
        values.push(None);
    }
}

impl<T> DelayQueue<T> {
    /// When the last list entry is pending, it is the earliest pending entry.
    proof fn lemma_last_is_earliest(&self)
        requires
            self.wf(),
            self.order@.len() > 0,
            self.live(self.order@.last().index, self.order@.last().sequence),
        ensures
            is_earliest(
                self.pending(),
                Key { index: self.order@.last().index, sequence: self.order@.last().sequence },
            ),
            self.pending()[Key { index: self.order@.last().index, sequence: self.order@.last().sequence }].0
                == self.order@.last().deadline,
    {
        let n = self.order@.len() - 1;
        let top = self.order@[n];
        let key = Key { index: top.index, sequence: top.sequence };
        assert(self.live(top.index, top.sequence));
        assert forall|other: Key| #[trigger]
            self.pending().contains_key(other) implies !precedes(
                self.pending()[other].0,
                other.seq(),
                self.pending()[key].0,
                key.seq(),
            ) by {
            assert(self.live(other.index, other.sequence));
            assert(self.listed(other.index, other.sequence));
            let j = choose|j: int|
                0 <= j < self.order@.len() && #[trigger] self.order@[j].index == other.index
                    && self.order@[j].sequence == other.sequence;
            assert(self.live(self.order@[j].index, self.order@[j].sequence));
            if j < n {
                assert(precedes(self.order@[n].deadline, self.order@[n].sequence, self.order@[j].deadline, self.order@[j].sequence));
            }
        }
    }

    /// Dropping the last list entry keeps the invariant when that entry is
    /// stale, or, given as `taken`, when its value has just been taken out.
    proof fn lemma_wf_after_pop(&self, pre: Self, taken: Option<Key>)
        requires
            pre.wf(),
            pre.order@.len() > 0,
            self.order@ == pre.order@.drop_last(),
            self.slots == pre.slots,
            self.next_sequence == pre.next_sequence,
            match taken {
                None => {
                    &&& !pre.live(pre.order@.last().index, pre.order@.last().sequence)
                    &&& self.values == pre.values
                    &&& self.active == pre.active
                },
                Some(key) => {
                    &&& key == Key { index: pre.order@.last().index, sequence: pre.order@.last().sequence }
                    &&& pre.live(key.index, key.sequence)
                    &&& self.values@ == pre.values@.update(key.index as int, None)
                    &&& self.pending() == pre.pending().remove(key)
                    &&& self.active == self.pending().len()
                },
            },
        ensures
            self.wf(),
            taken is None ==> self.pending() == pre.pending(),
    {
        let n = pre.order@.len() - 1;
        assert forall|i: usize, s: u64|
            #![trigger self.live(i, s)]
            self.live(i, s) ==> pre.live(i, s) by {
            if let Some(key) = taken {
                if i == key.index {
                    assert(self.values@[i as int] is None);
                }
            }
        }
        assert forall|i: int|
            0 <= i < self.values@.len() && #[trigger] self.values@[i] is Some
                implies slab_entries(self.slots).contains_key(i as usize) by {
            assert(pre.values@[i] is Some);
        }
        assert forall|j: int| 0 <= j < self.order@.len() implies #[trigger] self.order@[j].sequence
            < self.next_sequence by {
            assert(self.order@[j] == pre.order@[j]);
        }
        assert forall|i: int, j: int|
            0 <= i < j < self.order@.len() implies precedes(
                #[trigger] self.order@[j].deadline,
                self.order@[j].sequence,
                #[trigger] self.order@[i].deadline,
                self.order@[i].sequence,
            ) by {
            assert(self.order@[j] == pre.order@[j]);
            assert(self.order@[i] == pre.order@[i]);
        }
        assert forall|j: int|
            0 <= j < self.order@.len() && self.live(
                #[trigger] self.order@[j].index,
                self.order@[j].sequence,
            ) implies self.values@[self.order@[j].index as int].unwrap().0 == self.order@[j].deadline by {
            assert(self.order@[j] == pre.order@[j]);
            assert(pre.live(pre.order@[j].index, pre.order@[j].sequence));
            if let Some(key) = taken {
                assert(pre.order@[j].index != key.index);
            }
        }
        assert forall|i: usize, s: u64| #[trigger] self.live(i, s) implies self.listed(i, s) by {
            assert(pre.live(i, s));
            assert(pre.listed(i, s));
            let j = choose|j: int|
                0 <= j < pre.order@.len() && #[trigger] pre.order@[j].index == i
                    && pre.order@[j].sequence == s;
            if j == n {
                if let Some(key) = taken {
                    assert(i == key.index);
                    assert(self.values@[i as int] is None);
                }
                assert(false);
            }
            assert(self.order@[j] == pre.order@[j]);
            assert(self.order@[j].index == i);
        }
        if taken is None {
            assert(self.pending() =~= pre.pending());
        }
    }

    /// The invariant and the pending entries do not depend on the timer.
    proof fn lemma_same_entries(&self, before: Self)
        requires
            before.wf(),
            self.slots == before.slots,
            self.values == before.values,
            self.order == before.order,
            self.next_sequence == before.next_sequence,
            self.active == before.active,
        ensures
            self.wf(),
            self.pending() == before.pending(),
    {
        assert forall|i: usize, s: u64|
            #![trigger self.live(i, s)]
            self.live(i, s) == before.live(i, s) && self.listed(i, s) == before.listed(i, s) by {}
        assert(self.pending() =~= before.pending());
        assert forall|j: int|
            0 <= j < self.order@.len() && self.live(
                #[trigger] self.order@[j].index,
                self.order@[j].sequence,
            ) implies self.values@[self.order@[j].index as int].unwrap().0 == self.order@[j].deadline by {
            assert(before.live(before.order@[j].index, before.order@[j].sequence));
        }
    }

    /// Removing the value of `key`, and nothing else, keeps the invariant.
    proof fn lemma_wf_after_removal(&self, pre: Self, key: Key)
        requires
            pre.wf(),
            self.slots == pre.slots,
            self.order == pre.order,
            self.next_sequence == pre.next_sequence,
            self.values@.len() == pre.values@.len(),
            forall|i: int| 0 <= i < self.values@.len() && i != key.index ==> #[trigger] self.values@[i] == pre.values@[i],
            forall|i: int| 0 <= i < self.values@.len() && i == key.index ==> #[trigger] self.values@[i] is Some ==> self.values@[i] == pre.values@[i],
            self.pending() == pre.pending().remove(key),
            self.active == self.pending().len(),
        ensures
            self.wf(),
    {
        assert forall|i: int|
            0 <= i < self.values@.len() && #[trigger] self.values@[i] is Some
                implies slab_entries(self.slots).contains_key(i as usize) by {
            assert(pre.values@[i] is Some);
        }
        assert forall|i: usize, s: u64| #[trigger] self.live(i, s) implies self.listed(i, s) by {
            assert(pre.live(i, s));
            assert(pre.listed(i, s));
            let j = choose|j: int|
                0 <= j < pre.order@.len() && #[trigger] pre.order@[j].index == i
                    && pre.order@[j].sequence == s;
            assert(self.order@[j].index == i);
        }
        assert forall|j: int|
            0 <= j < self.order@.len() && self.live(
                #[trigger] self.order@[j].index,
                self.order@[j].sequence,
            ) implies self.values@[self.order@[j].index as int].unwrap().0 == self.order@[j].deadline by {
            assert(pre.live(self.order@[j].index, self.order@[j].sequence));
        }
    }
}

/// The expiry order: an earlier deadline goes first, and of two equal
/// deadlines the one inserted first (the smaller sequence number) goes first.
pub proof fn lemma_precedes_by_deadline_then_insertion(d1: Instant, s1: u64, d2: Instant, s2: u64)
    ensures
        d1.nanos < d2.nanos ==> precedes(d1, s1, d2, s2),
        d2.nanos < d1.nanos ==> !precedes(d1, s1, d2, s2),
        d1.nanos == d2.nanos && s1 < s2 ==> precedes(d1, s1, d2, s2),
        d1.nanos == d2.nanos && s2 <= s1 ==> !precedes(d1, s1, d2, s2),
{
}

/// The entry handed out first is a pending one whose deadline is the
/// smallest, and among entries with that deadline, the one inserted first.
pub proof fn lemma_earliest_is_minimal<T>(pending: Map<Key, (Instant, T)>, key: Key)
    ensures
        is_earliest(pending, key) <==> {
            &&& pending.contains_key(key)
            &&& forall|other: Key| #[trigger]
                pending.contains_key(other) ==> pending[key].0.nanos < pending[other].0.nanos || (
                pending[key].0.nanos == pending[other].0.nanos && key.seq() <= other.seq())
        },
{
}

/// Of two pending entries due at the same instant, the one inserted later is
/// not handed out while the one inserted earlier is pending; nor is an entry
/// while one with an earlier deadline is pending.
pub proof fn lemma_fifo_for_equal_deadlines<T>(queue: &DelayQueue<T>, first: Key, second: Key)
    requires
        queue.wf(),
        queue@.contains_key(first),
        queue@.contains_key(second),
        queue@[first].0.nanos < queue@[second].0.nanos || (queue@[first].0.nanos
            == queue@[second].0.nanos && first.seq() < second.seq()),
    ensures
        !is_earliest(queue@, second),
{
}

/// The pending entry that expires first is unique.
pub proof fn lemma_earliest_is_unique<T>(queue: &DelayQueue<T>, first: Key, second: Key)
    requires
        queue.wf(),
        is_earliest(queue@, first),
        is_earliest(queue@, second),
    ensures
        first == second,
{
    assert(queue.live(first.index, first.sequence));
    assert(queue.live(second.index, second.sequence));
}

/// Entries expire by deadline, and entries with equal deadlines in the order
/// they were inserted: no entry is handed out while one that precedes it is
/// still pending.
pub proof fn lemma_expiry_order<T>(queue: &DelayQueue<T>, earlier: Key, later: Key)
    requires
        queue.wf(),
        queue@.contains_key(earlier),
        queue@.contains_key(later),
        precedes(queue@[earlier].0, earlier.seq(), queue@[later].0, later.seq()),
    ensures
        !is_earliest(queue@, later),
{
}

/// Entries are handed out in order: the earliest entry that remains once
/// the earliest has gone does not expire before it.
pub proof fn lemma_yield_order<T>(queue: &DelayQueue<T>, first: Key, second: Key)
    requires
        queue.wf(),
        is_earliest(queue@, first),
        is_earliest(queue@.remove(first), second),
    ensures
        precedes(queue@[first].0, first.seq(), queue@[second].0, second.seq()),
{
    assert(queue@.contains_key(second));
    assert(queue.live(first.index, first.sequence));
    assert(queue.live(second.index, second.sequence));
    if first.sequence == second.sequence {
        assert(first.index == second.index);
    }
}

/// Every pending key was issued before the queue's next sequence number, so
/// a key handed out by a later insertion never equals an older one.
pub proof fn lemma_keys_are_fresh<T>(queue: &DelayQueue<T>, key: Key)
    requires
        queue.wf(),
        queue@.contains_key(key),
    ensures
        key.seq() < queue.sequence_spec(),
{
    assert(queue.live(key.index, key.sequence));
}

/// Removing a freshly inserted key hands back what was inserted and leaves
/// the pending entries as they were before the insertion.
pub proof fn lemma_remove_undoes_insert<T>(
    pending: Map<Key, (Instant, T)>,
    key: Key,
    entry: (Instant, T),
)
    requires
        !pending.contains_key(key),
    ensures
        pending.insert(key, entry).contains_key(key),
        pending.insert(key, entry)[key] == entry,
        pending.insert(key, entry).remove(key) == pending,
{
    assert(pending.insert(key, entry).remove(key) =~= pending);
}

impl<T> View for DelayQueue<T> {
    type V = Map<Key, (Instant, T)>;

    open spec fn view(&self) -> Map<Key, (Instant, T)> {
        self.pending()
    }
}

impl<T> DelayQueue<T> {
    /// Creates a new, empty queue.
    pub fn new() -> (r: DelayQueue<T>)
        ensures
            r.wf(),
            r@ == Map::<Key, (Instant, T)>::empty(),
            r.timer_spec() == idle_timer(),
            r.sequence_spec() == 0,
    {
        let r = DelayQueue {
            timer: Timer::new(),
            slots: slab_new(),
            values: Vec::new(),
            order: Vec::new(),
            next_sequence: 0,
            active: 0,
        };
        assert(r.pending() =~= Map::<Key, (Instant, T)>::empty());
        r
    }

    /// Whether `key` is spent: not pending, and issued before the next
    /// sequence number, so that no later insertion hands it out again.
    pub open spec fn retired(&self, key: Key) -> bool {
        !self@.contains_key(key) && key.seq() < self.sequence_spec()
    }

    /// The pending entries are finitely many.
    pub proof fn lemma_pending_finite(&self)
        requires
            self.wf(),
        ensures
            self@.dom().finite(),
    {
    }

    /// Returns the state of the queue's timer.
    pub fn timer(&self) -> (r: Timer)
        ensures
            r == self.timer_spec(),
    {
        self.timer
    }

    /// Checks the queue's timer for expiry at `now`.
    pub fn poll_expired(&mut self, now: Instant) -> (r: Expiry)
        requires
            old(self).wf(),
        ensures
            final(self).wf(),
            final(self)@ == old(self)@,
            final(self).sequence_spec() == old(self).sequence_spec(),
            (final(self).timer_spec(), r) == poll_spec(old(self).timer_spec(), now),
    {
        let ghost before = *self;
        let r = self.timer.poll_expired(now);
        proof { self.lemma_same_entries(before); }
        r
    }

    /// Records that the backend reported the queue's deadline as reached.
    pub fn backend_fired(&mut self)
        requires
            old(self).wf(),
        ensures
            final(self).wf(),
            final(self)@ == old(self)@,
            final(self).sequence_spec() == old(self).sequence_spec(),
            final(self).timer_spec() == idle_timer(),
    {
        let ghost before = *self;
        self.timer.backend_fired();
        proof { self.lemma_same_entries(before); }
    }

    /// Records that the backend refused to arm: the timer drops its deadline.
    pub fn arm_failed(&mut self)
        requires
            old(self).wf(),
        ensures
            final(self).wf(),
            final(self)@ == old(self)@,
            final(self).sequence_spec() == old(self).sequence_spec(),
            final(self).timer_spec() == idle_timer(),
    {
        let ghost before = *self;
        self.timer.arm_failed();
        proof { self.lemma_same_entries(before); }
    }

    /// Whether another value can be inserted: sequence numbers remain, and
    /// the count of pending entries can grow.
    pub open spec fn has_room_spec(&self) -> bool {
        self.sequence_spec() < u64::MAX && self@.len() < usize::MAX
    }

    /// Returns whether another value can be inserted.
    pub fn has_room(&self) -> (r: bool)
        requires
            self.wf(),
        ensures
            r == self.has_room_spec(),
    {
        self.next_sequence < u64::MAX && self.active < usize::MAX
    }

    /// Inserts `value` and returns a key that can remove it before expiration.
    pub fn insert_at(&mut self, value: T, deadline: Instant) -> (key: Key)
        requires
            old(self).wf(),
            old(self).has_room_spec(),
        ensures
            final(self).wf(),
            !old(self)@.contains_key(key),
            final(self)@ == old(self)@.insert(key, (deadline, value)),
            key.seq() == old(self).sequence_spec(),
            final(self).sequence_spec() == old(self).sequence_spec() + 1,
            final(self).timer_spec() == old(self).timer_spec(),
            forall|k: Key| #[trigger] old(self).retired(k) ==> final(self).retired(k),
    {
        let ghost pre = *old(self);
        let sequence = self.next_sequence;
        self.next_sequence = sequence + 1;
        let index = slab_insert(&mut self.slots, sequence);
        reserve_slot(&mut self.values, index);
        proof {
            if index < pre.values@.len() && pre.values@[index as int] is Some {
                assert(slab_entries(pre.slots).contains_key(index));
            }
        }
        self.values.set(index, Some((deadline, value)));
        let pos = insertion_point(&self.order, deadline, sequence);
        self.order.insert(pos, Entry { deadline, index, sequence });
        self.active = self.active + 1;
        let key = Key { index, sequence };
        proof {
            let new_entry = Entry { deadline, index, sequence };
            assert(self.order@ == pre.order@.insert(pos as int, new_entry));
            // liveness is unchanged except for the new slot
            assert forall|i: usize, s: u64|
                #![trigger self.live(i, s)]
                i != index implies (self.live(i, s) <==> pre.live(i, s)) by {
                if i < pre.values@.len() {
                } else {
                    if i < self.values@.len() {
                        assert(self.values@[i as int] is None);
                    }
                }
            }
            assert(self.live(index, sequence));
            assert forall|s: u64| #![trigger self.live(index, s)] self.live(index, s) implies s == sequence by {}
            assert(!pre.live(index, sequence));
            assert(self.pending() =~= pre.pending().insert(key, (deadline, value)));
            // the invariant
            assert forall|i: int|
                0 <= i < self.values@.len() && #[trigger] self.values@[i] is Some
                    implies slab_entries(self.slots).contains_key(i as usize) by {
                if i != index {
                    assert(i < pre.values@.len());
                    assert(pre.values@[i] is Some);
                }
            }
            assert forall|i: usize, j: usize|
                #[trigger] slab_entries(self.slots).contains_key(i) && #[trigger] slab_entries(
                    self.slots,
                ).contains_key(j) && i != j implies slab_entries(self.slots)[i] != slab_entries(
                    self.slots,
                )[j] by {
                if i != index {
                    assert(slab_entries(pre.slots).contains_key(i));
                }
                if j != index {
                    assert(slab_entries(pre.slots).contains_key(j));
                }
            }
            assert forall|i: usize| #[trigger]
                slab_entries(self.slots).contains_key(i) implies slab_entries(self.slots)[i]
                    < self.next_sequence by {
                if i != index {
                    assert(slab_entries(pre.slots).contains_key(i));
                }
            }
            assert forall|j: int| 0 <= j < self.order@.len() implies #[trigger] self.order@[j].sequence
                < self.next_sequence by {
                if j < pos {
                } else if j > pos {
                    assert(self.order@[j] == pre.order@[j - 1]);
                }
            }
            assert forall|i: int, j: int|
                0 <= i < j < self.order@.len() implies precedes(
                    #[trigger] self.order@[j].deadline,
                    self.order@[j].sequence,
                    #[trigger] self.order@[i].deadline,
                    self.order@[i].sequence,
                ) by {
                if j < pos {
                } else if j == pos {
                } else if i < pos {
                    assert(self.order@[j] == pre.order@[j - 1]);
                    assert(precedes(pre.order@[j - 1].deadline, pre.order@[j - 1].sequence, deadline, sequence));
                } else if i == pos {
                    assert(self.order@[j] == pre.order@[j - 1]);
                } else {
                    assert(self.order@[j] == pre.order@[j - 1]);
                    assert(self.order@[i] == pre.order@[i - 1]);
                }
            }
            assert forall|j: int|
                0 <= j < self.order@.len() && self.live(
                    #[trigger] self.order@[j].index,
                    self.order@[j].sequence,
                ) implies self.values@[self.order@[j].index as int].unwrap().0 == self.order@[j].deadline by {
                if j != pos {
                    let k = if j < pos { j } else { j - 1 };
                    assert(self.order@[j] == pre.order@[k]);
                    assert(pre.order@[k].sequence < sequence);
                    if pre.order@[k].index == index {
                        assert(!self.live(pre.order@[k].index, pre.order@[k].sequence));
                    } else {
                        assert(pre.live(pre.order@[k].index, pre.order@[k].sequence));
                    }
                }
            }
            assert forall|i: usize, s: u64| #[trigger] self.live(i, s) implies self.listed(i, s) by {
                if i == index {
                    assert(s == sequence);
                    assert(self.order@[pos as int] == new_entry);
                    assert(self.order@[pos as int].index == i && self.order@[pos as int].sequence == s);
                } else {
                    assert(pre.live(i, s));
                    assert(pre.listed(i, s));
                    let j = choose|j: int|
                        0 <= j < pre.order@.len() && #[trigger] pre.order@[j].index == i
                            && pre.order@[j].sequence == s;
                    if j < pos {
                        assert(self.order@[j] == pre.order@[j]);
                        assert(self.order@[j].index == i && self.order@[j].sequence == s);
                    } else {
                        assert(self.order@[j + 1] == pre.order@[j]);
                        assert(self.order@[j + 1].index == i && self.order@[j + 1].sequence == s);
                    }
                }
            }
        }
        key
    }

    /// Tries to insert `value` to expire at `deadline`: the deadline that
    /// the system clock gives for the current time plus the timeout, or
    /// `None` where the clock cannot hold that sum. A missing deadline is
    /// refused and the queue is left as it was.
    pub fn try_insert(&mut self, value: T, deadline: Option<Instant>) -> (r: Result<Key, TimerError>)
        requires
            old(self).wf(),
            deadline is Some ==> old(self).has_room_spec(),
        ensures
            final(self).wf(),
            final(self).timer_spec() == old(self).timer_spec(),
            match r {
                Ok(key) => {
                    &&& deadline is Some
                    &&& !old(self)@.contains_key(key)
                    &&& final(self)@ == old(self)@.insert(key, (deadline.unwrap(), value))
                    &&& key.seq() == old(self).sequence_spec()
                    &&& final(self).sequence_spec() == old(self).sequence_spec() + 1
                },
                Err(e) => {
                    &&& deadline is None
                    &&& e == TimerError::DelayOutOfRange
                    &&& *final(self) == *old(self)
                },
            },
            forall|k: Key| #[trigger] old(self).retired(k) ==> final(self).retired(k),
    {
        match deadline {
            Some(deadline) => Ok(self.insert_at(value, deadline)),
            None => Err(TimerError::DelayOutOfRange),
        }
    }

    /// Inserts `value` to expire at `deadline`, the system clock's current
    /// time plus the timeout, which the clock must hold.
    pub fn insert(&mut self, value: T, deadline: Option<Instant>) -> (key: Key)
        requires
            old(self).wf(),
            old(self).has_room_spec(),
            deadline is Some,
        ensures
            final(self).wf(),
            final(self).timer_spec() == old(self).timer_spec(),
            !old(self)@.contains_key(key),
            final(self)@ == old(self)@.insert(key, (deadline.unwrap(), value)),
            key.seq() == old(self).sequence_spec(),
            final(self).sequence_spec() == old(self).sequence_spec() + 1,
            forall|k: Key| #[trigger] old(self).retired(k) ==> final(self).retired(k),
    {
        self.insert_at(value, deadline.unwrap())
    }

    /// Whether the ordered list ends with the entry of `key`, so that the
    /// timer is armed for it.
    pub closed spec fn leads_with(&self, key: Key) -> bool {
        &&& self.order@.len() > 0
        &&& self.order@.last().index == key.index
        &&& self.order@.last().sequence == key.sequence
    }

    /// Removes an entry if it has not expired.
    ///
    /// When the removed entry heads the ordered list the timer is disarmed;
    /// `disarm_backend` then says whether the backend has to be disarmed.
    pub fn remove(&mut self, key: Key) -> (r: Removal<T>)
        requires
            old(self).wf(),
        ensures
            final(self).wf(),
            r.value == (if old(self)@.contains_key(key) {
                Some(old(self)@[key].1)
            } else {
                None::<T>
            }),
            final(self)@ == old(self)@.remove(key),
            final(self).sequence_spec() == old(self).sequence_spec(),
            if old(self)@.contains_key(key) && old(self).leads_with(key) {
                &&& r.disarm_backend == old(self).timer_spec().armed
                &&& final(self).timer_spec() == idle_timer()
            } else {
                &&& !r.disarm_backend
                &&& final(self).timer_spec() == old(self).timer_spec()
            },
            old(self)@.contains_key(key) && old(self).leads_with(key) ==> is_earliest(old(self)@, key),
            old(self)@.contains_key(key) ==> final(self).retired(key),
            forall|k: Key| #[trigger] old(self).retired(k) ==> final(self).retired(k),
    {
        proof {
            if old(self)@.contains_key(key) {
                lemma_keys_are_fresh(&*old(self), key);
            }
        }
        let ghost pre = *old(self);
        let mut taken: Option<(Instant, T)> = None;
        match slab_get(&self.slots, key.index) {
            Some(sequence) => {
                if sequence == key.sequence && key.index < self.values.len() {
                    self.values.set_and_swap(key.index, &mut taken);
                }
            },
            None => {},
        }
        proof {
            if taken is Some {
                assert(pre.live(key.index, key.sequence));
                assert(self.values@ == pre.values@.update(key.index as int, None));
            } else {
                assert(!pre.live(key.index, key.sequence));
                assert(self.values@ == pre.values@);
            }
            assert forall|i: usize, s: u64|
                #![trigger self.live(i, s)]
                self.live(i, s) <==> (pre.live(i, s) && !(i == key.index && s == key.sequence)) by {
                if i == key.index && pre.live(i, s) {
                    assert(s == slab_entries(pre.slots)[i]);
                }
            }
            assert(self.pending() =~= pre.pending().remove(key));
        }
        match taken {
            Some(entry) => {
                let (_deadline, value) = entry;
                self.active = self.active - 1;
                let len = self.order.len();
                let leads = len > 0 && self.order[len - 1].index == key.index && self.order[len - 1].sequence == key.sequence;
                proof {
                    if leads {
                        pre.lemma_last_is_earliest();
                    }
                }
                let disarm_backend = if leads {
                    self.timer.disarm()
                } else {
                    false
                };
                proof {
                    assert(self.pending() =~= pre.pending().remove(key));
                    self.lemma_wf_after_removal(pre, key);
                }
                Removal { value: Some(value), disarm_backend }
            },
            None => {
                proof { self.lemma_wf_after_removal(pre, key); }
                Removal { value: None, disarm_backend: false }
            },
        }
    }

    /// Removes all entries and disarms the timer; returns whether the backend
    /// has to be disarmed.
    pub fn clear(&mut self) -> (disarm_backend: bool)
        requires
            old(self).wf(),
        ensures
            final(self).wf(),
            final(self)@ == Map::<Key, (Instant, T)>::empty(),
            disarm_backend == old(self).timer_spec().armed,
            final(self).timer_spec() == idle_timer(),
            final(self).sequence_spec() == old(self).sequence_spec(),
            forall|k: Key| #[trigger] old(self).retired(k) ==> final(self).retired(k),
    {
        let disarm_backend = self.timer.disarm();
        self.order.clear();
        slab_clear(&mut self.slots);
        self.values.clear();
        self.active = 0;
        assert(self.pending() =~= Map::<Key, (Instant, T)>::empty());
        disarm_backend
    }

    /// Whether `entry` no longer stands for a pending value.
    fn is_stale(&self, entry: &Entry) -> (r: bool)
        ensures
            r == !self.live(entry.index, entry.sequence),
    {
        match slab_get(&self.slots, entry.index) {
            None => true,
            Some(sequence) => {
                if sequence != entry.sequence || entry.index >= self.values.len() {
                    true
                } else {
                    self.values[entry.index].is_none()
                }
            },
        }
    }

    /// Drops stale entries from the end of the ordered list and returns the
    /// earliest pending deadline, if any.
    fn next_deadline(&mut self) -> (r: Option<Instant>)
        requires
            old(self).wf(),
        ensures
            final(self).wf(),
            final(self)@ == old(self)@,
            final(self).timer == old(self).timer,
            final(self).next_sequence == old(self).next_sequence,
            match r {
                None => old(self)@.dom() == Set::<Key>::empty(),
                Some(d) => {
                    &&& final(self).order@.len() > 0
                    &&& final(self).order@.last().deadline == d
                    &&& final(self).live(final(self).order@.last().index, final(self).order@.last().sequence)
                },
            },
    {
        let ghost pre = *old(self);
        loop
            invariant
                pre == *old(self),
                pre.wf(),
                self.wf(),
                self.pending() == pre.pending(),
                self.timer == pre.timer,
                self.next_sequence == pre.next_sequence,
            decreases self.order@.len(),
        {
            let len = self.order.len();
            if len == 0 {
                proof {
                    assert forall|k: Key| !#[trigger] self.pending().contains_key(k) by {
                        if self.live(k.index, k.sequence) {
                            assert(self.listed(k.index, k.sequence));
                        }
                    }
                    assert(self.pending().dom() =~= Set::<Key>::empty());
                }
                return None;
            }
            let top = self.order[len - 1];
            if self.is_stale(&top) {
                let ghost before = *self;
                self.order.pop();
                proof {
                    self.lemma_wf_after_pop(before, None);
                }
            } else {
                return Some(top.deadline);
            }
        }
    }

    /// Takes the earliest pending entry, if it is due by `deadline`; stale
    /// entries met on the way are dropped.
    fn pop_expired(&mut self, deadline: Instant) -> (r: Option<Expired<T>>)
        requires
            old(self).wf(),
        ensures
            final(self).wf(),
            final(self).timer == old(self).timer,
            final(self).next_sequence == old(self).next_sequence,
            match r {
                Some(x) => {
                    &&& is_earliest(old(self)@, x.key)
                    &&& old(self)@[x.key] == (x.deadline, x.value)
                    &&& x.deadline.nanos <= deadline.nanos
                    &&& final(self)@ == old(self)@.remove(x.key)
                },
                None => {
                    &&& final(self)@ == old(self)@
                    &&& forall|k: Key| #[trigger] old(self)@.contains_key(k) ==> old(self)@[k].0.nanos > deadline.nanos
                },
            },
    {
        let ghost pre = *old(self);
        loop
            invariant
                pre == *old(self),
                pre.wf(),
                self.wf(),
                self.pending() == pre.pending(),
                self.timer == pre.timer,
                self.next_sequence == pre.next_sequence,
            decreases self.order@.len(),
        {
            let len = self.order.len();
            if len == 0 {
                proof {
                    assert forall|k: Key| !#[trigger] self.pending().contains_key(k) by {
                        if self.live(k.index, k.sequence) {
                            assert(self.listed(k.index, k.sequence));
                        }
                    }
                }
                return None;
            }
            let top = self.order[len - 1];
            if top.deadline.nanos > deadline.nanos {
                proof {
                    assert forall|k: Key| #[trigger] self.pending().contains_key(k)
                        implies self.pending()[k].0.nanos > deadline.nanos by {
                        assert(self.live(k.index, k.sequence));
                        assert(self.listed(k.index, k.sequence));
                        let j = choose|j: int|
                            0 <= j < self.order@.len() && #[trigger] self.order@[j].index == k.index
                                && self.order@[j].sequence == k.sequence;
                        assert(self.live(self.order@[j].index, self.order@[j].sequence));
                        if j < len - 1 {
                            assert(precedes(self.order@[len - 1].deadline, self.order@[len - 1].sequence,
                                self.order@[j].deadline, self.order@[j].sequence));
                        }
                    }
                }
                return None;
            }
            if self.is_stale(&top) {
                let ghost before = *self;
                self.order.pop();
                proof {
                    self.lemma_wf_after_pop(before, None);
                }
            } else {
                let ghost before = *self;
                let key = Key { index: top.index, sequence: top.sequence };
                proof {
                    before.lemma_last_is_earliest();
                }
                self.order.pop();
                let mut taken: Option<(Instant, T)> = None;
                self.values.set_and_swap(top.index, &mut taken);
                match taken {
                    Some(entry) => {
                        let (_, value) = entry;
                        proof {
                            assert(before.live(key.index, key.sequence));
                            assert(self.values@ == before.values@.update(key.index as int, None));
                            assert forall|i: usize, s: u64|
                                #![trigger self.live(i, s)]
                                self.live(i, s) <==> (before.live(i, s) && !(i == key.index && s == key.sequence)) by {
                                if i == key.index && before.live(i, s) {
                                    assert(s == slab_entries(before.slots)[i]);
                                }
                            }
                            assert(self.pending() =~= before.pending().remove(key));
                        }
                        self.active = self.active - 1;
                        proof {
                            assert(self.pending() =~= before.pending().remove(key));
                            self.lemma_wf_after_pop(before, Some(key));
                        }
                        return Some(Expired { value, deadline: top.deadline, key });
                    },
                    None => {
                        proof {
                            assert(false);
                        }
                        return None;
                    },
                }
            }
        }
    }

    /// Takes one step of the queue's stream at `now`.
    ///
    /// * `Idle`: nothing is pending; the timer is disarmed, and the backend
    ///   has to be disarmed when `disarm_backend`.
    /// * `Ready`: the earliest pending entry is due and is handed out.
    /// * `Wait`: the earliest pending entry is due at `deadline`, after
    ///   `now`; the timer is armed for it and `plan` says what the backend
    ///   has to do.
    pub fn poll_next(&mut self, now: Instant) -> (r: QueueStep<T>)
        requires
            old(self).wf(),
        ensures
            final(self).wf(),
            final(self).sequence_spec() == old(self).sequence_spec(),
            match r {
                QueueStep::Idle { disarm_backend } => {
                    &&& old(self)@.dom() == Set::<Key>::empty()
                    &&& final(self)@ == old(self)@
                    &&& disarm_backend == old(self).timer_spec().armed
                    &&& final(self).timer_spec() == idle_timer()
                },
                QueueStep::Ready(x) => {
                    &&& is_earliest(old(self)@, x.key_spec())
                    &&& old(self)@[x.key_spec()] == (x.deadline_spec(), x.value_spec())
                    &&& x.deadline_spec().nanos <= now.nanos
                    &&& final(self)@ == old(self)@.remove(x.key_spec())
                    &&& final(self).timer_spec() == old(self).timer_spec()
                },
                QueueStep::Wait { deadline, plan } => {
                    &&& exists|k: Key| is_earliest(old(self)@, k) && old(self)@[k].0 == deadline
                    &&& now.nanos < deadline.nanos
                    &&& final(self)@ == old(self)@
                    &&& (final(self).timer_spec(), plan) == arm_spec(old(self).timer_spec(), deadline, now)
                },
            },
            r matches QueueStep::Ready(x) ==> final(self).retired(x.key_spec()),
            old(self)@.dom() != Set::<Key>::empty() && (forall|k: Key|
                #[trigger] old(self)@.contains_key(k) ==> old(self)@[k].0.nanos <= now.nanos)
                ==> r is Ready,
            forall|k: Key| #[trigger] old(self).retired(k) ==> final(self).retired(k),
    {
        let ghost pre = *old(self);
        loop
            invariant
                pre == *old(self),
                pre.wf(),
                self.wf(),
                self.pending() == pre.pending(),
                self.timer == pre.timer,
                self.next_sequence == pre.next_sequence,
            decreases self.order@.len(),
        {
            match self.next_deadline() {
                None => {
                    let ghost before = *self;
                    let disarm_backend = self.timer.disarm();
                    proof { self.lemma_same_entries(before); }
                    return QueueStep::Idle { disarm_backend };
                },
                Some(deadline) => {
                    let ghost top = self.order@.last();
                    let ghost key = Key { index: top.index, sequence: top.sequence };
                    proof {
                        self.lemma_last_is_earliest();
                    }
                    if deadline.nanos <= now.nanos {
                        match self.pop_expired(deadline) {
                            Some(expired) => {
                                proof {
                                    lemma_keys_are_fresh(&pre, expired.key);
                                }
                                return QueueStep::Ready(expired);
                            },
                            None => {
                                proof {
                                    assert(pre.pending().contains_key(key));
                                }
                            },
                        }
                    } else {
                        let ghost before = *self;
                        let plan = self.timer.arm(deadline, now);
                        proof { self.lemma_same_entries(before); }
                        return QueueStep::Wait { deadline, plan };
                    }
                },
            }
        }
    }

    /// Returns the number of unexpired entries.
    pub fn len(&self) -> (r: usize)
        requires
            self.wf(),
        ensures
            r == self@.len(),
            self@.dom().finite(),
    {
        self.active
    }

    /// Returns `true` when the queue contains no unexpired entries.
    pub fn is_empty(&self) -> (r: bool)
        requires
            self.wf(),
        ensures
            r == (self@.len() == 0),
            r == (self@.dom() == Set::<Key>::empty()),
            self@.dom().finite(),
    {
        proof {
            if self@.len() == 0 {
                self@.dom().lemma_len0_is_empty();
            }
        }
        self.active == 0
    }
}

} // verus!
