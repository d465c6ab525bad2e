//! Append-only in-memory event log for replay and live delivery.
//!
//! Every appended entry gets the next value of one monotonic sequence;
//! sequences can also be reserved without storing an entry. Followers
//! track their own position and ask for the first entry at or after it.
//! Sharing the log between threads is the caller's business (a mutex
//! around it).

use vstd::prelude::*;

use crate::proto::{EventLogSeq, UnixMicros};

verus! {

/// One entry in the event log.
#[derive(Debug)]
pub struct LogEntry<E> {
    pub seq: EventLogSeq,
    /// Wall-clock time stamped when the entry was appended.
    pub recorded_at: UnixMicros,
    /// Connection the event came from, if any.
    pub source: Option<String>,
    pub event: E,
}

/// Entries in strictly increasing sequence order, all below `next`.
pub open spec fn log_ordered<E>(entries: Seq<LogEntry<E>>, next: u64) -> bool {
    &&& forall|i: int, j: int| 0 <= i < j < entries.len() ==> (#[trigger] entries[i]).seq.0 < (#[trigger] entries[j]).seq.0
    &&& forall|i: int| 0 <= i < entries.len() ==> (#[trigger] entries[i]).seq.0 < next
}

/// The position of the first entry with sequence at least `from`, or the
/// number of entries when there is none.
pub open spec fn first_from<E>(entries: Seq<LogEntry<E>>, from: u64) -> int {
    if exists|i: int| 0 <= i < entries.len() && (#[trigger] entries[i]).seq.0 >= from {
        choose|i: int| 0 <= i < entries.len() && (#[trigger] entries[i]).seq.0 >= from
            && forall|j: int| 0 <= j < i ==> (#[trigger] entries[j]).seq.0 < from
    } else {
        entries.len() as int
    }
}

/// Append-only event log.
pub struct EventLog<E> {
    entries: Vec<LogEntry<E>>,
    next_seq: EventLogSeq,
}

impl<E> EventLog<E> {
    /// The entries, oldest first.
    pub closed spec fn entries(&self) -> Seq<LogEntry<E>> {
        self.entries@
    }

    /// The sequence the next append or reservation gets.
    pub closed spec fn next(&self) -> u64 {
        self.next_seq.0
    }

    /// Sequences are strictly increasing and below the next sequence.
    pub open spec fn wf(&self) -> bool {
        log_ordered(self.entries(), self.next())
    }

    /// An empty log whose first sequence is 0.
    pub fn new() -> (res: Self)
        ensures
            res.wf(),
            res.entries() == Seq::<LogEntry<E>>::empty(),
            res.next() == 0,
    {
        EventLog { entries: Vec::new(), next_seq: EventLogSeq::new(0) }
    }

    /// Reserves the next sequence without storing an entry.
    pub fn reserve_seq(&mut self) -> (res: EventLogSeq)
        requires
            old(self).wf(),
            old(self).next() < u64::MAX,
        ensures
            final(self).wf(),
            res.0 == old(self).next(),
            final(self).next() == old(self).next() + 1,
            final(self).entries() == old(self).entries(),
    {
        let seq = self.next_seq;
        self.next_seq = self.next_seq.next();
        seq
    }

    /// Appends an event stamped with the current time, and returns its
    /// sequence and the time stamped on it.
    pub fn append(&mut self, source: Option<String>, event: E) -> (res: (EventLogSeq, UnixMicros))
        requires
            old(self).wf(),
            old(self).next() < u64::MAX,
        ensures
            final(self).wf(),
            res.0.0 == old(self).next(),
            final(self).next() == old(self).next() + 1,
            final(self).entries() == old(self).entries().push(
                (LogEntry { seq: res.0, recorded_at: res.1, source, event }),
            ),
    {
        let recorded_at = UnixMicros::now();
        let seq = self.next_seq;
        self.next_seq = self.next_seq.next();
        self.entries.push(LogEntry { seq, recorded_at, source, event });
        (seq, recorded_at)
    }

    /// The first entry with sequence at least `from`, if any.
    pub fn get_next_from(&self, from: EventLogSeq) -> (res: Option<&LogEntry<E>>)
        requires
            self.wf(),
        ensures
            first_from(self.entries(), from.0) < self.entries().len() ==> res == Some(&self.entries()[first_from(self.entries(), from.0)]),
            first_from(self.entries(), from.0) >= self.entries().len() ==> res is None,
            match res {
                Some(e) => {
                    &&& self.entries().contains(*e)
                    &&& e.seq.0 >= from.0
                    &&& forall|i: int| 0 <= i < self.entries().len() && (#[trigger] self.entries()[i]).seq.0 >= from.0 ==> e.seq.0 <= self.entries()[i].seq.0
                },
                None => forall|i: int| 0 <= i < self.entries().len() ==> (#[trigger] self.entries()[i]).seq.0 < from.0,
            },
    {
        let mut i: usize = 0;
        while i < self.entries.len()
            invariant
                self.wf(),
                i <= self.entries@.len(),
                forall|j: int| 0 <= j < i ==> (#[trigger] self.entries@[j]).seq.0 < from.0,
            decreases self.entries@.len() - i,
        {
            if self.entries[i].seq.0 >= from.0 {
                proof {
                    law_next_from_is_least_at_or_after(self.entries(), self.next(), from.0);
                    let k = first_from(self.entries@, from.0);
                    assert(self.entries@[i as int].seq.0 >= from.0);
                    if k != i {
                        if k < i {
                            assert(self.entries@[k].seq.0 < from.0);
                        } else {
                            assert(self.entries@[i as int].seq.0 < from.0);
                        }
                    }
                }
                return Some(&self.entries[i]);
            }
            i = i + 1;
        }
        proof {
            law_next_from_is_least_at_or_after(self.entries(), self.next(), from.0);
        }
        None
    }

    /// The sequence the next append or reservation gets.
    pub fn next_seq(&self) -> (res: EventLogSeq)
        ensures
            res.0 == self.next(),
    {
        self.next_seq
    }
}

/// What an append writes is what a follower reading from its sequence
/// gets: after appending to a valid log, the first entry at or after the
/// returned sequence is the appended one.
pub proof fn law_get_next_from_returns_appended<E>(
    before: Seq<LogEntry<E>>,
    next: u64,
    entry: LogEntry<E>,
)
    requires
        log_ordered(before, next),
        entry.seq.0 == next,
        next < u64::MAX,
    ensures
        log_ordered(before.push(entry), (next + 1) as u64),
        first_from(before.push(entry), next) == before.len(),
        before.push(entry)[first_from(before.push(entry), next)] == entry,
{
    let after = before.push(entry);
    assert(after[before.len() as int] == entry);
    assert(after[before.len() as int].seq.0 >= next);
    let k = first_from(after, next);
    if k != before.len() {
        assert(k < before.len());
        assert(after[k] == before[k]);
    }
    assert forall|i: int, j: int| 0 <= i < j < after.len() implies (#[trigger] after[i]).seq.0 < (#[trigger] after[j]).seq.0 by {
        if j < before.len() {
            assert(after[i] == before[i] && after[j] == before[j]);
        } else {
            assert(after[i] == before[i]);
        }
    }
    assert forall|i: int| 0 <= i < after.len() implies (#[trigger] after[i]).seq.0 < next + 1 by {
        if i < before.len() {
            assert(after[i] == before[i]);
        }
    }
}

/// A follower reading from `from` gets the stored entry with the least
/// sequence at or after `from`: in an ordered log the first such entry has
/// a sequence no greater than any other entry at or after `from`, and when
/// there is none every stored sequence is below `from`.
pub proof fn law_next_from_is_least_at_or_after<E>(entries: Seq<LogEntry<E>>, next: u64, from: u64)
    requires
        log_ordered(entries, next),
    ensures
        first_from(entries, from) < entries.len() ==> {
            &&& 0 <= first_from(entries, from)
            &&& entries[first_from(entries, from)].seq.0 >= from
            &&& forall|i: int| 0 <= i < entries.len() && (#[trigger] entries[i]).seq.0 >= from
                ==> entries[first_from(entries, from)].seq.0 <= entries[i].seq.0
        },
        first_from(entries, from) >= entries.len() ==> forall|i: int| 0 <= i < entries.len() ==> (#[trigger] entries[i]).seq.0 < from,
{
    let k = first_from(entries, from);
    if exists|i: int| 0 <= i < entries.len() && (#[trigger] entries[i]).seq.0 >= from {
        let w = choose|i: int| 0 <= i < entries.len() && (#[trigger] entries[i]).seq.0 >= from;
        lemma_least_index(entries, from, w);
        assert(0 <= k < entries.len() && entries[k].seq.0 >= from && forall|j: int| 0 <= j < k ==> (#[trigger] entries[j]).seq.0 < from);
        assert forall|i: int| 0 <= i < entries.len() && (#[trigger] entries[i]).seq.0 >= from implies entries[k].seq.0 <= entries[i].seq.0 by {
            if i < k {
                assert(entries[i].seq.0 < from);
            } else if i > k {
                assert(entries[k].seq.0 < entries[i].seq.0);
            }
        }
    }
}

/// Some index holds the first entry at or after `from` when one index does.
proof fn lemma_least_index<E>(entries: Seq<LogEntry<E>>, from: u64, w: int) -> (m: int)
    requires
        0 <= w < entries.len(),
        entries[w].seq.0 >= from,
    ensures
        0 <= m <= w,
        entries[m].seq.0 >= from,
        forall|j: int| 0 <= j < m ==> (#[trigger] entries[j]).seq.0 < from,
    decreases w,
{
    if exists|j: int| 0 <= j < w && (#[trigger] entries[j]).seq.0 >= from {
        let j = choose|j: int| 0 <= j < w && (#[trigger] entries[j]).seq.0 >= from;
        lemma_least_index(entries, from, j)
    } else {
        w
    }
}

/// Sequences are handed out once: whatever mix of appends and
/// reservations happens, the log stays ordered, so no two entries share a
/// sequence and a follower that reads entry `s` and continues from `s + 1`
/// never sees it again.
pub proof fn law_sequences_unique<E>(entries: Seq<LogEntry<E>>, next: u64, i: int, j: int)
    requires
        log_ordered(entries, next),
        0 <= i < entries.len(),
        0 <= j < entries.len(),
        i != j,
    ensures
        entries[i].seq != entries[j].seq,
{
    if i < j {
        assert(entries[i].seq.0 < entries[j].seq.0);
    } else {
        assert(entries[j].seq.0 < entries[i].seq.0);
    }
}

} // verus!
