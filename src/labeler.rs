//! The delay queue that joins each record with the first later arrival whose
//! time reaches the record's due time.
//!
//! Times are unsigned keys whose integer order is the order of event time; an
//! arrival is the pair `(time, due)` of its own time key and its due-time key
//! (see `event_time` for the keys of binary64 times).
use vstd::prelude::*;
use std::collections::VecDeque;
use crate::event_time::{
    due_key_spec, float_le, is_nan, lemma_due_reached_iff_float_le, lemma_order_key_monotone,
    time_key_spec,
};

verus! {

broadcast use vstd::std_specs::vecdeque::group_vec_dequeue_axioms;

/// Starting at position `lo`, the end of the run of arrivals before `hi`
/// whose due time is at most `now`.
pub open spec fn due_run(a: Seq<(u64, u64)>, lo: int, hi: int, now: u64) -> int
    decreases hi - lo,
{
    if lo >= hi {
        lo
    } else if a[lo].1 <= now {
        due_run(a, lo + 1, hi, now)
    } else {
        lo
    }
}

/// How many arrivals have been labeled and released once the first `n`
/// arrivals of `a` have been processed. Arrival `j` releases the positions
/// `flushed_count(a, j) .. flushed_count(a, j + 1)`, which are labeled against
/// the book state of arrival `j`.
pub open spec fn flushed_count(a: Seq<(u64, u64)>, n: int) -> int
    decreases n,
{
    if n <= 0 {
        0
    } else {
        due_run(a, flushed_count(a, n - 1), n - 1, a[n - 1].0)
    }
}

/// Due times never decrease along the stream, as is the case when times do not
/// decrease and every due time is its arrival's time plus one fixed horizon.
pub open spec fn dues_ordered(a: Seq<(u64, u64)>) -> bool {
    forall|i: int, j: int| 0 <= i < j < a.len() ==> a[i].1 <= a[j].1
}

/// Arrival `j` is the first one after arrival `i` whose time reaches the due
/// time of `i`.
pub open spec fn first_reaching(a: Seq<(u64, u64)>, i: int, j: int) -> bool {
    &&& 0 <= i < j < a.len()
    &&& a[i].1 <= a[j].0
    &&& forall|k: int| i < k < j ==> a[k].0 < a[i].1
}

/// Some arrival strictly between `i` and `j` reaches the due time of `i`.
spec fn reached_before(a: Seq<(u64, u64)>, i: int, j: int) -> bool {
    exists|k: int| i < k < j && a[i].1 <= a[k].0
}

proof fn lemma_due_run(a: Seq<(u64, u64)>, lo: int, hi: int, now: u64)
    requires
        0 <= lo <= hi <= a.len(),
    ensures
        lo <= due_run(a, lo, hi, now) <= hi,
        forall|k: int| lo <= k < due_run(a, lo, hi, now) ==> a[k].1 <= now,
        due_run(a, lo, hi, now) < hi ==> a[due_run(a, lo, hi, now)].1 > now,
    decreases hi - lo,
{
    if lo < hi && a[lo].1 <= now {
        lemma_due_run(a, lo + 1, hi, now);
    }
}

proof fn lemma_due_run_prefix(a: Seq<(u64, u64)>, b: Seq<(u64, u64)>, lo: int, hi: int, now: u64)
    requires
        0 <= lo,
        hi <= a.len() <= b.len(),
        a == b.subrange(0, a.len() as int),
    ensures
        due_run(a, lo, hi, now) == due_run(b, lo, hi, now),
    decreases hi - lo,
{
    if lo < hi {
        assert(a[lo] == b[lo]);
        lemma_due_run_prefix(a, b, lo + 1, hi, now);
    }
}

/// The count after `n` arrivals lies between zero and `n`.
proof fn lemma_flushed_count_bounds(a: Seq<(u64, u64)>, n: int)
    requires
        0 <= n <= a.len(),
    ensures
        0 <= flushed_count(a, n) <= n,
    decreases n,
{
    if n > 0 {
        let m = n - 1;
        lemma_flushed_count_bounds(a, m);
        lemma_due_run(a, flushed_count(a, m), m, a[m].0);
    }
}

/// The count after `n` arrivals depends on those arrivals alone.
proof fn lemma_flushed_count_prefix(a: Seq<(u64, u64)>, b: Seq<(u64, u64)>, n: int)
    requires
        0 <= n <= a.len() <= b.len(),
        a == b.subrange(0, a.len() as int),
    ensures
        flushed_count(a, n) == flushed_count(b, n),
    decreases n,
{
    if n > 0 {
        let m = n - 1;
        lemma_flushed_count_prefix(a, b, m);
        lemma_flushed_count_bounds(a, m);
        assert(a[m] == b[m]);
        lemma_due_run_prefix(a, b, flushed_count(a, m), m, a[m].0);
    }
}

/// Arrivals release their records in arrival order: the positions released by
/// arrival `j` directly follow those released before it, and none is later than
/// `j` itself.
pub proof fn lemma_flush_windows_consecutive(a: Seq<(u64, u64)>, j: int)
    requires
        0 <= j < a.len(),
    ensures
        0 <= flushed_count(a, j) <= flushed_count(a, j + 1) <= j,
{
    lemma_flushed_count_bounds(a, j);
    lemma_due_run(a, flushed_count(a, j), j as int, a[j as int].0);
}

/// With ordered due times, the first `n` arrivals have released exactly the
/// positions reached by some later arrival among them.
proof fn lemma_flushed_iff_reached(a: Seq<(u64, u64)>, n: int, i: int)
    requires
        dues_ordered(a),
        0 <= n <= a.len(),
        0 <= i,
    ensures
        i < flushed_count(a, n) <==> reached_before(a, i, n),
    decreases n,
{
    if n > 0 {
        let m = n - 1;
        let f = flushed_count(a, m);
        let now = a[m].0;
        lemma_flushed_iff_reached(a, m, i);
        lemma_flushed_count_bounds(a, m);
        lemma_due_run(a, f, m, now);
        let r = due_run(a, f, m, now);
        if i < r {
            if i >= f {
                assert(i < m && a[i].1 <= a[m].0);
            }
            assert(reached_before(a, i, n)) by {
                if i < f {
                    let k = choose|k: int| i < k < m && a[i].1 <= a[k].0;
                    assert(i < k < n && a[i].1 <= a[k].0);
                }
            }
        }
        if reached_before(a, i, n) {
            let k = choose|k: int| i < k < n && a[i].1 <= a[k].0;
            if k < m {
                assert(reached_before(a, i, m));
            } else if i >= r {
                assert(r < m);
                assert(a[r].1 <= a[i].1);
                assert(false);
            }
        }
    }
}

/// Arrival `i` is labeled and released by arrival `j` exactly when `j` is the
/// first later arrival whose time reaches the due time of `i`. Hence an arrival
/// that no later arrival reaches is never released.
pub proof fn lemma_released_at_first_reaching(a: Seq<(u64, u64)>, i: int, j: int)
    requires
        dues_ordered(a),
        0 <= i,
        0 <= j < a.len(),
    ensures
        flushed_count(a, j) <= i < flushed_count(a, j + 1) <==> first_reaching(a, i, j),
{
    lemma_flushed_iff_reached(a, j, i);
    lemma_flushed_iff_reached(a, j + 1, i);
    if first_reaching(a, i, j) {
        assert(reached_before(a, i, j + 1));
        if reached_before(a, i, j) {
            let k = choose|k: int| i < k < j && a[i].1 <= a[k].0;
            assert(a[k].0 < a[i].1);
        }
    }
    if flushed_count(a, j) <= i < flushed_count(a, j + 1) {
        let k = choose|k: int| i < k < j + 1 && a[i].1 <= a[k].0;
        if k < j {
            assert(reached_before(a, i, j));
        }
        assert forall|k2: int| i < k2 < j implies a[k2].0 < a[i].1 by {
            if a[k2].0 >= a[i].1 {
                assert(reached_before(a, i, j));
            }
        }
    }
}

/// The keys of a stream of `(time, due)` binary64 bit patterns.
pub open spec fn keyed(s: Seq<(u64, u64)>) -> Seq<(u64, u64)> {
    s.map_values(|e: (u64, u64)| (time_key_spec(e.0) as u64, due_key_spec(e.1) as u64))
}

/// The float comparison `due <= time`, false when either is NaN.
pub open spec fn float_reaches(due: u64, time: u64) -> bool {
    !is_nan(due) && !is_nan(time) && float_le(due, time)
}

/// On binary64 bit patterns: arrival `j` is the first after arrival `i` whose
/// time reaches the due time of `i`.
pub open spec fn first_reaching_time(s: Seq<(u64, u64)>, i: int, j: int) -> bool {
    &&& 0 <= i < j < s.len()
    &&& float_reaches(s[i].1, s[j].0)
    &&& forall|k: int| i < k < j ==> !float_reaches(s[i].1, #[trigger] s[k].0)
}

/// Due times that are numbers and never decrease along the stream.
pub open spec fn float_dues_ordered(s: Seq<(u64, u64)>) -> bool {
    forall|i: int, j: int|
        0 <= i < j < s.len() ==> float_reaches(#[trigger] s[i].1, #[trigger] s[j].1)
}

/// On a stream of binary64 times and due times, keyed for the queue: arrival
/// `i` is labeled and released by arrival `j` exactly when `j` is the first
/// later arrival whose time is at least the due time of `i`, compared as
/// floats. An arrival that no later time reaches is never released.
pub proof fn lemma_released_at_first_reaching_time(s: Seq<(u64, u64)>, i: int, j: int)
    requires
        float_dues_ordered(s),
        0 <= i,
        0 <= j < s.len(),
    ensures
        flushed_count(keyed(s), j) <= i < flushed_count(keyed(s), j + 1)
            <==> first_reaching_time(s, i, j),
{
    let a = keyed(s);
    assert forall|x: int, y: int| 0 <= x < y < a.len() implies a[x].1 <= a[y].1 by {
        assert(float_reaches(s[x].1, s[y].1));
        lemma_order_key_monotone(s[x].1, s[y].1);
        lemma_due_reached_iff_float_le(s[x].1, s[x].0);
        lemma_due_reached_iff_float_le(s[y].1, s[y].0);
    }
    lemma_released_at_first_reaching(a, i, j);
    assert forall|x: int, y: int| 0 <= x < s.len() && 0 <= y < s.len() implies (a[x].1 <= a[y].0
        <==> float_reaches(s[x].1, s[y].0)) by {
        lemma_due_reached_iff_float_le(s[x].1, s[y].0);
    }
    if i < j {
        assert(first_reaching(a, i, j) == first_reaching_time(s, i, j));
    }
}

/// Single-pass delay queue: each record waits, in arrival order, until an
/// arrival whose time reaches its due time releases it for labeling.
pub struct StreamingLabeler<T> {
    pending: VecDeque<(T, u64)>,
    arrivals: Ghost<Seq<(u64, u64)>>,
    items: Ghost<Seq<T>>,
}

impl<T> StreamingLabeler<T> {
    /// The `(time, due)` pairs of every arrival so far, in arrival order.
    pub closed spec fn arrivals(&self) -> Seq<(u64, u64)> {
        self.arrivals@
    }

    /// The records of every arrival so far, in arrival order.
    pub closed spec fn items(&self) -> Seq<T> {
        self.items@
    }

    /// The records still waiting for their due time, oldest first, each with
    /// its due time.
    pub closed spec fn pending(&self) -> Seq<(T, u64)> {
        self.pending@
    }

    /// The waiting records are exactly the arrivals not yet released, in order.
    pub closed spec fn wf(&self) -> bool {
        let a = self.arrivals@;
        let f = flushed_count(a, a.len() as int);
        &&& self.items@.len() == a.len()
        &&& 0 <= f <= a.len()
        &&& self.pending@.len() == a.len() - f
        &&& forall|k: int|
            0 <= k < a.len() - f ==> #[trigger] self.pending@[k] == (self.items@[f + k], a[f
                + k].1)
    }

    /// An empty queue, before any arrival.
    pub fn new() -> (r: Self)
        ensures
            r.wf(),
            r.arrivals() == Seq::<(u64, u64)>::empty(),
            r.items() == Seq::<T>::empty(),
            r.pending() == Seq::<(T, u64)>::empty(),
    {
        StreamingLabeler { pending: VecDeque::new(), arrivals: Ghost(Seq::empty()), items: Ghost(Seq::empty()) }
    }

    /// Processes one arrival: releases, oldest first, every waiting record whose
    /// due time is at most `time` (stopping at the first that is not due), to be
    /// labeled against this arrival; then queues `item` with due time `due`.
    pub fn push(&mut self, item: T, time: u64, due: u64) -> (r: Vec<T>)
        requires
            old(self).wf(),
        ensures
            final(self).wf(),
            final(self).arrivals() == old(self).arrivals().push((time, due)),
            final(self).items() == old(self).items().push(item),
            r@ == final(self).items().subrange(
                flushed_count(final(self).arrivals(), old(self).arrivals().len() as int),
                flushed_count(final(self).arrivals(), old(self).arrivals().len() as int + 1),
            ),
            r@.len() <= old(self).pending().len(),
            forall|k: int| 0 <= k < r@.len() ==> (#[trigger] old(self).pending()[k]).1 <= time,
            r@.len() < old(self).pending().len() ==> old(self).pending()[r@.len() as int].1 > time,
            r@ == old(self).pending().take(r@.len() as int).map_values(|e: (T, u64)| e.0),
            final(self).pending() == old(self).pending().skip(r@.len() as int).push((item, due)),
    {
        let ghost a0 = self.arrivals@;
        let ghost n = a0.len() as int;
        let ghost a1 = a0.push((time, due));
        let ghost items1 = self.items@.push(item);
        let ghost waiting = self.pending@;
        let ghost lo = flushed_count(a0, n);
        proof {
            lemma_flushed_count_prefix(a0, a1, n);
            assert(a0 == a1.subrange(0, n));
        }
        let mut out: Vec<T> = Vec::new();
        while self.pending.len() > 0 && self.pending[0].1 <= time
            invariant
                0 <= lo <= n,
                a1.len() == n + 1,
                items1.len() == n + 1,
                lo == flushed_count(a1, n),
                waiting.len() == n - lo,
                forall|k: int| 0 <= k < n - lo ==> #[trigger] waiting[k] == (items1[lo + k], a1[lo + k].1),
                out@.len() <= waiting.len(),
                self.pending@ == waiting.skip(out@.len() as int),
                out@ == items1.subrange(lo, lo + out@.len()),
                forall|k: int| 0 <= k < out@.len() ==> #[trigger] waiting[k].1 <= time,
                due_run(a1, lo, n, time) == due_run(a1, lo + out@.len(), n, time),
            decreases self.pending@.len(),
        {
            match self.pending.pop_front() {
                Some(e) => {
                    out.push(e.0);
                },
                None => {},
            }
        }
        let ghost k = out@.len() as int;
        self.pending.push_back((item, due));
        proof {
            self.arrivals = Ghost(a1);
            self.items = Ghost(items1);
            lemma_due_run(a1, lo + k, n, time);
        }
        out
    }
}

} // verus!
