//! Transfer-rate history of the primary network interface, as kept by the
//! HTTP server between two requests for metrics.
use vstd::prelude::*;
use std::time::SystemTime;
use crate::clock::system_time_now;

verus! {

/// Number of rate samples kept per direction.
pub const NET_HISTORY_POINTS: usize = 20;

/// `h` with `x` appended, dropping the oldest entry once more than `cap` are held.
pub open spec fn push_capped<T>(h: Seq<T>, x: T, cap: nat) -> Seq<T> {
    if h.len() + 1 > cap {
        h.push(x).drop_first()
    } else {
        h.push(x)
    }
}

/// `h` after pushing each of `xs` in turn with `push_capped`.
pub open spec fn push_all_capped(h: Seq<u64>, xs: Seq<u64>, cap: nat) -> Seq<u64>
    decreases xs.len(),
{
    if xs.len() == 0 {
        h
    } else {
        push_capped(push_all_capped(h, xs.drop_last(), cap), xs.last(), cap)
    }
}

/// The last `n` entries of `s` (all of them where it holds fewer).
pub open spec fn last_n(s: Seq<u64>, n: nat) -> Seq<u64> {
    if s.len() <= n {
        s
    } else {
        s.subrange(s.len() - n, s.len() as int)
    }
}

/// What a `NetworkHistory` holds.
pub struct NetworkHistoryView {
    pub rx: Seq<u64>,
    pub tx: Seq<u64>,
    pub last_rx: u64,
    pub last_tx: u64,
    pub last_update: SystemTime,
}

/// Received and transmitted byte rates, sampled at each request for metrics.
pub struct NetworkHistory {
    rx_history: Vec<u64>,
    tx_history: Vec<u64>,
    last_rx: u64,
    last_tx: u64,
    last_update: SystemTime,
}

impl View for NetworkHistory {
    type V = NetworkHistoryView;

    closed spec fn view(&self) -> NetworkHistoryView {
        NetworkHistoryView {
            rx: self.rx_history@,
            tx: self.tx_history@,
            last_rx: self.last_rx,
            last_tx: self.last_tx,
            last_update: self.last_update,
        }
    }
}

impl NetworkHistoryView {
    /// Both histories are equally long and hold at most `NET_HISTORY_POINTS` samples.
    pub open spec fn wf(self) -> bool {
        &&& self.rx.len() == self.tx.len()
        &&& self.rx.len() <= NET_HISTORY_POINTS
    }

    /// Whether a reading taken when `time_passed` tells that time went on
    /// since the last one adds a rate point: every reading but the first does.
    pub open spec fn adds_point(self, time_passed: bool) -> bool {
        self.last_rx > 0 && time_passed
    }

    /// The history after a reading of counters `rx`, `tx` at `now`; where it
    /// adds a point, `rates` are the received and transmitted bytes per second.
    pub open spec fn updated(
        self,
        rx: u64,
        tx: u64,
        now: SystemTime,
        time_passed: bool,
        rates: (u64, u64),
    ) -> Self {
        NetworkHistoryView {
            rx: if self.adds_point(time_passed) {
                push_capped(self.rx, rates.0, NET_HISTORY_POINTS as nat)
            } else {
                self.rx
            },
            tx: if self.adds_point(time_passed) {
                push_capped(self.tx, rates.1, NET_HISTORY_POINTS as nat)
            } else {
                self.tx
            },
            last_rx: rx,
            last_tx: tx,
            last_update: now,
        }
    }
}

/// Appends `x` to `h`, dropping the oldest entry once more than `cap` are held.
pub fn push_capped_vec<T>(h: &mut Vec<T>, x: T, cap: usize)
    ensures
        final(h)@ == push_capped(old(h)@, x, cap as nat),
{
    h.push(x);
    if h.len() > cap {
        h.remove(0);
        assert(h@ =~= old(h)@.push(x).drop_first());
    }
}

impl NetworkHistory {
    /// Holds well-formed state.
    pub open spec fn wf(&self) -> bool {
        self@.wf()
    }

    /// An empty history, stamped with the current time.
    pub fn new() -> (h: Self)
        ensures
            h.wf(),
            h@.rx.len() == 0,
            h@.tx.len() == 0,
            h@.last_rx == 0,
            h@.last_tx == 0,
    {
        NetworkHistory {
            rx_history: Vec::new(),
            tx_history: Vec::new(),
            last_rx: 0,
            last_tx: 0,
            last_update: system_time_now(),
        }
    }

    /// Whether a reading taken when `time_passed` tells that time went on
    /// since the last reading adds a rate point (`update` then records
    /// `rates`); the first reading only sets the baseline.
    pub fn adds_point(&self, time_passed: bool) -> (b: bool)
        ensures
            b == self@.adds_point(time_passed),
    {
        self.last_rx > 0 && time_passed
    }

    /// Records counters `rx`, `tx` read at `now`. Where the reading adds a
    /// point, `rates` are the bytes per second received and transmitted since
    /// the last reading, which the caller works out from the time in between.
    pub fn update(&mut self, rx: u64, tx: u64, now: SystemTime, time_passed: bool, rates: (u64, u64))
        requires
            old(self).wf(),
        ensures
            final(self).wf(),
            final(self)@ == old(self)@.updated(rx, tx, now, time_passed, rates),
    {
        if self.last_rx > 0 && time_passed {
            push_capped_vec(&mut self.rx_history, rates.0, NET_HISTORY_POINTS);
            push_capped_vec(&mut self.tx_history, rates.1, NET_HISTORY_POINTS);
        }
        self.last_rx = rx;
        self.last_tx = tx;
        self.last_update = now;
    }

    /// The time of the last reading.
    pub fn last_update(&self) -> (t: SystemTime)
        ensures
            t == self@.last_update,
    {
        self.last_update
    }

    /// The counters of the last reading: received, transmitted.
    pub fn last_counters(&self) -> (r: (u64, u64))
        ensures
            r.0 == self@.last_rx,
            r.1 == self@.last_tx,
    {
        (self.last_rx, self.last_tx)
    }

    /// Copies of the received and transmitted rate histories, oldest first.
    pub fn get_history(&self) -> (r: (Vec<u64>, Vec<u64>))
        ensures
            r.0@ == self@.rx,
            r.1@ == self@.tx,
    {
        (self.rx_history.clone(), self.tx_history.clone())
    }
}

/// Pushing samples one at a time keeps exactly the `cap` most recent of all
/// samples seen, oldest first.
pub proof fn law_history_keeps_latest(h: Seq<u64>, xs: Seq<u64>, cap: nat)
    requires
        h.len() <= cap,
    ensures
        push_all_capped(h, xs, cap) == last_n(h + xs, cap),
    decreases xs.len(),
{
    if xs.len() > 0 {
        law_history_keeps_latest(h, xs.drop_last(), cap);
        let prev = last_n(h + xs.drop_last(), cap);
        assert(h + xs =~= (h + xs.drop_last()).push(xs.last()));
        if prev.len() + 1 > cap {
            assert(prev.push(xs.last()).drop_first() =~= last_n(h + xs, cap));
        } else {
            assert(prev.push(xs.last()) =~= last_n(h + xs, cap));
        }
    } else {
        assert(h + xs =~= h);
    }
}

/// A reading never lets either history grow past `NET_HISTORY_POINTS`,
/// and both directions always hold the same number of samples.
pub proof fn law_history_bounded(
    before: NetworkHistoryView,
    rx: u64,
    tx: u64,
    now: SystemTime,
    time_passed: bool,
    rates: (u64, u64),
)
    requires
        before.wf(),
    ensures
        before.updated(rx, tx, now, time_passed, rates).wf(),
        before.updated(rx, tx, now, time_passed, rates).rx.len() <= NET_HISTORY_POINTS,
{
}

/// One reading: counters received and transmitted, its time, whether time
/// went on since the last one, and the rates worked out for it.
pub type Reading = (u64, u64, SystemTime, bool, (u64, u64));

/// The history after each of `readings` in turn.
pub open spec fn after_readings(h: NetworkHistoryView, readings: Seq<Reading>) -> NetworkHistoryView
    decreases readings.len(),
{
    if readings.len() == 0 {
        h
    } else {
        let r = readings.last();
        after_readings(h, readings.drop_last()).updated(r.0, r.1, r.2, r.3, r.4)
    }
}

/// From an empty history, `k >= 1` readings with positive received counters,
/// each taken after time went on, leave `min(k - 1, 20)` points in each
/// direction: the first reading only sets the baseline, each later one adds
/// a point.
pub proof fn law_history_length_after_readings(h: NetworkHistoryView, readings: Seq<Reading>)
    requires
        h.rx.len() == 0,
        h.tx.len() == 0,
        h.last_rx == 0,
        readings.len() >= 1,
        forall|i: int| 0 <= i < readings.len() ==> (#[trigger] readings[i]).0 > 0 && readings[i].3,
    ensures
        after_readings(h, readings).rx.len() == (if readings.len() - 1 < NET_HISTORY_POINTS {
            readings.len() - 1
        } else {
            NET_HISTORY_POINTS as int
        }),
        after_readings(h, readings).tx.len() == after_readings(h, readings).rx.len(),
        after_readings(h, readings).last_rx == readings.last().0,
    decreases readings.len(),
{
    let pre = readings.drop_last();
    let r = readings.last();
    let p = after_readings(h, pre);
    assert(after_readings(h, readings) == p.updated(r.0, r.1, r.2, r.3, r.4));
    if readings.len() == 1 {
        assert(pre.len() == 0);
        assert(p == h);
        assert(readings[0].0 > 0);
    } else {
        assert forall|i: int| 0 <= i < pre.len() implies (#[trigger] pre[i]).0 > 0 && pre[i].3 by {
            assert(pre[i] == readings[i]);
        }
        law_history_length_after_readings(h, pre);
        assert(pre.last() == readings[readings.len() - 2]);
        assert(readings[readings.len() - 2].0 > 0);
        assert(readings[readings.len() - 1].3);
        assert(p.adds_point(r.3));
        assert(p.rx.len() <= NET_HISTORY_POINTS);
    }
}

} // verus!
