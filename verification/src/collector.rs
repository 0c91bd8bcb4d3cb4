//! State the dashboard's metrics collector keeps between two samples, and
//! the per-core CPU history the browser keeps.
use vstd::prelude::*;
use crate::net_history::{push_capped, push_capped_vec};

verus! {

/// Rate samples kept per direction by the collector.
pub const HISTORY_POINTS: usize = 32;

/// The disk list is re-read on every this many samples.
pub const DISK_LIST_REFRESH_CYCLES: u64 = 30;

/// Samples kept per core by the browser.
pub const MAX_CPU_SPARK_POINTS: usize = 32;

/// Rate histories of the primary interface and the number of samples taken.
pub struct Collector {
    pub rx_history: Vec<u64>,
    pub tx_history: Vec<u64>,
    pub cycles: u64,
}

impl Collector {
    /// Both histories are equally long and hold at most `HISTORY_POINTS` samples.
    pub open spec fn wf(&self) -> bool {
        &&& self.rx_history@.len() == self.tx_history@.len()
        &&& self.rx_history@.len() <= HISTORY_POINTS
    }

    /// No samples taken yet.
    pub fn new() -> (c: Self)
        ensures
            c.wf(),
            c.rx_history@.len() == 0,
            c.cycles == 0,
    {
        Collector { rx_history: Vec::new(), tx_history: Vec::new(), cycles: 0 }
    }

    /// Starts a sample: tells whether the disk list is to be re-read (on the
    /// first sample and every `DISK_LIST_REFRESH_CYCLES` after) and counts it.
    pub fn start_cycle(&mut self) -> (refresh_disk_list: bool)
        requires
            old(self).cycles < u64::MAX,
        ensures
            refresh_disk_list == (old(self).cycles % DISK_LIST_REFRESH_CYCLES == 0),
            final(self).cycles == old(self).cycles + 1,
            final(self).rx_history == old(self).rx_history,
            final(self).tx_history == old(self).tx_history,
    {
        let refresh = self.cycles % DISK_LIST_REFRESH_CYCLES == 0;
        self.cycles = self.cycles + 1;
        refresh
    }

    /// Records the received and transmitted rates of one sample.
    pub fn push_history(&mut self, rx: u64, tx: u64)
        requires
            old(self).wf(),
        ensures
            final(self).wf(),
            final(self).rx_history@ == push_capped(old(self).rx_history@, rx, HISTORY_POINTS as nat),
            final(self).tx_history@ == push_capped(old(self).tx_history@, tx, HISTORY_POINTS as nat),
            final(self).cycles == old(self).cycles,
    {
        push_capped_vec(&mut self.rx_history, rx, HISTORY_POINTS);
        push_capped_vec(&mut self.tx_history, tx, HISTORY_POINTS);
    }

    /// Copies of the received and transmitted rate histories, oldest first.
    pub fn histories(&self) -> (r: (Vec<u64>, Vec<u64>))
        ensures
            r.0@ == self.rx_history@,
            r.1@ == self.tx_history@,
    {
        (self.rx_history.clone(), self.tx_history.clone())
    }
}

/// The history a core's new sample is appended to: the kept one, unless the
/// number of cores changed, which starts every history afresh.
pub open spec fn core_base<T>(old_histories: Seq<Vec<T>>, cores: nat, i: int) -> Seq<T> {
    if old_histories.len() == cores {
        old_histories[i]@
    } else {
        Seq::empty()
    }
}

/// Appends each core's sample to that core's history, keeping at most
/// `MAX_CPU_SPARK_POINTS` per core.
pub fn apply_core_samples<T: Copy>(histories: &mut Vec<Vec<T>>, samples: &Vec<T>)
    ensures
        final(histories)@.len() == samples@.len(),
        forall|i: int|
            0 <= i < samples@.len() ==> #[trigger] final(histories)@[i]@ == push_capped(
                core_base(old(histories)@, samples@.len(), i),
                samples@[i],
                MAX_CPU_SPARK_POINTS as nat,
            ),
{
    let n: usize = samples.len();
    let mut source: Vec<Vec<T>> = Vec::new();
    if histories.len() == n {
        std::mem::swap(histories, &mut source);
    } else {
        let mut j: usize = 0;
        while j < n
            invariant
                j <= n,
                source@.len() == j,
                forall|k: int| 0 <= k < j ==> (#[trigger] source@[k])@.len() == 0,
            decreases n - j,
        {
            source.push(Vec::new());
            j = j + 1;
        }
    }
    let ghost base = source@;
    assert(forall|k: int| 0 <= k < n ==> (#[trigger] base[k])@ == core_base(old(histories)@, n as nat, k));
    let mut reversed: Vec<Vec<T>> = Vec::new();
    while source.len() > 0
        invariant
            source@.len() + reversed@.len() == n,
            base.len() == n,
            forall|k: int| 0 <= k < source@.len() ==> #[trigger] source@[k] == base[k],
            forall|k: int|
                0 <= k < reversed@.len() ==> #[trigger] reversed@[k] == base[n - 1 - k],
        decreases source.len(),
    {
        let h = source.pop().unwrap();
        reversed.push(h);
    }
    let mut out: Vec<Vec<T>> = Vec::new();
    let mut i: usize = 0;
    while i < n
        invariant
            i <= n == samples@.len(),
            reversed@.len() == n - i,
            base.len() == n,
            forall|k: int| 0 <= k < reversed@.len() ==> #[trigger] reversed@[k] == base[n - 1 - k],
            forall|k: int| 0 <= k < n ==> (#[trigger] base[k])@ == core_base(old(histories)@, n as nat, k),
            out@.len() == i,
            forall|k: int|
                0 <= k < i ==> #[trigger] out@[k]@ == push_capped(
                    core_base(old(histories)@, n as nat, k),
                    samples@[k],
                    MAX_CPU_SPARK_POINTS as nat,
                ),
        decreases n - i,
    {
        let mut h = reversed.pop().unwrap();
        assert(h == base[i as int]);
        push_capped_vec(&mut h, samples[i], MAX_CPU_SPARK_POINTS);
        out.push(h);
        i = i + 1;
    }
    *histories = out;
}

} // verus!
