//! The sampling logic shared by the download and the upload test: bytes
//! are counted as they are transferred, a sample of the running total is
//! taken each time the elapsed time passes the next multiple of the sample
//! interval, and a final sample closes the run. The caller performs the
//! network I/O and reads the clock.

use vstd::prelude::*;

verus! {

/// The bytes transferred up to a moment of a test.
#[derive(Clone, Copy, Debug)]
pub struct ThroughputSample {
    /// Time since the start of the transfer.
    pub elapsed_ns: u64,
    /// Bytes transferred by then.
    pub total_bytes: u64,
}

/// A sample of the download test.
pub type DownloadSample = ThroughputSample;

/// A sample of the upload test.
pub type UploadSample = ThroughputSample;

/// The abstract state of a throughput test.
pub struct MeterModel {
    pub duration_ns: nat,
    pub interval_ns: nat,
    /// The time that must be passed before the next sample is taken.
    pub next_sample_ns: nat,
    pub total_bytes: nat,
    pub samples: Seq<ThroughputSample>,
}

impl MeterModel {
    /// Sample `k` was taken after `k + 1` intervals, the next one is due
    /// after one interval more, and the totals of the samples never
    /// decrease nor exceed the bytes counted.
    pub open spec fn wf(self) -> bool {
        &&& self.next_sample_ns == self.interval_ns * (self.samples.len() + 1)
        &&& self.total_bytes <= u64::MAX
        &&& forall|k: int|
            0 <= k < self.samples.len() ==> #[trigger] self.samples[k].elapsed_ns
                > self.interval_ns * (k + 1)
        &&& forall|k: int|
            0 <= k < self.samples.len() ==> #[trigger] self.samples[k].total_bytes
                <= self.total_bytes
        &&& forall|i: int, j: int|
            0 <= i <= j < self.samples.len() ==> #[trigger] self.samples[i].total_bytes
                <= #[trigger] self.samples[j].total_bytes
    }

    /// The state after `bytes` more were transferred, the clock then
    /// reading `elapsed_ns`.
    pub open spec fn recorded(self, bytes: nat, elapsed_ns: u64) -> MeterModel {
        let total = self.total_bytes + bytes;
        if elapsed_ns > self.next_sample_ns {
            MeterModel {
                next_sample_ns: self.next_sample_ns + self.interval_ns,
                total_bytes: total,
                samples: self.samples.push(
                    ThroughputSample { elapsed_ns, total_bytes: total as u64 },
                ),
                ..self
            }
        } else {
            MeterModel { total_bytes: total, ..self }
        }
    }
}

/// The state of a download or upload test.
pub struct ThroughputMeter {
    duration_ns: u64,
    interval_ns: u64,
    next_sample_ns: u128,
    total_bytes: u64,
    samples: Vec<ThroughputSample>,
}

impl View for ThroughputMeter {
    type V = MeterModel;

    closed spec fn view(&self) -> MeterModel {
        MeterModel {
            duration_ns: self.duration_ns as nat,
            interval_ns: self.interval_ns as nat,
            next_sample_ns: self.next_sample_ns as nat,
            total_bytes: self.total_bytes as nat,
            samples: self.samples@,
        }
    }
}

impl ThroughputMeter {
    /// A test that runs for `duration_ns` and samples every `interval_ns`.
    pub fn new(duration_ns: u64, interval_ns: u64) -> (m: ThroughputMeter)
        ensures
            m@ == (MeterModel {
                duration_ns: duration_ns as nat,
                interval_ns: interval_ns as nat,
                next_sample_ns: interval_ns as nat,
                total_bytes: 0,
                samples: Seq::empty(),
            }),
            m@.wf(),
    {
        assert(interval_ns * (0 + 1) == interval_ns) by (nonlinear_arith);
        ThroughputMeter {
            duration_ns,
            interval_ns,
            next_sample_ns: interval_ns as u128,
            total_bytes: 0,
            samples: Vec::new(),
        }
    }

    /// Whether the test goes on at time `elapsed_ns`.
    pub fn is_running(&self, elapsed_ns: u64) -> (b: bool)
        ensures
            b == (elapsed_ns < self@.duration_ns),
    {
        elapsed_ns < self.duration_ns
    }

    /// The bytes counted so far.
    pub fn total_bytes(&self) -> (n: u64)
        ensures
            n == self@.total_bytes,
    {
        self.total_bytes
    }

    /// Counts `bytes` more transferred, the clock reading `elapsed_ns`; takes
    /// a sample when `elapsed_ns` is past the time the next one is due.
    pub fn record(&mut self, bytes: u64, elapsed_ns: u64)
        requires
            old(self)@.wf(),
            old(self)@.total_bytes + bytes <= u64::MAX,
        ensures
            final(self)@ == old(self)@.recorded(bytes as nat, elapsed_ns),
            final(self)@.wf(),
            final(self)@.total_bytes == old(self)@.total_bytes + bytes,
            elapsed_ns > old(self)@.interval_ns * (old(self)@.samples.len() + 1) ==> final(self)@.samples == old(self)@.samples.push(
                ThroughputSample {
                    elapsed_ns,
                    total_bytes: (old(self)@.total_bytes + bytes) as u64,
                },
            ),
            elapsed_ns <= old(self)@.interval_ns * (old(self)@.samples.len() + 1) ==> final(self)@.samples == old(self)@.samples,
    {
        let ghost before = self@;
        self.total_bytes = self.total_bytes + bytes;
        if elapsed_ns as u128 > self.next_sample_ns {
            let sample = ThroughputSample { elapsed_ns, total_bytes: self.total_bytes };
            self.samples.push(sample);
            self.next_sample_ns = self.next_sample_ns + self.interval_ns as u128;
            proof {
                assert(self@ =~= before.recorded(bytes as nat, elapsed_ns));
            }
        }
        proof {
            lemma_recorded_keeps_wf(before, bytes as nat, elapsed_ns);
            lemma_sample_taken_when_due(before, bytes as nat, elapsed_ns);
        }
    }

    /// Ends the test at time `elapsed_ns`: the samples taken, followed by a
    /// final one with every byte counted.
    pub fn finish(self, elapsed_ns: u64) -> (v: Vec<ThroughputSample>)
        ensures
            v@ == self@.samples.push(
                ThroughputSample { elapsed_ns, total_bytes: self@.total_bytes as u64 },
            ),
    {
        let mut samples = self.samples;
        samples.push(ThroughputSample { elapsed_ns, total_bytes: self.total_bytes });
        samples
    }
}

/// Whole milliseconds from `from_ns` to `to_ns`, as a progress display
/// counts them.
pub fn millis_between(from_ns: u64, to_ns: u64) -> (ms: u64)
    requires
        from_ns <= to_ns,
    ensures
        ms == (to_ns - from_ns) / 1_000_000,
{
    (to_ns - from_ns) / 1_000_000
}

/// The state after a series of transfers, each given as its size and the
/// clock reading after it.
pub open spec fn replay(m: MeterModel, chunks: Seq<(u64, u64)>) -> MeterModel
    decreases chunks.len(),
{
    if chunks.len() == 0 {
        m
    } else {
        let prev = replay(m, chunks.drop_last());
        prev.recorded(chunks.last().0 as nat, chunks.last().1)
    }
}

/// The sum of the sizes of a series of transfers.
pub open spec fn chunk_bytes(chunks: Seq<(u64, u64)>) -> nat
    decreases chunks.len(),
{
    if chunks.len() == 0 {
        0
    } else {
        chunk_bytes(chunks.drop_last()) + chunks.last().0 as nat
    }
}

/// Over any series of transfers whose sizes fit the counter, the meter
/// counts every byte, takes at most one sample per transfer, keeps the
/// samples already taken, and stays well formed.
pub proof fn lemma_replay_counts_every_byte(m: MeterModel, chunks: Seq<(u64, u64)>)
    requires
        m.wf(),
        m.total_bytes + chunk_bytes(chunks) <= u64::MAX,
    ensures
        replay(m, chunks).wf(),
        replay(m, chunks).total_bytes == m.total_bytes + chunk_bytes(chunks),
        replay(m, chunks).samples.len() <= m.samples.len() + chunks.len(),
        m.samples.is_prefix_of(replay(m, chunks).samples),
    decreases chunks.len(),
{
    if chunks.len() > 0 {
        let t = chunks.drop_last();
        lemma_replay_counts_every_byte(m, t);
        let prev = replay(m, t);
        lemma_recorded_keeps_wf(prev, chunks.last().0 as nat, chunks.last().1);
        let next = replay(m, chunks);
        assert(m.samples.is_prefix_of(next.samples)) by {
            assert forall|k: int| 0 <= k < m.samples.len() implies m.samples[k] == next.samples[k] by {
                assert(prev.samples[k] == m.samples[k]);
                if next.samples.len() > prev.samples.len() {
                    assert(next.samples[k] == prev.samples[k]);
                }
            }
        }
    }
}

/// Every byte transferred is counted, and a sample is taken exactly when
/// one is due, whatever the running total: when the clock is past
/// `(k + 1)` intervals with `k` samples taken, the sample of that moment
/// with the new total is appended and the next one falls due one interval
/// later; otherwise no sample is taken.
pub proof fn lemma_sample_taken_when_due(m: MeterModel, bytes: nat, elapsed_ns: u64)
    requires
        m.wf(),
        m.total_bytes + bytes <= u64::MAX,
    ensures
        m.recorded(bytes, elapsed_ns).total_bytes == m.total_bytes + bytes,
        m.recorded(bytes, elapsed_ns).interval_ns == m.interval_ns,
        m.recorded(bytes, elapsed_ns).duration_ns == m.duration_ns,
        elapsed_ns > m.interval_ns * (m.samples.len() + 1) ==> {
            &&& m.recorded(bytes, elapsed_ns).samples.len() == m.samples.len() + 1
            &&& m.recorded(bytes, elapsed_ns).samples.drop_last() == m.samples
            &&& m.recorded(bytes, elapsed_ns).samples.last().elapsed_ns == elapsed_ns
            &&& m.recorded(bytes, elapsed_ns).samples.last().total_bytes == m.total_bytes + bytes
            &&& m.recorded(bytes, elapsed_ns).samples == m.samples.push(
                ThroughputSample { elapsed_ns, total_bytes: (m.total_bytes + bytes) as u64 },
            )
        },
        elapsed_ns <= m.interval_ns * (m.samples.len() + 1) ==> m.recorded(
            bytes,
            elapsed_ns,
        ).samples == m.samples,
        m.recorded(bytes, elapsed_ns).wf(),
{
    lemma_recorded_keeps_wf(m, bytes, elapsed_ns);
    let r = m.recorded(bytes, elapsed_ns);
    if elapsed_ns > m.next_sample_ns {
        assert(r.samples.drop_last() =~= m.samples);
    }
}

/// Recording a transfer that fits the counter keeps the state well formed.
pub proof fn lemma_recorded_keeps_wf(m: MeterModel, bytes: nat, elapsed_ns: u64)
    requires
        m.wf(),
        m.total_bytes + bytes <= u64::MAX,
    ensures
        m.recorded(bytes, elapsed_ns).wf(),
{
    let r = m.recorded(bytes, elapsed_ns);
    let n = m.samples.len();
    let iv = m.interval_ns;
    if elapsed_ns > m.next_sample_ns {
        assert(iv * (n + 1) + iv == iv * (n + 2)) by (nonlinear_arith);
        assert forall|k: int| 0 <= k < r.samples.len() implies #[trigger] r.samples[k].elapsed_ns
            > r.interval_ns * (k + 1) by {
            if k < n {
                assert(r.samples[k] == m.samples[k]);
            }
        }
        assert forall|i: int, j: int|
            0 <= i <= j < r.samples.len() implies #[trigger] r.samples[i].total_bytes
            <= #[trigger] r.samples[j].total_bytes by {
            if j < n {
                assert(r.samples[i] == m.samples[i]);
                assert(r.samples[j] == m.samples[j]);
            } else if i < n {
                assert(r.samples[i] == m.samples[i]);
            }
        }
        assert forall|k: int| 0 <= k < r.samples.len() implies #[trigger] r.samples[k].total_bytes
            <= r.total_bytes by {
            if k < n {
                assert(r.samples[k] == m.samples[k]);
            }
        }
    }
}

} // verus!
