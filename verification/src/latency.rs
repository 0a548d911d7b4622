//! The client side of the ping test as a state machine: each round sends a
//! payload tagged with the round number, checks that the echo carries the
//! same tag, and records the round-trip time once the warm-up rounds are
//! over. The caller performs the network I/O and the timing.

use vstd::prelude::*;
use vstd::bytes::{
    spec_u64_from_le_bytes, spec_u64_to_le_bytes, u64_to_le_bytes,
    lemma_auto_spec_u64_to_from_le_bytes,
};
use crate::stats::{compute_stats, is_jitter, is_mean, seq_max, seq_min, Fraction};

verus! {

/// Statistics of a latency run; all times are in nanoseconds, the mean and
/// the jitter as exact fractions.
pub struct LatencyStats {
    pub avg_ns: Fraction,
    pub min_ns: u64,
    pub max_ns: u64,
    pub jitter_ns: Fraction,
    pub samples_ns: Vec<u64>,
}

impl LatencyStats {
    /// The statistics of the given round-trip times.
    pub fn from_samples(samples_ns: Vec<u64>) -> (st: LatencyStats)
        ensures
            st.samples_ns@ == samples_ns@,
            is_mean(st.avg_ns, samples_ns@),
            st.min_ns == seq_min(samples_ns@),
            st.max_ns == seq_max(samples_ns@),
            is_jitter(st.jitter_ns, samples_ns@),
    {
        let (avg_ns, min_ns, max_ns, jitter_ns) = compute_stats(samples_ns.as_slice());
        LatencyStats { avg_ns, min_ns, max_ns, jitter_ns, samples_ns }
    }
}

/// Why a latency run stopped early.
#[derive(Debug, PartialEq, Eq, Structural)]
pub enum ProbeError {
    /// The echoed payload does not carry the tag of the round that sent it.
    EchoMismatch,
}

/// The tag that identifies a round: its number as 8 little-endian bytes.
pub open spec fn round_tag(round: nat) -> Seq<u8> {
    spec_u64_to_le_bytes(round as u64)
}

/// The length of the payload sent for a requested payload size: at least
/// the 8 bytes of the tag.
pub open spec fn payload_len_for(payload_size: nat) -> nat {
    if payload_size > 8 {
        payload_size
    } else {
        8
    }
}

/// The payload of a round: its tag followed by zero bytes up to `len`.
pub open spec fn probe_payload(round: nat, len: nat) -> Seq<u8> {
    round_tag(round) + Seq::new((len - 8) as nat, |_i: int| 0u8)
}

/// The abstract state of a latency run.
pub struct ProbeModel {
    pub count: nat,
    pub warmup: nat,
    pub payload_len: nat,
    /// The round whose echo is awaited next (number of rounds done).
    pub round: nat,
    /// The round-trip times recorded so far.
    pub samples: Seq<u64>,
}

impl ProbeModel {
    /// All rounds of the run: the warm-up rounds, then the measured ones.
    pub open spec fn rounds(self) -> nat {
        self.warmup + self.count
    }

    pub open spec fn finished(self) -> bool {
        self.round >= self.rounds()
    }

    /// One sample per completed round after the warm-up.
    pub open spec fn wf(self) -> bool {
        &&& self.payload_len >= 8
        &&& self.round <= self.rounds()
        &&& self.rounds() <= u32::MAX
        &&& self.samples.len() == if self.round > self.warmup {
            (self.round - self.warmup) as nat
        } else {
            0
        }
    }

    /// The state after the awaited round completed in `elapsed_ns`.
    pub open spec fn advanced(self, elapsed_ns: u64) -> ProbeModel {
        ProbeModel {
            round: self.round + 1,
            samples: if self.round >= self.warmup {
                self.samples.push(elapsed_ns)
            } else {
                self.samples
            },
            ..self
        }
    }
}

/// A latency run in progress.
pub struct LatencyProbe {
    count: u32,
    warmup: u32,
    payload_len: usize,
    round: u32,
    samples_ns: Vec<u64>,
}

impl View for LatencyProbe {
    type V = ProbeModel;

    closed spec fn view(&self) -> ProbeModel {
        ProbeModel {
            count: self.count as nat,
            warmup: self.warmup as nat,
            payload_len: self.payload_len as nat,
            round: self.round as nat,
            samples: self.samples_ns@,
        }
    }
}

impl LatencyProbe {
    /// A run of `warmup` unrecorded rounds followed by `count` measured
    /// ones, each sending `payload_size` bytes (at least 8).
    pub fn new(count: u32, payload_size: usize, warmup: u32) -> (p: LatencyProbe)
        requires
            warmup + count <= u32::MAX,
        ensures
            p@ == (ProbeModel {
                count: count as nat,
                warmup: warmup as nat,
                payload_len: payload_len_for(payload_size as nat),
                round: 0,
                samples: Seq::empty(),
            }),
            p@.wf(),
    {
        let payload_len = if payload_size > 8 {
            payload_size
        } else {
            8
        };
        LatencyProbe { count, warmup, payload_len, round: 0, samples_ns: Vec::new() }
    }

    /// Whether every round has been completed.
    pub fn is_finished(&self) -> (b: bool)
        requires
            self@.wf(),
        ensures
            b == self@.finished(),
    {
        self.round >= self.warmup + self.count
    }

    /// The number of the round whose echo is awaited.
    pub fn round(&self) -> (r: u32)
        ensures
            r == self@.round,
    {
        self.round
    }

    /// The length of every payload of this run.
    pub fn payload_len(&self) -> (n: usize)
        ensures
            n == self@.payload_len,
    {
        self.payload_len
    }

    /// The payload to send for the current round.
    pub fn payload(&self) -> (v: Vec<u8>)
        requires
            self@.wf(),
        ensures
            v@ == probe_payload(self@.round, self@.payload_len),
    {
        proof {
            lemma_auto_spec_u64_to_from_le_bytes();
        }
        let mut v = u64_to_le_bytes(self.round as u64);
        while v.len() < self.payload_len
            invariant
                8 <= v@.len() <= self.payload_len,
                v@ == round_tag(self.round as nat) + Seq::new((v@.len() - 8) as nat, |_i: int| 0u8),
            decreases self.payload_len - v@.len(),
        {
            v.push(0u8);
            assert(v@ =~= round_tag(self.round as nat) + Seq::new((v@.len() - 8) as nat, |_i: int| 0u8));
        }
        v
    }

    /// Whether the first 8 bytes of `echo` are the tag of the current round.
    pub fn echo_matches(&self, echo: &[u8]) -> (b: bool)
        requires
            echo@.len() >= 8,
        ensures
            b == (echo@.take(8) == round_tag(self@.round)),
    {
        proof {
            lemma_auto_spec_u64_to_from_le_bytes();
        }
        let tag = u64_to_le_bytes(self.round as u64);
        let mut k: usize = 0;
        while k < 8
            invariant
                k <= 8,
                echo@.len() >= 8,
                tag@ == round_tag(self@.round),
                tag@.len() == 8,
                forall|j: int| 0 <= j < k ==> echo@[j] == tag@[j],
            decreases 8 - k,
        {
            if echo[k] != tag[k] {
                assert(echo@.take(8)[k as int] != tag@[k as int]);
                return false;
            }
            k = k + 1;
        }
        assert(echo@.take(8) =~= tag@);
        true
    }

    /// Takes the echo of the current round and its round-trip time. An echo
    /// that does not carry the round's tag ends the run with an error and
    /// leaves the state unchanged; otherwise the round is done, and its time
    /// is recorded unless it was a warm-up round.
    pub fn on_echo(&mut self, echo: &[u8], elapsed_ns: u64) -> (r: Result<(), ProbeError>)
        requires
            old(self)@.wf(),
            !old(self)@.finished(),
            echo@.len() >= 8,
        ensures
            final(self)@.wf(),
            r is Ok <==> echo@.take(8) == round_tag(old(self)@.round),
            r is Ok ==> final(self)@ == old(self)@.advanced(elapsed_ns),
            r is Ok ==> final(self)@.round == old(self)@.round + 1,
            r is Ok && old(self)@.round >= old(self)@.warmup ==> final(self)@.samples == old(self)@.samples.push(elapsed_ns),
            r is Ok && old(self)@.round < old(self)@.warmup ==> final(self)@.samples == old(self)@.samples,
            r is Err ==> final(self)@ == old(self)@ && r == Err::<(), ProbeError>(
                ProbeError::EchoMismatch,
            ),
    {
        if !self.echo_matches(echo) {
            return Err(ProbeError::EchoMismatch);
        }
        if self.round >= self.warmup {
            self.samples_ns.push(elapsed_ns);
        }
        self.round = self.round + 1;
        Ok(())
    }

    /// The statistics of the recorded round-trip times.
    pub fn finish(self) -> (st: LatencyStats)
        ensures
            st.samples_ns@ == self@.samples,
            is_mean(st.avg_ns, self@.samples),
            st.min_ns == seq_min(self@.samples),
            st.max_ns == seq_max(self@.samples),
            is_jitter(st.jitter_ns, self@.samples),
    {
        LatencyStats::from_samples(self.samples_ns)
    }
}

/// Rounds with different numbers carry different tags, so an echo that
/// belongs to another round never passes the check of the current one; and
/// a faithful echo of a round's payload always passes it.
pub proof fn lemma_tags_identify_rounds(i: u64, j: u64, len: nat)
    requires
        len >= 8,
    ensures
        i != j ==> round_tag(i as nat) != round_tag(j as nat),
        round_tag(i as nat).len() == 8,
        spec_u64_from_le_bytes(round_tag(i as nat)) == i,
        probe_payload(i as nat, len).take(8) == round_tag(i as nat),
        probe_payload(i as nat, len).len() == len,
        forall|k: int| 8 <= k < len ==> #[trigger] probe_payload(i as nat, len)[k] == 0u8,
{
    lemma_auto_spec_u64_to_from_le_bytes();
    assert(probe_payload(i as nat, len).take(8) =~= round_tag(i as nat));
}

/// Every payload holds at least the 8 bytes of the tag, and exactly the
/// requested size when that is larger.
pub proof fn lemma_payload_len(payload_size: nat)
    ensures
        payload_len_for(payload_size) >= 8,
        payload_size >= 8 ==> payload_len_for(payload_size) == payload_size,
        payload_size < 8 ==> payload_len_for(payload_size) == 8,
{
}

/// After a round's echo matched: the next round is awaited, and the
/// round-trip time is appended after the samples already recorded when the
/// round was a measured one, and left out when it was a warm-up round.
pub proof fn lemma_echo_appends_sample(m: ProbeModel, elapsed_ns: u64)
    ensures
        m.advanced(elapsed_ns).round == m.round + 1,
        m.advanced(elapsed_ns).count == m.count,
        m.advanced(elapsed_ns).warmup == m.warmup,
        m.advanced(elapsed_ns).payload_len == m.payload_len,
        m.round >= m.warmup ==> m.advanced(elapsed_ns).samples.len() == m.samples.len() + 1,
        m.round >= m.warmup ==> m.advanced(elapsed_ns).samples.last() == elapsed_ns,
        m.round >= m.warmup ==> m.advanced(elapsed_ns).samples.drop_last() == m.samples,
        m.round >= m.warmup ==> m.advanced(elapsed_ns).samples == m.samples.push(elapsed_ns),
        m.round < m.warmup ==> m.advanced(elapsed_ns).samples == m.samples,
{
    if m.round >= m.warmup {
        assert(m.samples.push(elapsed_ns).drop_last() =~= m.samples);
    }
}

/// The state after the echoes of successive rounds matched, with the given
/// round-trip times.
pub open spec fn after_echoes(m: ProbeModel, times: Seq<u64>) -> ProbeModel
    decreases times.len(),
{
    if times.len() == 0 {
        m
    } else {
        after_echoes(m, times.drop_last()).advanced(times.last())
    }
}

/// A run records its round-trip times in round order: from a fresh start,
/// after the echoes of rounds with times `times`, the samples are the times
/// of the rounds after the warm-up, that is, sample `k` is the time of
/// round `warmup + k`.
pub proof fn lemma_samples_in_round_order(m: ProbeModel, times: Seq<u64>)
    requires
        m.round == 0,
        m.samples == Seq::<u64>::empty(),
    ensures
        after_echoes(m, times).round == times.len(),
        after_echoes(m, times).warmup == m.warmup,
        after_echoes(m, times).count == m.count,
        after_echoes(m, times).samples == if times.len() > m.warmup {
            times.skip(m.warmup as int)
        } else {
            Seq::<u64>::empty()
        },
    decreases times.len(),
{
    if times.len() > 0 {
        let d = times.drop_last();
        lemma_samples_in_round_order(m, d);
        let prev = after_echoes(m, d);
        assert(after_echoes(m, times) == prev.advanced(times.last()));
        assert(prev.round == d.len());
        lemma_echo_appends_sample(prev, times.last());
        if times.len() > m.warmup {
            if d.len() > m.warmup {
                assert(d.skip(m.warmup as int).push(times.last()) =~= times.skip(m.warmup as int));
            } else {
                assert(Seq::<u64>::empty().push(times.last()) =~= times.skip(m.warmup as int));
            }
            assert(after_echoes(m, times).samples =~= prev.samples.push(times.last()));
        }
    }
}

/// A run in which every echo matched ends with exactly one sample per
/// measured round, the warm-up rounds being left out.
pub proof fn lemma_finished_run_has_count_samples(m: ProbeModel)
    requires
        m.wf(),
        m.finished(),
    ensures
        m.samples.len() == m.count,
{
}

} // verus!
