//! Running statistics of the decode pass.
//!
//! The pass walks the demuxed packets in arrival order. Packets of streams
//! other than the selected one are discarded. A selected packet first folds
//! its decode timestamp into the running maximum, then goes to the decoder,
//! and every frame drained afterwards is counted, key frames remembering the
//! count they were drained at. A decoder failure aborts the whole run.
//!
//! [`Stats`] offers the per-event steps that a live loop drives, and
//! [`accumulate`] runs the same steps over a recorded sequence of packets,
//! with the whole pass specified against the spec functions below.

use vstd::prelude::*;

use crate::errors::MediaError;

verus! {

/// What the decoder did with one submitted packet.
#[derive(Debug)]
pub enum DecodeOutcome {
    /// The packet was accepted; one flag per frame drained afterwards,
    /// `true` for a key frame, in drain order.
    Frames(Vec<bool>),
    /// The decoder rejected the packet; the run aborts.
    Failed,
}

/// One demuxed packet: the stream it belongs to, its decode timestamp when
/// it carries one, and what the decoder made of it.
#[derive(Debug)]
pub struct PacketRecord {
    /// Index of the stream the packet belongs to.
    pub stream_index: usize,
    /// The packet's decode timestamp, when defined.
    pub dts: Option<i64>,
    /// What decoding the packet yielded. Read only for packets of the
    /// selected stream; others are never submitted.
    pub outcome: DecodeOutcome,
}

/// The key-frame flags a packet contributes when submitted.
pub open spec fn frames_of(p: PacketRecord) -> Seq<bool> {
    match p.outcome {
        DecodeOutcome::Frames(v) => v@,
        DecodeOutcome::Failed => Seq::empty(),
    }
}

/// The key-frame flags of all frames drained across the pass: the
/// concatenation, in arrival order, of the flags of the selected stream's
/// packets.
pub open spec fn selected_frames(packets: Seq<PacketRecord>, selected: usize) -> Seq<bool>
    decreases packets.len(),
{
    if packets.len() == 0 {
        Seq::empty()
    } else {
        selected_frames(packets.drop_last(), selected) + (if packets.last().stream_index
            == selected {
            frames_of(packets.last())
        } else {
            Seq::empty()
        })
    }
}

/// The defined decode timestamps of the selected stream's packets, in
/// arrival order.
pub open spec fn selected_dts(packets: Seq<PacketRecord>, selected: usize) -> Seq<i64>
    decreases packets.len(),
{
    if packets.len() == 0 {
        Seq::empty()
    } else {
        selected_dts(packets.drop_last(), selected) + (match packets.last().dts {
            Some(d) => if packets.last().stream_index == selected {
                seq![d]
            } else {
                Seq::empty()
            },
            None => Seq::empty(),
        })
    }
}

/// Whether some packet of the selected stream was rejected by the decoder.
pub open spec fn has_decode_failure(packets: Seq<PacketRecord>, selected: usize) -> bool {
    exists|i: int|
        0 <= i < packets.len() && packets[i].stream_index == selected && (packets[i].outcome
            is Failed)
}

/// One step of the running decode-timestamp maximum: keep the larger value,
/// a first value unconditionally, and the current one when the packet
/// carries none.
pub open spec fn dts_max(cur: Option<i64>, dts: Option<i64>) -> Option<i64> {
    match (cur, dts) {
        (Some(v), Some(d)) => Some(if d > v { d } else { v }),
        (None, Some(d)) => Some(d),
        (Some(v), None) => Some(v),
        (None, None) => None,
    }
}

/// The running maximum folded over a whole sequence of timestamps.
pub open spec fn max_dts_spec(ds: Seq<i64>) -> Option<i64>
    decreases ds.len(),
{
    if ds.len() == 0 {
        None
    } else {
        dts_max(max_dts_spec(ds.drop_last()), Some(ds.last()))
    }
}

/// The frame count recorded immediately before the most recently drained
/// key frame: the index of the last `true` flag, or `0` when there is none.
pub open spec fn last_key_spec(flags: Seq<bool>) -> int
    decreases flags.len(),
{
    if flags.len() == 0 {
        0
    } else if flags.last() {
        flags.len() - 1
    } else {
        last_key_spec(flags.drop_last())
    }
}

/// The running statistics of one pass, mutated only in packet order.
#[derive(Clone, Copy, Debug, PartialEq, Eq)]
pub struct Stats {
    /// Total frames decoded so far.
    pub frame_count: i64,
    /// `frame_count` as it stood when the most recent key frame was
    /// drained; `0` until a key frame appears.
    pub last_key_frame_index: i64,
    /// The largest decode timestamp seen so far on a selected packet that
    /// carried one; `None` until a first such packet.
    pub highest_dts: Option<i64>,
}

impl Stats {
    /// The statistics before any packet is visited.
    pub open spec fn initial() -> Stats {
        Stats { frame_count: 0, last_key_frame_index: 0, highest_dts: None }
    }

    /// The invariant the steps preserve: counts start at zero and the key
    /// index never runs ahead of the frame count.
    pub open spec fn wf(self) -> bool {
        0 <= self.last_key_frame_index <= self.frame_count
    }

    /// Fresh statistics for a new pass.
    pub fn new() -> (s: Stats)
        ensures
            s == Self::initial(),
            s.wf(),
    {
        Stats { frame_count: 0, last_key_frame_index: 0, highest_dts: None }
    }

    /// Folds one selected packet's decode timestamp into the running
    /// maximum; the frame counters are untouched.
    pub fn record_packet_dts(&mut self, dts: Option<i64>)
        ensures
            final(self).frame_count == old(self).frame_count,
            final(self).last_key_frame_index == old(self).last_key_frame_index,
            final(self).highest_dts == dts_max(old(self).highest_dts, dts),
            old(self).wf() ==> final(self).wf(),
    {
        self.highest_dts = match (self.highest_dts, dts) {
            (Some(v), Some(d)) => if d > v {
                Some(d)
            } else {
                Some(v)
            },
            (None, Some(d)) => Some(d),
            (cur, None) => cur,
        };
    }

    /// Accounts one drained frame: a key frame first snapshots the current
    /// count, then the count grows by one.
    pub fn record_frame(&mut self, is_key: bool)
        requires
            old(self).frame_count < i64::MAX,
        ensures
            final(self).frame_count == old(self).frame_count + 1,
            final(self).last_key_frame_index == (if is_key {
                old(self).frame_count
            } else {
                old(self).last_key_frame_index
            }),
            final(self).highest_dts == old(self).highest_dts,
            old(self).wf() ==> final(self).wf(),
    {
        if is_key {
            self.last_key_frame_index = self.frame_count;
        }
        self.frame_count = self.frame_count + 1;
    }
}

/// Whether a packet belongs to the selected stream; only such packets are
/// submitted to the decoder or touch the statistics.
pub fn packet_selected(packet_stream: usize, selected: usize) -> (r: bool)
    ensures
        r == (packet_stream == selected),
{
    packet_stream == selected
}

/// Runs the whole pass over a recorded packet sequence: the statistics of a
/// run that saw these packets in this order, or the decode error that
/// aborted it. No report is derived from an aborted run.
#[verifier::loop_isolation(false)]
pub fn accumulate(packets: &Vec<PacketRecord>, selected: usize) -> (r: Result<Stats, MediaError>)
    requires
        selected_frames(packets@, selected).len() <= i64::MAX,
    ensures
        !has_decode_failure(packets@, selected) ==> (r matches Ok(stats)
            && stats.frame_count == selected_frames(packets@, selected).len()
            && stats.last_key_frame_index == last_key_spec(selected_frames(packets@, selected))
            && stats.highest_dts == max_dts_spec(selected_dts(packets@, selected)) && stats.wf()),
        has_decode_failure(packets@, selected) ==> r == Err::<Stats, MediaError>(
            MediaError::Decode,
        ),
{
    let mut stats = Stats::new();
    let n: usize = packets.len();
    let mut i: usize = 0;
    while i < n
        invariant
            n == packets@.len(),
            i <= n,
            selected_frames(packets@, selected).len() <= i64::MAX,
            !has_decode_failure(packets@.take(i as int), selected),
            stats.frame_count == selected_frames(packets@.take(i as int), selected).len(),
            stats.last_key_frame_index == last_key_spec(
                selected_frames(packets@.take(i as int), selected),
            ),
            stats.highest_dts == max_dts_spec(selected_dts(packets@.take(i as int), selected)),
            stats.wf(),
        decreases n - i,
    {
        let ghost prefix = packets@.take(i as int);
        let ghost here = packets@.take(i as int + 1);
        proof {
            assert(here =~= prefix.push(packets@[i as int]));
            assert(here.drop_last() =~= prefix);
        }
        let p = &packets[i];
        if packet_selected(p.stream_index, selected) {
            stats.record_packet_dts(p.dts);
            proof {
                match packets@[i as int].dts {
                    Some(d) => {
                        assert(selected_dts(here, selected) == selected_dts(prefix, selected)
                            + seq![d]);
                        assert((selected_dts(prefix, selected) + seq![d]).drop_last()
                            =~= selected_dts(prefix, selected));
                        assert((selected_dts(prefix, selected) + seq![d]).last() == d);
                    },
                    None => {
                        assert(selected_dts(here, selected) =~= selected_dts(prefix, selected));
                    },
                }
            }
            match &p.outcome {
                DecodeOutcome::Failed => {
                    proof {
                        assert(packets@[i as int].stream_index == selected
                            && packets@[i as int].outcome is Failed);
                    }
                    return Err(MediaError::Decode);
                },
                DecodeOutcome::Frames(flags) => {
                    let ghost before = selected_frames(prefix, selected);
                    proof {
                        assert(before + flags@.take(0) =~= before);
                        assert(selected_frames(here, selected) == before + flags@);
                        lemma_selected_concat(here, packets@.skip(i as int + 1), selected);
                        assert(here + packets@.skip(i as int + 1) =~= packets@);
                        assert(selected_frames(here, selected).len() <= selected_frames(
                            packets@,
                            selected,
                        ).len());
                    }
                    let m: usize = flags.len();
                    let mut j: usize = 0;
                    while j < m
                        invariant
                            m == flags@.len(),
                            j <= m,
                            before == selected_frames(prefix, selected),
                            before.len() + m <= i64::MAX,
                            stats.frame_count == before.len() + j,
                            stats.last_key_frame_index == last_key_spec(
                                before + flags@.take(j as int),
                            ),
                            stats.highest_dts == max_dts_spec(selected_dts(here, selected)),
                            stats.wf(),
                        decreases m - j,
                    {
                        proof {
                            assert(before + flags@.take(j as int + 1) =~= (before + flags@.take(
                                j as int,
                            )).push(flags@[j as int]));
                            assert(((before + flags@.take(j as int)).push(flags@[j as int])).drop_last()
                                =~= before + flags@.take(j as int));
                        }
                        stats.record_frame(flags[j]);
                        j += 1;
                    }
                    proof {
                        assert(flags@.take(m as int) =~= flags@);
                        assert(selected_frames(here, selected) =~= before + flags@);
                    }
                },
            }
        } else {
            proof {
                assert(selected_frames(here, selected) =~= selected_frames(prefix, selected));
                assert(selected_dts(here, selected) =~= selected_dts(prefix, selected));
            }
        }
        i += 1;
    }
    proof {
        assert(packets@.take(n as int) =~= packets@);
    }
    Ok(stats)
}

/// Once set, the running decode-timestamp maximum never decreases, whatever
/// the next packet carries.
pub proof fn lemma_dts_never_decreases(cur: Option<i64>, dts: Option<i64>)
    ensures
        cur matches Some(v) ==> (dts_max(cur, dts) matches Some(w) && v <= w),
{
}

/// A packet of another stream never changes what a pass computes: appending
/// it leaves the drained frames, the defined timestamps, and the failure
/// status of the pass exactly as they were.
pub proof fn lemma_other_streams_ignored(
    packets: Seq<PacketRecord>,
    p: PacketRecord,
    selected: usize,
)
    requires
        p.stream_index != selected,
    ensures
        selected_frames(packets.push(p), selected) == selected_frames(packets, selected),
        selected_dts(packets.push(p), selected) == selected_dts(packets, selected),
        has_decode_failure(packets.push(p), selected) == has_decode_failure(packets, selected),
{
    assert(packets.push(p).drop_last() =~= packets);
    assert(selected_frames(packets.push(p), selected) =~= selected_frames(packets, selected));
    assert(selected_dts(packets.push(p), selected) =~= selected_dts(packets, selected));
    if has_decode_failure(packets.push(p), selected) {
        let i = choose|i: int|
            0 <= i < packets.push(p).len() && packets.push(p)[i].stream_index == selected && (
            packets.push(p)[i].outcome is Failed);
        assert(i < packets.len() && packets[i].stream_index == selected && (packets[i].outcome
            is Failed));
    }
    if has_decode_failure(packets, selected) {
        let i = choose|i: int|
            0 <= i < packets.len() && packets[i].stream_index == selected && (packets[i].outcome
                is Failed);
        assert(packets.push(p)[i].stream_index == selected && (packets.push(p)[i].outcome
            is Failed));
    }
}

/// The running decode-timestamp maximum is the maximum: it is `None` exactly
/// for an empty sequence, and otherwise a value that occurs in the sequence
/// and bounds every element of it.
pub proof fn lemma_max_dts_is_max(ds: Seq<i64>)
    ensures
        ds.len() == 0 <==> max_dts_spec(ds) is None,
        max_dts_spec(ds) matches Some(m) ==> ds.contains(m) && (forall|i: int|
            0 <= i < ds.len() ==> ds[i] <= m),
    decreases ds.len(),
{
    if ds.len() > 0 {
        lemma_max_dts_is_max(ds.drop_last());
        if let Some(m) = max_dts_spec(ds) {
            if ds.len() == 1 {
                assert(ds[0] == ds.last());
                assert(ds.contains(m));
            } else {
                let prev = max_dts_spec(ds.drop_last());
                assert(prev is Some);
                let pm = prev->Some_0;
                if ds.last() > pm {
                    assert(m == ds.last());
                    assert(ds[ds.len() - 1] == m);
                    assert(ds.contains(m));
                } else {
                    assert(m == pm);
                    let w = choose|w: int| 0 <= w < ds.drop_last().len() && ds.drop_last()[w] == m;
                    assert(ds[w] == m);
                    assert(ds.contains(m));
                }
                assert(forall|i: int| 0 <= i < ds.len() - 1 ==> ds[i] == ds.drop_last()[i]);
            }
        }
    }
}

/// The recorded key-frame index points at the most recently drained key
/// frame: when some flag is set it is the position of the last set flag,
/// and with no key frame at all it stays zero.
pub proof fn lemma_last_key_is_latest(flags: Seq<bool>)
    ensures
        (forall|i: int| 0 <= i < flags.len() ==> !flags[i]) ==> last_key_spec(flags) == 0,
        (exists|i: int| 0 <= i < flags.len() && flags[i]) ==> ({
            let k = last_key_spec(flags);
            &&& 0 <= k < flags.len()
            &&& flags[k]
            &&& forall|j: int| k < j < flags.len() ==> !flags[j]
        }),
    decreases flags.len(),
{
    if flags.len() > 0 {
        lemma_last_key_is_latest(flags.drop_last());
        if !flags.last() {
            assert(forall|i: int| 0 <= i < flags.len() - 1 ==> flags[i] == flags.drop_last()[i]);
            if exists|i: int| 0 <= i < flags.len() && flags[i] {
                let w = choose|w: int| 0 <= w < flags.len() && flags[w];
                assert(flags.drop_last()[w]);
            }
        }
    }
}

/// Splitting a packet sequence splits its statistics inputs: frames and
/// timestamps of a concatenation are the concatenations of each part's.
pub proof fn lemma_selected_concat(a: Seq<PacketRecord>, b: Seq<PacketRecord>, selected: usize)
    ensures
        selected_frames(a + b, selected) == selected_frames(a, selected) + selected_frames(
            b,
            selected,
        ),
        selected_dts(a + b, selected) == selected_dts(a, selected) + selected_dts(b, selected),
    decreases b.len(),
{
    if b.len() == 0 {
        assert(a + b =~= a);
        assert(selected_frames(a, selected) + selected_frames(b, selected) =~= selected_frames(
            a,
            selected,
        ));
        assert(selected_dts(a, selected) + selected_dts(b, selected) =~= selected_dts(a, selected));
    } else {
        lemma_selected_concat(a, b.drop_last(), selected);
        assert((a + b).drop_last() =~= a + b.drop_last());
        assert((a + b).len() > 0);
        assert(selected_frames(a + b, selected) =~= selected_frames(a, selected) + selected_frames(
            b,
            selected,
        ));
        assert(selected_dts(a + b, selected) =~= selected_dts(a, selected) + selected_dts(
            b,
            selected,
        ));
    }
}

} // verus!
