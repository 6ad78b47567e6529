use frametally::errors::MediaError;
use frametally::stats::accumulate;
use frametally::stats::packet_selected;
use frametally::stats::DecodeOutcome;
use frametally::stats::PacketRecord;
use frametally::stats::Stats;

fn video_packet(dts: Option<i64>, keys: Vec<bool>) -> PacketRecord {
    PacketRecord { stream_index: 0, dts, outcome: DecodeOutcome::Frames(keys) }
}

fn audio_packet(dts: Option<i64>) -> PacketRecord {
    PacketRecord { stream_index: 1, dts, outcome: DecodeOutcome::Frames(vec![true, true]) }
}

#[test]
fn fresh_stats_are_zeroed() {
    let s = Stats::new();
    assert_eq!(s.frame_count, 0);
    assert_eq!(s.last_key_frame_index, 0);
    assert_eq!(s.highest_dts, None);
}

#[test]
fn record_frame_counts_and_snapshots_keys() {
    let mut s = Stats::new();
    s.record_frame(false);
    s.record_frame(false);
    assert_eq!(s.frame_count, 2);
    assert_eq!(s.last_key_frame_index, 0);
    s.record_frame(true);
    assert_eq!(s.frame_count, 3);
    assert_eq!(s.last_key_frame_index, 2);
    s.record_frame(false);
    assert_eq!(s.frame_count, 4);
    assert_eq!(s.last_key_frame_index, 2);
}

#[test]
fn record_packet_dts_keeps_the_maximum() {
    let mut s = Stats::new();
    s.record_packet_dts(None);
    assert_eq!(s.highest_dts, None);
    s.record_packet_dts(Some(10));
    assert_eq!(s.highest_dts, Some(10));
    s.record_packet_dts(Some(7));
    assert_eq!(s.highest_dts, Some(10));
    s.record_packet_dts(None);
    assert_eq!(s.highest_dts, Some(10));
    s.record_packet_dts(Some(12));
    assert_eq!(s.highest_dts, Some(12));
}

#[test]
fn record_packet_dts_accepts_a_negative_first_value() {
    let mut s = Stats::new();
    s.record_packet_dts(Some(-5));
    assert_eq!(s.highest_dts, Some(-5));
    s.record_packet_dts(Some(-9));
    assert_eq!(s.highest_dts, Some(-5));
}

#[test]
fn selection_compares_stream_indices() {
    assert!(packet_selected(3, 3));
    assert!(!packet_selected(2, 3));
}

#[test]
fn hundred_frames_with_three_keys() {
    // One decodable frame per packet; key frames at decode order 0, 40, 90.
    let mut packets = Vec::new();
    for i in 0..100i64 {
        let is_key = i == 0 || i == 40 || i == 90;
        packets.push(video_packet(Some(i), vec![is_key]));
    }
    let stats = accumulate(&packets, 0).unwrap();
    assert_eq!(stats.frame_count, 100);
    assert_eq!(stats.last_key_frame_index, 90);
    assert_eq!(stats.highest_dts, Some(99));
}

#[test]
fn other_streams_never_touch_the_statistics() {
    let only_video = vec![
        video_packet(Some(4), vec![true, false]),
        video_packet(Some(8), vec![false]),
    ];
    let mut with_audio = Vec::new();
    with_audio.push(audio_packet(Some(1_000)));
    with_audio.push(video_packet(Some(4), vec![true, false]));
    with_audio.push(audio_packet(Some(2_000)));
    with_audio.push(video_packet(Some(8), vec![false]));
    with_audio.push(audio_packet(None));
    let a = accumulate(&only_video, 0).unwrap();
    let b = accumulate(&with_audio, 0).unwrap();
    assert_eq!(a, b);
    assert_eq!(b.frame_count, 3);
    assert_eq!(b.last_key_frame_index, 0);
    assert_eq!(b.highest_dts, Some(8));
}

#[test]
fn a_failing_packet_of_another_stream_is_never_submitted() {
    let packets = vec![
        video_packet(Some(1), vec![true]),
        PacketRecord { stream_index: 1, dts: Some(9), outcome: DecodeOutcome::Failed },
        video_packet(Some(2), vec![false]),
    ];
    let stats = accumulate(&packets, 0).unwrap();
    assert_eq!(stats.frame_count, 2);
    assert_eq!(stats.highest_dts, Some(2));
}

#[test]
fn decode_failure_aborts_without_statistics() {
    let mut packets = Vec::new();
    for i in 0..100i64 {
        if i == 50 {
            packets.push(PacketRecord {
                stream_index: 0,
                dts: Some(i),
                outcome: DecodeOutcome::Failed,
            });
        } else {
            packets.push(video_packet(Some(i), vec![i == 0]));
        }
    }
    assert_eq!(accumulate(&packets, 0), Err(MediaError::Decode));
}

#[test]
fn packets_without_timestamps_leave_the_maximum_unset() {
    let packets = vec![video_packet(None, vec![true]), video_packet(None, vec![false])];
    let stats = accumulate(&packets, 0).unwrap();
    assert_eq!(stats.frame_count, 2);
    assert_eq!(stats.highest_dts, None);
}

#[test]
fn empty_pass_yields_initial_statistics() {
    let packets: Vec<PacketRecord> = Vec::new();
    let stats = accumulate(&packets, 0).unwrap();
    assert_eq!(stats, Stats::new());
}

#[test]
fn decoder_buffering_spreads_frames_across_packets() {
    // B-frame style buffering: the first packet yields nothing, a later one
    // drains two frames at once.
    let packets = vec![
        video_packet(Some(0), vec![]),
        video_packet(Some(2), vec![true, false]),
        video_packet(Some(1), vec![false]),
    ];
    let stats = accumulate(&packets, 0).unwrap();
    assert_eq!(stats.frame_count, 3);
    assert_eq!(stats.last_key_frame_index, 0);
    assert_eq!(stats.highest_dts, Some(2));
}
