use vodsegmenter::errors::PipelineError;
use vodsegmenter::planner::{effective_segment_ms, plan, plan_for_streams, total_segment_count};
use vodsegmenter::probe::{CodecKind, StreamDescriptor};

#[test]
fn ninety_five_seconds_in_three_groups() {
    // 95 s of video, 10 s slices, 3 parallel groups.
    let p = plan(95_000, 10_000, 3).unwrap();
    assert_eq!(p.groups.len(), 3);
    let sizes: Vec<usize> = p.groups.iter().map(|g| g.len()).collect();
    assert_eq!(sizes, vec![4, 4, 2]);
    let orders: Vec<u64> = p.groups.iter().flatten().map(|s| s.order).collect();
    assert_eq!(orders, (0..10).collect::<Vec<u64>>());
    let starts: Vec<u64> = p.groups.iter().flatten().map(|s| s.start_ms).collect();
    let expected: Vec<u64> = (0..10).map(|i| 10_000 * i).collect();
    assert_eq!(starts, expected);
    for seg in p.groups.iter().flatten() {
        assert_eq!(seg.duration_ms, 10_000);
    }
}

#[test]
fn twenty_seconds_in_five_groups() {
    // 20 s of video, 10 s slices, 5 groups: only the first two are used.
    let p = plan(20_000, 10_000, 5).unwrap();
    assert_eq!(p.groups.len(), 5);
    let sizes: Vec<usize> = p.groups.iter().map(|g| g.len()).collect();
    assert_eq!(sizes, vec![1, 1, 0, 0, 0]);
}

#[test]
fn segment_sum_matches_ceiling() {
    let p = plan(100, 7, 4).unwrap();
    let total: usize = p.groups.iter().map(|g| g.len()).sum();
    assert_eq!(total, 15); // ceil(100 / 7)
    let sizes: Vec<usize> = p.groups.iter().map(|g| g.len()).collect();
    assert_eq!(sizes, vec![4, 4, 4, 3]);
}

#[test]
fn final_segment_keeps_nominal_length() {
    // 95 s cut into 10 s slices: the tenth segment still claims 10 s.
    let p = plan(95_000, 10_000, 1).unwrap();
    let last = p.groups[0].last().unwrap();
    assert_eq!(last.order, 9);
    assert_eq!(last.start_ms, 90_000);
    assert_eq!(last.duration_ms, 10_000);
}

#[test]
fn orders_unique_and_gapless_across_groups() {
    let p = plan(123_456, 7_890, 4).unwrap();
    let mut orders: Vec<u64> = p.groups.iter().flatten().map(|s| s.order).collect();
    let sorted = orders.clone();
    orders.sort();
    assert_eq!(orders, sorted); // already strictly ascending
    assert_eq!(orders, (0..orders.len() as u64).collect::<Vec<u64>>());
}

#[test]
fn zero_duration_is_invalid_input() {
    assert_eq!(plan(0, 10_000, 3).unwrap_err(), PipelineError::InvalidInput);
}

#[test]
fn zero_segment_length_is_invalid_input() {
    assert_eq!(plan(95_000, 0, 3).unwrap_err(), PipelineError::InvalidInput);
}

#[test]
fn zero_group_count_is_invalid_input() {
    assert_eq!(plan(95_000, 10_000, 0).unwrap_err(), PipelineError::InvalidInput);
}

#[test]
fn total_segment_count_rounds_up() {
    assert_eq!(total_segment_count(95_000, 10_000), 10);
    assert_eq!(total_segment_count(90_000, 10_000), 9);
    assert_eq!(total_segment_count(90_001, 10_000), 10);
    assert_eq!(total_segment_count(1, 10_000), 1);
}

#[test]
fn segment_time_default_applies_only_when_absent() {
    assert_eq!(effective_segment_ms(Some(5_000), 10_000), 5_000);
    assert_eq!(effective_segment_ms(None, 10_000), 10_000);
}

#[test]
fn plan_from_streams_uses_first_video_stream() {
    let streams = vec![
        StreamDescriptor { codec_type: CodecKind::Audio, duration_ms: 7 },
        StreamDescriptor { codec_type: CodecKind::Video, duration_ms: 95_000 },
        StreamDescriptor { codec_type: CodecKind::Video, duration_ms: 1 },
    ];
    let p = plan_for_streams(&streams, 10_000, 3).unwrap();
    let total: usize = p.groups.iter().map(|g| g.len()).sum();
    assert_eq!(total, 10);
}

#[test]
fn plan_without_video_stream_is_invalid_input() {
    let streams = vec![
        StreamDescriptor { codec_type: CodecKind::Audio, duration_ms: 95_000 },
        StreamDescriptor { codec_type: CodecKind::Other, duration_ms: 95_000 },
    ];
    assert_eq!(plan_for_streams(&streams, 10_000, 3).unwrap_err(), PipelineError::InvalidInput);
}
