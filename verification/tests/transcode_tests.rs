use vodsegmenter::transcode::{
    coarse_seek_ms, extraction_args, fine_seek_ms, format_seconds_ms, repackage_args,
    scratch_path, segment_mp4_filename, segment_ts_filename, storage_key, transcode_artifact,
    u64_to_dec,
};

#[test]
fn coarse_seek_lands_one_second_early() {
    // A segment starting at 5 s gets a coarse seek to 4 s.
    assert_eq!(coarse_seek_ms(5_000), 4_000);
    assert_eq!(fine_seek_ms(5_000), 1_000);
}

#[test]
fn coarse_seek_clamps_to_zero_at_video_head() {
    assert_eq!(coarse_seek_ms(0), 0);
    assert_eq!(fine_seek_ms(0), 0);
}

#[test]
fn seek_compensation_is_exact_under_one_second() {
    assert_eq!(coarse_seek_ms(500), 0);
    assert_eq!(fine_seek_ms(500), 500);
    assert_eq!(coarse_seek_ms(1_000), 0);
    assert_eq!(fine_seek_ms(1_000), 1_000);
    assert_eq!(coarse_seek_ms(1_001), 1);
    assert_eq!(fine_seek_ms(1_001), 1_000);
}

#[test]
fn decimal_rendering() {
    assert_eq!(u64_to_dec(0), "0");
    assert_eq!(u64_to_dec(7), "7");
    assert_eq!(u64_to_dec(10), "10");
    assert_eq!(u64_to_dec(12_345), "12345");
    assert_eq!(u64_to_dec(u64::MAX), "18446744073709551615");
}

#[test]
fn seconds_rendering_drops_whole_second_fraction() {
    assert_eq!(format_seconds_ms(4_000), "4");
    assert_eq!(format_seconds_ms(0), "0");
    assert_eq!(format_seconds_ms(90_000), "90");
}

#[test]
fn seconds_rendering_pads_milliseconds() {
    assert_eq!(format_seconds_ms(4_500), "4.500");
    assert_eq!(format_seconds_ms(1_234), "1.234");
    assert_eq!(format_seconds_ms(95), "0.095");
    assert_eq!(format_seconds_ms(5), "0.005");
}

#[test]
fn extraction_args_for_mid_video_segment() {
    let args = extraction_args("https://example/video", 5_000, 10_000, "/tmp/tmp_0.mp4");
    let expected = vec![
        "-v",
        "error",
        "-ss",
        "4",
        "-i",
        "https://example/video",
        "-ss",
        "1",
        "-t",
        "10",
        "-vf",
        "scale=-1:720",
        "-x264opts",
        "stitchable",
        "-c:a",
        "copy",
        "-y",
        "/tmp/tmp_0.mp4",
    ];
    assert_eq!(args, expected);
}

#[test]
fn extraction_args_at_video_head_skip_compensation() {
    // startSeconds = 0: the coarse target is clamped to zero and the fine
    // seek shrinks to zero, so the cut still lands exactly at the start.
    let args = extraction_args("u", 0, 10_000, "o");
    assert_eq!(args[3], "0");
    assert_eq!(args[7], "0");
}

#[test]
fn repackage_args_copy_streams_with_annexb_filter() {
    let args = repackage_args("/tmp/tmp_3.mp4", "/tmp/tmp_3.ts");
    let expected = vec![
        "-y",
        "-i",
        "/tmp/tmp_3.mp4",
        "-vcodec",
        "copy",
        "-acodec",
        "copy",
        "-bsf:v",
        "h264_mp4toannexb",
        "/tmp/tmp_3.ts",
    ];
    assert_eq!(args, expected);
}

#[test]
fn scratch_and_storage_naming() {
    assert_eq!(segment_mp4_filename(3), "tmp_3.mp4");
    assert_eq!(segment_ts_filename(12), "tmp_12.ts");
    assert_eq!(scratch_path("tmp_3.mp4"), "/tmp/tmp_3.mp4");
    assert_eq!(storage_key("job-1", "tmp_12.ts"), "output/job-1/tmp_12.ts");
}

#[test]
fn artifact_carries_passthrough_fields() {
    let a = transcode_artifact("job-1", 4, String::from("tmp_4.ts"), "bucket", "prefix/", "v.mp4");
    assert_eq!(a.job_id, "job-1");
    assert_eq!(a.transcoded_segment, "tmp_4.ts");
    assert_eq!(a.segment_order, 4);
    assert_eq!(a.s3_bucket, "bucket");
    assert_eq!(a.s3_prefix, "prefix/");
    assert_eq!(a.object_name, "v.mp4");
}
