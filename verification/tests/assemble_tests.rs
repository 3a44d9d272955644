use vodsegmenter::assemble::{assemble, manifest_filename, manifest_lines};
use vodsegmenter::errors::PipelineError;
use vodsegmenter::transcode::TranscodeOutput;

fn artifact(order: i32, locator: &str) -> TranscodeOutput {
    TranscodeOutput {
        job_id: String::from("job-1"),
        transcoded_segment: String::from(locator),
        segment_order: order,
        s3_bucket: String::from("bucket"),
        s3_prefix: String::from("prefix/"),
        object_name: String::from("video.mp4"),
    }
}

#[test]
fn assemble_reorders_out_of_order_arrivals() {
    let artifacts = vec![artifact(2, "c.ts"), artifact(0, "a.ts"), artifact(1, "b.ts")];
    let m = assemble(artifacts).unwrap();
    assert_eq!(m.segment_count, 3);
    assert_eq!(m.segment_locators, vec!["a.ts", "b.ts", "c.ts"]);
}

#[test]
fn assemble_accepts_already_sorted_input() {
    let artifacts = vec![artifact(0, "a.ts"), artifact(1, "b.ts")];
    let m = assemble(artifacts).unwrap();
    assert_eq!(m.segment_locators, vec!["a.ts", "b.ts"]);
}

#[test]
fn assemble_of_empty_set_is_empty() {
    let m = assemble(Vec::new()).unwrap();
    assert_eq!(m.segment_count, 0);
    assert_eq!(m.segment_locators, Vec::<String>::new());
}

#[test]
fn assemble_is_input_order_independent() {
    // Any shuffle of the same artifacts gives a byte-identical manifest.
    let a = vec![artifact(0, "a.ts"), artifact(1, "b.ts"), artifact(2, "c.ts"), artifact(3, "d.ts")];
    let b = vec![artifact(3, "d.ts"), artifact(1, "b.ts"), artifact(0, "a.ts"), artifact(2, "c.ts")];
    let c = vec![artifact(2, "c.ts"), artifact(3, "d.ts"), artifact(1, "b.ts"), artifact(0, "a.ts")];
    let ma = assemble(a).unwrap();
    let mb = assemble(b).unwrap();
    let mc = assemble(c).unwrap();
    assert_eq!(manifest_lines(&ma), manifest_lines(&mb));
    assert_eq!(manifest_lines(&ma), manifest_lines(&mc));
}

#[test]
fn assemble_rejects_gap_in_orders() {
    // Orders {0, 2, 3} out of an expected 0..=3: segment 1 was lost.
    let artifacts =
        vec![artifact(0, "a.ts"), artifact(2, "c.ts"), artifact(3, "d.ts")];
    assert_eq!(assemble(artifacts).unwrap_err(), PipelineError::CountMismatch);
}

#[test]
fn assemble_rejects_duplicate_order() {
    let artifacts = vec![
        artifact(0, "a.ts"),
        artifact(1, "b.ts"),
        artifact(1, "b2.ts"),
        artifact(3, "d.ts"),
    ];
    assert_eq!(assemble(artifacts).unwrap_err(), PipelineError::CountMismatch);
}

#[test]
fn assemble_rejects_negative_order() {
    let artifacts = vec![artifact(-1, "a.ts"), artifact(0, "b.ts")];
    assert_eq!(assemble(artifacts).unwrap_err(), PipelineError::CountMismatch);
}

#[test]
fn assemble_rejects_order_past_count() {
    let artifacts = vec![artifact(0, "a.ts"), artifact(4, "e.ts")];
    assert_eq!(assemble(artifacts).unwrap_err(), PipelineError::CountMismatch);
}

#[test]
fn manifest_text_lists_segments_in_order() {
    let artifacts = vec![artifact(1, "tmp_1.ts"), artifact(0, "tmp_0.ts")];
    let m = assemble(artifacts).unwrap();
    let lines = manifest_lines(&m);
    let expected = vec![
        "#EXTM3U",
        "#EXT-X-VERSION:3",
        "#EXT-X-TARGETDURATION:10",
        "#EXT-X-MEDIA-SEQUENCE:0",
        "#EXT-X-PLAYLIST-TYPE:VOD",
        "#EXTINF:20.0",
        "tmp_0.ts",
        "#EXTINF:20.0",
        "tmp_1.ts",
        "#EXT-X-ENDLIST",
    ];
    assert_eq!(lines, expected);
}

#[test]
fn manifest_text_of_empty_manifest_is_header_and_end_marker() {
    let m = assemble(Vec::new()).unwrap();
    let lines = manifest_lines(&m);
    assert_eq!(lines.len(), 6);
    assert_eq!(lines[5], "#EXT-X-ENDLIST");
}

#[test]
fn manifest_filename_replaces_extension() {
    assert_eq!(manifest_filename("video.mp4"), "video.m3u8");
}

#[test]
fn manifest_filename_cuts_at_first_dot() {
    assert_eq!(manifest_filename("archive.tar.gz"), "archive.m3u8");
}

#[test]
fn manifest_filename_without_extension_appends_suffix() {
    assert_eq!(manifest_filename("noext"), "noext.m3u8");
}
