use vodsegmenter::probe::{video_duration_ms, CodecKind, StreamDescriptor};
use vodsegmenter::trigger::{decoded_object_parts, split_object_key};

#[test]
fn split_keeps_trailing_slash_on_prefix() {
    let (prefix, name) = split_object_key("input/videos/clip.mp4").unwrap();
    assert_eq!(prefix, "input/videos/");
    assert_eq!(name, "clip.mp4");
}

#[test]
fn split_at_last_slash_only() {
    let (prefix, name) = split_object_key("a/b/c/d").unwrap();
    assert_eq!(prefix, "a/b/c/");
    assert_eq!(name, "d");
}

#[test]
fn split_without_slash_is_none() {
    assert!(split_object_key("clip.mp4").is_none());
}

#[test]
fn split_of_empty_key_is_none() {
    assert!(split_object_key("").is_none());
}

#[test]
fn decoded_parts_decode_before_splitting() {
    // %2F decodes to '/', '+' to ' ': the decoded key, not the raw one,
    // is what gets split.
    let (prefix, name) = decoded_object_parts("folder%2Fsub/video+file.mp4").unwrap();
    assert_eq!(prefix, "folder/sub/");
    assert_eq!(name, "video file.mp4");
}

#[test]
fn decoded_parts_without_slash_is_none() {
    assert!(decoded_object_parts("video+file.mp4").is_none());
}

#[test]
fn first_video_stream_wins() {
    let streams = vec![
        StreamDescriptor { codec_type: CodecKind::Audio, duration_ms: 1 },
        StreamDescriptor { codec_type: CodecKind::Video, duration_ms: 95_433 },
        StreamDescriptor { codec_type: CodecKind::Video, duration_ms: 2 },
    ];
    assert_eq!(video_duration_ms(&streams).unwrap(), 95_433);
}

#[test]
fn no_video_stream_is_invalid_input() {
    let streams = vec![StreamDescriptor { codec_type: CodecKind::Audio, duration_ms: 1 }];
    assert!(video_duration_ms(&streams).is_err());
    assert!(video_duration_ms(&Vec::new()).is_err());
}
