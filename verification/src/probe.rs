//! Stream metadata returned by the external probing tool, reduced to the
//! plain values the planner reads: one descriptor per stream, carrying the
//! codec kind and the stream duration in whole milliseconds.
//!
//! The probing tool itself runs outside the library; whoever runs it hands
//! the parsed descriptor list in. Selecting the stream that defines the
//! video's duration — and failing hard when there is none — happens here.

use vstd::prelude::*;

use crate::errors::PipelineError;

verus! {

/// What kind of elementary stream a descriptor speaks of.
#[derive(Clone, Copy, Debug, PartialEq, Eq, Structural)]
pub enum CodecKind {
    Video,
    Audio,
    Other,
}

/// One stream of the probed container.
#[derive(Clone, Copy, Debug, PartialEq, Eq, Structural)]
pub struct StreamDescriptor {
    pub codec_type: CodecKind,
    /// Stream duration in whole milliseconds.
    pub duration_ms: u64,
}

/// Some stream of the container carries video.
pub open spec fn has_video_stream(s: Seq<StreamDescriptor>) -> bool {
    exists|j: int| 0 <= j < s.len() && (#[trigger] s[j]).codec_type is Video
}

/// Index of the first video stream, or `s.len()` where none occurs.
pub open spec fn first_video_index(s: Seq<StreamDescriptor>) -> int
    decreases s.len(),
{
    if s.len() == 0 {
        0
    } else if s[0].codec_type is Video {
        0
    } else {
        1 + first_video_index(s.subrange(1, s.len() as int))
    }
}

proof fn lemma_first_video_index_at(s: Seq<StreamDescriptor>, i: int)
    requires
        0 <= i <= s.len(),
        forall|k: int| 0 <= k < i ==> !((#[trigger] s[k]).codec_type is Video),
        i < s.len() ==> s[i].codec_type is Video,
    ensures
        first_video_index(s) == i,
    decreases s.len(),
{
    if s.len() == 0 {
    } else if s[0].codec_type is Video {
        assert(i == 0);
    } else {
        let tail = s.subrange(1, s.len() as int);
        assert(forall|k: int| 0 <= k < i - 1 ==> #[trigger] tail[k] == s[k + 1]);
        lemma_first_video_index_at(tail, i - 1);
    }
}

/// The duration that defines the job: the first video stream's, selected
/// in stream order. A container without any video stream is a hard
/// `InvalidInput` failure — never a silently empty answer.
pub fn video_duration_ms(streams: &Vec<StreamDescriptor>) -> (r: Result<u64, PipelineError>)
    ensures
        r is Ok <==> has_video_stream(streams@),
        r matches Ok(d) ==> ({
            let i = first_video_index(streams@);
            &&& 0 <= i < streams@.len()
            &&& streams@[i].codec_type is Video
            &&& d == streams@[i].duration_ms
        }),
        r matches Err(e) ==> e == PipelineError::InvalidInput,
{
    let n = streams.len();
    let mut i: usize = 0;
    while i < n
        invariant
            i <= n,
            n == streams@.len(),
            forall|k: int| 0 <= k < i ==> !((#[trigger] streams@[k]).codec_type is Video),
        decreases n - i,
    {
        let is_video = match streams[i].codec_type {
            CodecKind::Video => true,
            CodecKind::Audio => false,
            CodecKind::Other => false,
        };
        if is_video {
            proof {
                lemma_first_video_index_at(streams@, i as int);
            }
            return Ok(streams[i].duration_ms);
        }
        i = i + 1;
    }
    proof {
        assert(!has_video_stream(streams@)) by {
            if has_video_stream(streams@) {
                let j = choose|j: int|
                    0 <= j < streams@.len() && (#[trigger] streams@[j]).codec_type is Video;
                assert(false);
            }
        }
    }
    Err(PipelineError::InvalidInput)
}

} // verus!
