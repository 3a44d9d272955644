//! Segment planning: partition a video's duration into fixed-length
//! segments and assign them, in contiguous blocks, to a bounded number of
//! parallel work groups.
//!
//! All times are whole milliseconds. A plan for a video of `duration_ms`
//! cut into `segment_ms` slices holds `ceil(duration_ms / segment_ms)`
//! segments; group `g` holds the block of segments whose global orders lie
//! in `[g * capacity, (g + 1) * capacity)`, where `capacity` is
//! `ceil(total / group_count)`. Every segment, the last one included, keeps
//! the full nominal length: the encoder's own end-of-stream behaviour trims
//! the final slice, and the planner must not clamp it.

use vstd::arithmetic::div_mod::{
    lemma_fundamental_div_mod, lemma_fundamental_div_mod_converse, lemma_mod_bound,
};
use vstd::prelude::*;

use crate::errors::PipelineError;

verus! {

/// One bounded time slice of the source video. Immutable once created.
#[derive(Clone, Copy, Debug, PartialEq, Eq, Structural)]
pub struct SegmentSpec {
    /// Global position of this segment within the job: unique, gapless,
    /// and strictly increasing across the whole plan.
    pub order: u64,
    /// Where the slice begins, in milliseconds from the start of the video.
    pub start_ms: u64,
    /// Nominal slice length in milliseconds.
    pub duration_ms: u64,
}

/// An ordered sequence of parallel work groups, each an ordered run of
/// segments. Concatenating the groups in order yields the segments sorted
/// strictly by `order`, with orders exactly `0 .. total - 1`.
#[derive(Clone, Debug)]
pub struct SegmentPlan {
    pub groups: Vec<Vec<SegmentSpec>>,
}

impl View for SegmentPlan {
    type V = Seq<Seq<SegmentSpec>>;

    open spec fn view(&self) -> Seq<Seq<SegmentSpec>> {
        self.groups@.map_values(|g: Vec<SegmentSpec>| g@)
    }
}

/// Least integer at or above `a / b`, for `a >= 0`, `b >= 1`.
pub open spec fn ceil_div(a: int, b: int) -> int {
    (a + b - 1) / b
}

/// How many segments a plan for `duration_ms` of video holds when cut
/// into `segment_ms` slices.
pub open spec fn spec_total_segments(duration_ms: int, segment_ms: int) -> int {
    ceil_div(duration_ms, segment_ms)
}

/// Upper bound on the number of segments any one group holds.
pub open spec fn spec_group_capacity(total: int, group_count: int) -> int {
    ceil_div(total, group_count)
}

/// The segment that carries global order `order` in a plan with slice
/// length `segment_ms`. Meaningful when `segment_ms * order` fits in
/// `u64`, which holds for every order of a valid plan.
pub open spec fn segment_at(segment_ms: u64, order: int) -> SegmentSpec {
    SegmentSpec {
        order: order as u64,
        start_ms: (segment_ms as int * order) as u64,
        duration_ms: segment_ms,
    }
}

/// How many segments group `g` holds: the length of the slice of
/// `[0, total)` that falls inside the block `[g * cap, (g + 1) * cap)`.
pub open spec fn spec_group_len(total: int, cap: int, g: int) -> int {
    vstd::math::min(total, (g + 1) * cap) - vstd::math::min(total, g * cap)
}

/// Full correctness statement for a plan built from the given inputs:
/// `group_count` groups, and group `g` holds exactly the canonical
/// segments whose orders lie in `[g * cap, (g + 1) * cap) ∩ [0, total)`,
/// in increasing order.
pub open spec fn plan_matches(
    p: Seq<Seq<SegmentSpec>>,
    duration_ms: u64,
    segment_ms: u64,
    group_count: u64,
) -> bool {
    let total = spec_total_segments(duration_ms as int, segment_ms as int);
    let cap = spec_group_capacity(total, group_count as int);
    &&& p.len() == group_count
    &&& forall|g: int|
        0 <= g < p.len() ==> (#[trigger] p[g]).len() == spec_group_len(total, cap, g)
    &&& forall|g: int, k: int|
        0 <= g < p.len() && 0 <= k < p[g].len() ==> #[trigger] p[g][k] == segment_at(
            segment_ms,
            g * cap + k,
        )
}

/// Everything the planner needs of ceiling division, proved once:
/// the value computed from `/` and `%`, its bounds, and the two facts
/// that pin `ceil_div` as the least cover: `b * ceil_div(a, b)` reaches
/// `a`, and one multiple less falls short.
pub proof fn lemma_ceil_div(a: int, b: int)
    requires
        a >= 0,
        b >= 1,
    ensures
        ceil_div(a, b) == a / b + if a % b == 0 { 0int } else { 1int },
        0 <= ceil_div(a, b) <= a,
        b * ceil_div(a, b) >= a,
        a >= 1 ==> b * (ceil_div(a, b) - 1) < a,
        a >= 1 ==> ceil_div(a, b) >= 1,
{
    let q = a / b;
    let r = a % b;
    lemma_fundamental_div_mod(a, b);
    lemma_mod_bound(a, b);
    if r == 0 {
        lemma_fundamental_div_mod_converse(a + b - 1, b, q, b - 1);
        assert(ceil_div(a, b) == q);
        assert(q >= 0 && b * q == a);
        assert(q <= a && b * q >= a && (a >= 1 ==> b * (q - 1) < a && q >= 1))
            by (nonlinear_arith)
            requires
                b >= 1,
                q >= 0,
                b * q == a,
        ;
    } else {
        assert(a + b - 1 == (q + 1) * b + (r - 1)) by (nonlinear_arith)
            requires
                a == b * q + r,
        ;
        lemma_fundamental_div_mod_converse(a + b - 1, b, q + 1, r - 1);
        assert(ceil_div(a, b) == q + 1);
        assert(q >= 0 && a == b * q + r && 1 <= r < b);
        assert(q + 1 <= a && b * (q + 1) >= a && b * q < a) by (nonlinear_arith)
            requires
                b >= 1,
                q >= 0,
                a == b * q + r,
                1 <= r < b,
        ;
    }
}

/// Ceiling division on machine integers.
pub fn ceil_div_u64(a: u64, b: u64) -> (r: u64)
    requires
        b >= 1,
    ensures
        r == ceil_div(a as int, b as int),
{
    proof {
        lemma_ceil_div(a as int, b as int);
    }
    let q = a / b;
    if a % b == 0 {
        q
    } else {
        q + 1
    }
}

/// How many segments a plan for `duration_ms` of video holds when cut
/// into `segment_ms` slices.
pub fn total_segment_count(duration_ms: u64, segment_ms: u64) -> (total: u64)
    requires
        segment_ms >= 1,
    ensures
        total == spec_total_segments(duration_ms as int, segment_ms as int),
{
    ceil_div_u64(duration_ms, segment_ms)
}

/// The segment length a job uses: the requested value where the request
/// carries one, else the configured default.
pub fn effective_segment_ms(requested: Option<u64>, default_ms: u64) -> (r: u64)
    ensures
        r == match requested {
            Some(v) => v,
            None => default_ms,
        },
{
    match requested {
        Some(v) => v,
        None => default_ms,
    }
}

/// Build the segment plan for a video of `duration_ms`, cut into
/// `segment_ms` slices spread over `group_count` parallel groups.
///
/// Succeeds exactly on positive duration, positive slice length and at
/// least one group; anything else is an `InvalidInput`, never a silently
/// empty plan. On success the plan satisfies `plan_matches`: block
/// assignment, orders exactly `0 .. total - 1`, `start_ms` exactly
/// `segment_ms * order`, and every segment at full nominal length.
pub fn plan(duration_ms: u64, segment_ms: u64, group_count: u64) -> (r: Result<
    SegmentPlan,
    PipelineError,
>)
    ensures
        r is Ok <==> (duration_ms >= 1 && segment_ms >= 1 && group_count >= 1),
        r matches Ok(p) ==> plan_matches(p@, duration_ms, segment_ms, group_count),
        r matches Err(e) ==> e == PipelineError::InvalidInput,
{
    if duration_ms == 0 || segment_ms == 0 || group_count == 0 {
        return Err(PipelineError::InvalidInput);
    }
    let total = total_segment_count(duration_ms, segment_ms);
    let cap = ceil_div_u64(total, group_count);
    let ghost total_i = total as int;
    let ghost cap_i = cap as int;
    proof {
        lemma_ceil_div(duration_ms as int, segment_ms as int);
        lemma_ceil_div(total_i, group_count as int);
    }
    let mut groups: Vec<Vec<SegmentSpec>> = Vec::new();
    let mut next: u64 = 0;
    let mut g: u64 = 0;
    while g < group_count
        invariant
            g <= group_count,
            duration_ms >= 1,
            segment_ms >= 1,
            group_count >= 1,
            total_i == spec_total_segments(duration_ms as int, segment_ms as int),
            cap_i == spec_group_capacity(total_i, group_count as int),
            total == total_i,
            cap == cap_i,
            1 <= total_i <= duration_ms,
            cap_i >= 1,
            segment_ms as int * (total_i - 1) < duration_ms,
            group_count as int * cap_i >= total_i,
            groups@.len() == g,
            next == vstd::math::min(total_i, g as int * cap_i),
            forall|gi: int|
                0 <= gi < g ==> (#[trigger] groups@[gi])@.len() == spec_group_len(
                    total_i,
                    cap_i,
                    gi,
                ),
            forall|gi: int, k: int|
                0 <= gi < g && 0 <= k < groups@[gi]@.len() ==> #[trigger] groups@[gi]@[k]
                    == segment_at(segment_ms, gi * cap_i + k),
        decreases group_count - g,
    {
        let ghost next0 = next as int;
        let mut seg: Vec<SegmentSpec> = Vec::new();
        let mut j: u64 = 0;
        while j < cap && next < total
            invariant
                duration_ms >= 1,
                segment_ms >= 1,
                total == total_i,
                cap == cap_i,
                cap_i >= 1,
                segment_ms as int * (total_i - 1) < duration_ms,
                j <= cap_i,
                next0 == vstd::math::min(total_i, g as int * cap_i),
                next == next0 + j,
                next <= total,
                seg@.len() == j,
                forall|k: int|
                    0 <= k < j ==> #[trigger] seg@[k] == segment_at(segment_ms, next0 + k),
            decreases cap_i - j,
        {
            proof {
                assert(segment_ms as int * (next as int) <= segment_ms as int * (total_i - 1))
                    by (nonlinear_arith)
                    requires
                        segment_ms >= 1,
                        next as int <= total_i - 1,
                ;
            }
            let start = segment_ms * next;
            seg.push(SegmentSpec { order: next, start_ms: start, duration_ms: segment_ms });
            next = next + 1;
            j = j + 1;
        }
        proof {
            assert((g as int + 1) * cap_i == g as int * cap_i + cap_i) by (nonlinear_arith);
            assert(next == vstd::math::min(total_i, (g as int + 1) * cap_i));
            assert(seg@.len() == spec_group_len(total_i, cap_i, g as int));
            assert(forall|k: int|
                0 <= k < seg@.len() ==> #[trigger] seg@[k] == segment_at(
                    segment_ms,
                    g as int * cap_i + k,
                ));
        }
        groups.push(seg);
        g = g + 1;
    }
    let p = SegmentPlan { groups };
    proof {
        assert(forall|gi: int| 0 <= gi < p@.len() ==> #[trigger] p@[gi] == p.groups@[gi]@);
    }
    Ok(p)
}

/// Build the plan straight from the prober's stream descriptors, as the
/// controller does: the duration is the first video stream's, a container
/// without video is a hard `InvalidInput` failure — never a silently
/// empty plan — and so are a non-positive slice length or group count.
pub fn plan_for_streams(
    streams: &Vec<crate::probe::StreamDescriptor>,
    segment_ms: u64,
    group_count: u64,
) -> (r: Result<SegmentPlan, PipelineError>)
    ensures
        r is Ok <==> (crate::probe::has_video_stream(streams@) && streams@[
            crate::probe::first_video_index(streams@)
        ].duration_ms >= 1 && segment_ms >= 1 && group_count >= 1),
        r matches Ok(p) ==> plan_matches(
            p@,
            streams@[crate::probe::first_video_index(streams@)].duration_ms,
            segment_ms,
            group_count,
        ),
        r matches Err(e) ==> e == PipelineError::InvalidInput,
{
    let duration_ms = match crate::probe::video_duration_ms(streams) {
        Ok(d) => d,
        Err(e) => {
            return Err(e);
        },
    };
    plan(duration_ms, segment_ms, group_count)
}

/// The segments of a valid plan, flattened in group order, are exactly the
/// canonical segments in order: the plan holds
/// `ceil(duration_ms / segment_ms)` segments in all, their orders are
/// exactly `0 .. total - 1` with no gap and no repeat, segment `i` starts
/// exactly at `segment_ms * i`, and every segment keeps the full nominal
/// length.
pub proof fn lemma_plan_flatten(
    p: Seq<Seq<SegmentSpec>>,
    duration_ms: u64,
    segment_ms: u64,
    group_count: u64,
)
    requires
        duration_ms >= 1,
        segment_ms >= 1,
        group_count >= 1,
        plan_matches(p, duration_ms, segment_ms, group_count),
    ensures
        ({
            let total = spec_total_segments(duration_ms as int, segment_ms as int);
            let flat = p.flatten();
            &&& flat == Seq::new(total as nat, |i: int| segment_at(segment_ms, i))
            &&& flat.len() == total
            &&& forall|i: int| 0 <= i < flat.len() ==> (#[trigger] flat[i]).order == i
            &&& forall|i: int|
                0 <= i < flat.len() ==> (#[trigger] flat[i]).start_ms == segment_ms as int * i
            &&& forall|i: int|
                0 <= i < flat.len() ==> (#[trigger] flat[i]).duration_ms == segment_ms
        }),
{
    let total = spec_total_segments(duration_ms as int, segment_ms as int);
    let cap = spec_group_capacity(total, group_count as int);
    lemma_ceil_div(duration_ms as int, segment_ms as int);
    lemma_ceil_div(total, group_count as int);
    lemma_plan_flatten_from(p, duration_ms, segment_ms, group_count, 0);
    assert(p.skip(0) =~= p);
    let flat = p.flatten();
    let canon = Seq::new(total as nat, |i: int| segment_at(segment_ms, i));
    assert(vstd::math::min(total, 0 * cap) == 0);
    assert(flat =~= canon);
    assert forall|i: int| 0 <= i < flat.len() implies (#[trigger] flat[i]).order == i && flat[
        i
    ].start_ms == segment_ms as int * i && flat[i].duration_ms == segment_ms by {
        assert(flat[i] == segment_at(segment_ms, i));
        assert(segment_ms as int * i <= segment_ms as int * (total - 1)) by (nonlinear_arith)
            requires
                segment_ms >= 1,
                i <= total - 1,
        ;
        assert(segment_ms as int * i >= 0) by (nonlinear_arith)
            requires
                segment_ms >= 1,
                i >= 0,
        ;
    }
}

/// Flattening the groups from index `g` on yields the canonical segments
/// whose orders lie in `[min(total, g * cap), total)`, in order.
proof fn lemma_plan_flatten_from(
    p: Seq<Seq<SegmentSpec>>,
    duration_ms: u64,
    segment_ms: u64,
    group_count: u64,
    g: int,
)
    requires
        duration_ms >= 1,
        segment_ms >= 1,
        group_count >= 1,
        plan_matches(p, duration_ms, segment_ms, group_count),
        0 <= g <= p.len(),
    ensures
        ({
            let total = spec_total_segments(duration_ms as int, segment_ms as int);
            let cap = spec_group_capacity(total, group_count as int);
            let lo = vstd::math::min(total, g * cap);
            p.skip(g).flatten() == Seq::new((total - lo) as nat, |i: int| segment_at(
                segment_ms,
                lo + i,
            ))
        }),
    decreases p.len() - g,
{
    let total = spec_total_segments(duration_ms as int, segment_ms as int);
    let cap = spec_group_capacity(total, group_count as int);
    lemma_ceil_div(duration_ms as int, segment_ms as int);
    lemma_ceil_div(total, group_count as int);
    let lo = vstd::math::min(total, g * cap);
    if g == p.len() {
        assert(group_count as int * cap >= total);
        assert(g * cap >= total) by (nonlinear_arith)
            requires
                g == group_count as int,
                group_count as int * cap >= total,
        ;
        assert(p.skip(g) =~= Seq::<Seq<SegmentSpec>>::empty());
        assert(p.skip(g).flatten() =~= Seq::new((total - lo) as nat, |i: int| segment_at(
            segment_ms,
            lo + i,
        )));
    } else {
        lemma_plan_flatten_from(p, duration_ms, segment_ms, group_count, g + 1);
        let hi = vstd::math::min(total, (g + 1) * cap);
        assert((g + 1) * cap == g * cap + cap) by (nonlinear_arith);
        assert(lo <= hi <= total);
        let tail = p.skip(g);
        assert(tail.len() > 0);
        assert(tail.first() == p[g]);
        assert(tail.drop_first() =~= p.skip(g + 1));
        assert(tail.flatten() == p[g].add(p.skip(g + 1).flatten()));
        assert(p[g].len() == hi - lo);
        let rest = Seq::new((total - hi) as nat, |i: int| segment_at(segment_ms, hi + i));
        let whole = Seq::new((total - lo) as nat, |i: int| segment_at(segment_ms, lo + i));
        assert forall|i: int| 0 <= i < total - lo implies p[g].add(rest)[i] == whole[i] by {
            if i < hi - lo {
                assert(p[g][i] == segment_at(segment_ms, g * cap + i));
                assert(lo + i < total);
                assert(lo == g * cap);
            } else {
                assert(p[g].add(rest)[i] == rest[i - (hi - lo)]);
            }
        }
        assert(p[g].add(rest) =~= whole);
    }
}

/// Group shapes in a valid plan: no group exceeds the capacity
/// `ceil(total / group_count)`; once the segments are exhausted every
/// later group is empty; and every group that starts before the segments
/// run out is non-empty — so exactly the leading groups needed to hold
/// all segments are non-empty.
pub proof fn lemma_plan_group_shape(
    p: Seq<Seq<SegmentSpec>>,
    duration_ms: u64,
    segment_ms: u64,
    group_count: u64,
)
    requires
        duration_ms >= 1,
        segment_ms >= 1,
        group_count >= 1,
        plan_matches(p, duration_ms, segment_ms, group_count),
    ensures
        ({
            let total = spec_total_segments(duration_ms as int, segment_ms as int);
            let cap = spec_group_capacity(total, group_count as int);
            &&& forall|g: int| 0 <= g < p.len() ==> (#[trigger] p[g]).len() <= cap
            &&& forall|g: int| 0 <= g < p.len() && g * cap >= total ==> (#[trigger] p[g]).len() == 0
            &&& forall|g: int| 0 <= g < p.len() && g * cap < total ==> (#[trigger] p[g]).len() >= 1
        }),
{
    let total = spec_total_segments(duration_ms as int, segment_ms as int);
    let cap = spec_group_capacity(total, group_count as int);
    lemma_ceil_div(duration_ms as int, segment_ms as int);
    lemma_ceil_div(total, group_count as int);
    assert forall|g: int| 0 <= g < p.len() implies (#[trigger] p[g]).len() <= cap && (g * cap
        >= total ==> p[g].len() == 0) && (g * cap < total ==> p[g].len() >= 1) by {
        assert((g + 1) * cap == g * cap + cap) by (nonlinear_arith);
        assert(p[g].len() == spec_group_len(total, cap, g));
    }
}

} // verus!
