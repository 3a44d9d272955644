//! Manifest assembly: the fan-in step. Transcoded segment artifacts arrive
//! in no guaranteed order; the assembler re-establishes strict segment
//! order from the explicit `segment_order` key alone, refuses any set whose
//! orders are not exactly `0 .. count - 1`, and emits the ordered playlist
//! manifest.

use vstd::prelude::*;
use vstd::string::StringExecFns;

use crate::errors::PipelineError;
use crate::transcode::TranscodeOutput;

verus! {

/// The ordered result of fan-in: one locator per segment, sorted by
/// order, plus the segment count.
#[derive(Clone, Debug)]
pub struct Manifest {
    /// `segment_locators[i]` is the locator of the segment with order `i`.
    pub segment_locators: Vec<String>,
    pub segment_count: usize,
}

/// Every artifact's order lies in `[0, len)`.
pub open spec fn orders_in_range(s: Seq<TranscodeOutput>) -> bool {
    forall|j: int| 0 <= j < s.len() ==> 0 <= (#[trigger] s[j]).segment_order < s.len()
}

/// No two artifacts carry the same order.
pub open spec fn orders_distinct(s: Seq<TranscodeOutput>) -> bool {
    forall|j: int, k: int|
        0 <= j < k < s.len() ==> (#[trigger] s[j]).segment_order != (#[trigger] s[k]).segment_order
}

/// The artifact set is whole: orders are exactly `0 .. len - 1`, no gap
/// and no duplicate. (In range and distinct forces every order to occur.)
pub open spec fn complete_artifact_set(s: Seq<TranscodeOutput>) -> bool {
    orders_in_range(s) && orders_distinct(s)
}

/// Position `i` of `locs` carries the locator of an input artifact whose
/// order is `i`.
pub open spec fn has_locator_for(locs: Seq<String>, s: Seq<TranscodeOutput>, i: int) -> bool {
    exists|j: int|
        0 <= j < s.len() && (#[trigger] s[j]).segment_order == i && locs[i]@ == s[
            j
        ].transcoded_segment@
}

/// `locs` lists, for every order in turn, the locator of the input
/// artifact that carries that order.
pub open spec fn is_manifest_of(locs: Seq<String>, s: Seq<TranscodeOutput>) -> bool {
    &&& locs.len() == s.len()
    &&& forall|i: int| 0 <= i < locs.len() ==> #[trigger] has_locator_for(locs, s, i)
}

/// How many filled positions a slot sequence holds.
spec fn count_some(s: Seq<Option<TranscodeOutput>>) -> int
    decreases s.len(),
{
    if s.len() == 0 {
        0
    } else {
        count_some(s.drop_last()) + if s.last() is Some {
            1int
        } else {
            0int
        }
    }
}

proof fn lemma_count_some_all_none(s: Seq<Option<TranscodeOutput>>)
    requires
        forall|i: int| 0 <= i < s.len() ==> (#[trigger] s[i]) is None,
    ensures
        count_some(s) == 0,
    decreases s.len(),
{
    if s.len() > 0 {
        lemma_count_some_all_none(s.drop_last());
    }
}

proof fn lemma_count_some_update(s: Seq<Option<TranscodeOutput>>, i: int, v: TranscodeOutput)
    requires
        0 <= i < s.len(),
        s[i] is None,
    ensures
        count_some(s.update(i, Some(v))) == count_some(s) + 1,
    decreases s.len(),
{
    let su = s.update(i, Some(v));
    if i == s.len() - 1 {
        assert(su.drop_last() =~= s.drop_last());
    } else {
        lemma_count_some_update(s.drop_last(), i, v);
        assert(su.drop_last() =~= s.drop_last().update(i, Some(v)));
        assert(su.last() == s.last());
    }
}

proof fn lemma_count_some_le_len(s: Seq<Option<TranscodeOutput>>)
    ensures
        count_some(s) <= s.len(),
    decreases s.len(),
{
    if s.len() > 0 {
        lemma_count_some_le_len(s.drop_last());
    }
}

proof fn lemma_count_some_full(s: Seq<Option<TranscodeOutput>>)
    requires
        count_some(s) == s.len(),
    ensures
        forall|i: int| 0 <= i < s.len() ==> (#[trigger] s[i]) is Some,
    decreases s.len(),
{
    if s.len() > 0 {
        lemma_count_some_le_len(s.drop_last());
        if s.last() is None {
            assert(count_some(s) == count_some(s.drop_last()));
            assert(false);
        }
        lemma_count_some_full(s.drop_last());
        assert forall|i: int| 0 <= i < s.len() implies (#[trigger] s[i]) is Some by {
            if i < s.len() - 1 {
                assert(s.drop_last()[i] is Some);
                assert(s[i] == s.drop_last()[i]);
            } else {
                assert(s[i] == s.last());
            }
        }
    }
}

/// Reassemble the fan-in artifact set into strict segment order.
///
/// The input's enumeration order carries no meaning — fan-in from
/// parallel execution does not guarantee arrival order — so the result is
/// determined by the `segment_order` keys alone. Succeeds exactly when
/// the orders are `0 .. len - 1` with no gap and no duplicate; any other
/// set means a lost or duplicated parallel work unit and fails with
/// `CountMismatch`, never a silently wrong playlist.
#[verifier::loop_isolation(false)]
pub fn assemble(artifacts: Vec<TranscodeOutput>) -> (r: Result<Manifest, PipelineError>)
    ensures
        r is Ok <==> complete_artifact_set(artifacts@),
        r matches Ok(m) ==> m.segment_count == artifacts@.len() && is_manifest_of(
            m.segment_locators@,
            artifacts@,
        ),
        r matches Err(e) ==> e == PipelineError::CountMismatch,
{
    let ghost arts = artifacts@;
    let n = artifacts.len();
    let mut slots: Vec<Option<TranscodeOutput>> = Vec::new();
    let mut i: usize = 0;
    while i < n
        invariant
            i <= n,
            slots@.len() == i,
            forall|t: int| 0 <= t < i ==> (#[trigger] slots@[t]) is None,
        decreases n - i,
    {
        slots.push(None);
        i = i + 1;
    }
    proof {
        lemma_count_some_all_none(slots@);
        assert(arts.subrange(0, arts.len() as int) =~= arts);
    }
    let mut rest = artifacts;
    while rest.len() > 0
        invariant
            n == arts.len(),
            slots@.len() == n,
            rest@.len() <= n,
            rest@ == arts.subrange(0, rest@.len() as int),
            count_some(slots@) == n - rest@.len(),
            forall|j: int|
                rest@.len() <= j < n ==> 0 <= (#[trigger] arts[j]).segment_order < n && slots@[
                    arts[j].segment_order as int
                ] == Some(arts[j]),
            forall|t: int|
                0 <= t < n && (#[trigger] slots@[t]) is Some ==> exists|j: int|
                    rest@.len() <= j < n && arts[j] == slots@[t].unwrap() && arts[j].segment_order
                        == t,
            forall|j: int, k: int|
                rest@.len() <= j < k < n ==> (#[trigger] arts[j]).segment_order
                    != (#[trigger] arts[k]).segment_order,
        decreases rest@.len(),
    {
        let ghost rl0 = rest@.len() as int;
        let a = match rest.pop() {
            Some(a) => a,
            None => unreached(),
        };
        let ghost jj = rl0 - 1;
        proof {
            assert(rest@ =~= arts.subrange(0, jj));
            assert(a == arts[jj]);
        }
        let order = a.segment_order;
        if order < 0 || order as usize >= n {
            proof {
                assert(!orders_in_range(arts)) by {
                    if orders_in_range(arts) {
                        assert(0 <= (arts[jj]).segment_order < arts.len());
                        assert(false);
                    }
                }
            }
            return Err(PipelineError::CountMismatch);
        }
        let order_usize = order as usize;
        if slots[order_usize].is_some() {
            proof {
                assert(exists|j: int|
                    rl0 <= j < n && arts[j] == slots@[order as int].unwrap() && arts[
                        j
                    ].segment_order == order as int);
                let j2 = choose|j: int|
                    rl0 <= j < n && arts[j] == slots@[order as int].unwrap() && arts[
                        j
                    ].segment_order == order as int;
                assert(arts[jj].segment_order == arts[j2].segment_order);
                assert(jj < j2);
                assert(!orders_distinct(arts)) by {
                    if orders_distinct(arts) {
                        assert((arts[jj]).segment_order != (arts[j2]).segment_order);
                        assert(false);
                    }
                }
            }
            return Err(PipelineError::CountMismatch);
        }
        let ghost slots0 = slots@;
        proof {
            lemma_count_some_update(slots0, order as int, a);
        }
        let _vacated = slots.remove(order_usize);
        slots.insert(order_usize, Some(a));
        proof {
            assert(slots@ =~= slots0.update(order as int, Some(a)));
            assert forall|j: int| jj <= j < n implies 0 <= (#[trigger] arts[j]).segment_order < n
                && slots@[arts[j].segment_order as int] == Some(arts[j]) by {
                if j > jj {
                    assert(slots0[arts[j].segment_order as int] == Some(arts[j]));
                    assert(arts[j].segment_order != order as int);
                }
            }
            assert forall|t: int| 0 <= t < n && (#[trigger] slots@[t]) is Some implies exists|
                j: int,
            | jj <= j < n && arts[j] == slots@[t].unwrap() && arts[j].segment_order == t by {
                if t == order as int {
                    assert(jj <= jj < n && arts[jj] == slots@[t].unwrap() && arts[
                        jj
                    ].segment_order == t);
                } else {
                    assert(slots0[t] is Some);
                    let j0 = choose|j: int|
                        rl0 <= j < n && arts[j] == slots0[t].unwrap() && arts[j].segment_order
                            == t;
                    assert(jj <= j0 < n && arts[j0] == slots@[t].unwrap() && arts[
                        j0
                    ].segment_order == t);
                }
            }
            assert forall|j: int, k: int| jj <= j < k < n implies (
            #[trigger] arts[j]).segment_order != (#[trigger] arts[k]).segment_order by {
                if j == jj {
                    assert(slots0[arts[k].segment_order as int] == Some(arts[k]));
                    assert(arts[k].segment_order != order as int);
                }
            }
        }
    }
    proof {
        assert(count_some(slots@) == n);
        lemma_count_some_full(slots@);
        assert(orders_in_range(arts));
        assert(orders_distinct(arts));
    }
    let ghost slots_full = slots@;
    let mut locators: Vec<String> = Vec::new();
    let mut t: usize = 0;
    while t < n
        invariant
            t <= n,
            n == arts.len(),
            slots_full.len() == n,
            slots@.len() == n - t,
            forall|u: int| 0 <= u < n - t ==> #[trigger] slots@[u] == slots_full[u + t],
            forall|u: int| 0 <= u < n ==> (#[trigger] slots_full[u]) is Some,
            forall|u: int|
                0 <= u < n ==> exists|j: int|
                    0 <= j < n && arts[j] == (#[trigger] slots_full[u]).unwrap() && arts[
                        j
                    ].segment_order == u,
            locators@.len() == t,
            forall|u: int|
                0 <= u < t ==> (#[trigger] locators@[u])@
                    == slots_full[u].unwrap().transcoded_segment@,
        decreases n - t,
    {
        let s = slots.remove(0);
        match s {
            Some(a) => {
                locators.push(a.transcoded_segment);
            },
            None => {
                proof {
                    assert(false);
                }
            },
        }
        t = t + 1;
    }
    let m = Manifest { segment_locators: locators, segment_count: n };
    proof {
        assert forall|i: int| 0 <= i < m.segment_locators@.len() implies #[trigger] has_locator_for(
            m.segment_locators@,
            arts,
            i,
        ) by {
            let j = choose|j: int|
                0 <= j < n && arts[j] == slots_full[i].unwrap() && arts[j].segment_order == i;
            assert(0 <= j < arts.len() && (arts[j]).segment_order == i && m.segment_locators@[i]@
                == arts[j].transcoded_segment@);
        }
        assert(is_manifest_of(m.segment_locators@, arts));
    }
    Ok(m)
}

/// The duration-tag line that precedes each locator in the playlist.
pub open spec fn extinf_line() -> Seq<char> {
    "#EXTINF:20.0"@
}

/// The fixed five-line playlist header: format tag, version,
/// target-duration hint, sequence start, VOD type marker.
pub open spec fn manifest_header() -> Seq<Seq<char>> {
    seq![
        "#EXTM3U"@,
        "#EXT-X-VERSION:3"@,
        "#EXT-X-TARGETDURATION:10"@,
        "#EXT-X-MEDIA-SEQUENCE:0"@,
        "#EXT-X-PLAYLIST-TYPE:VOD"@,
    ]
}

/// The per-segment body of the playlist: for each locator in order, a
/// duration tag line and the locator's own line.
pub open spec fn manifest_entries(locs: Seq<Seq<char>>) -> Seq<Seq<char>>
    decreases locs.len(),
{
    if locs.len() == 0 {
        Seq::empty()
    } else {
        manifest_entries(locs.drop_last()).push(extinf_line()).push(locs.last())
    }
}

/// The whole playlist, line by line: header, one entry pair per segment
/// in ascending order, end marker.
pub open spec fn manifest_text(locs: Seq<Seq<char>>) -> Seq<Seq<char>> {
    manifest_header() + manifest_entries(locs) + seq!["#EXT-X-ENDLIST"@]
}

/// The views of a line list.
pub open spec fn line_views(lines: Seq<String>) -> Seq<Seq<char>> {
    lines.map_values(|l: String| l@)
}

/// Render an assembled manifest as playlist lines. The text is exactly
/// `manifest_text` of the locators: a fixed header, a duration tag and a
/// locator line per segment in ascending order, and the end marker — so
/// two manifests with the same locators render character for character
/// alike.
#[verifier::loop_isolation(false)]
pub fn manifest_lines(m: &Manifest) -> (lines: Vec<String>)
    ensures
        line_views(lines@) == manifest_text(line_views(m.segment_locators@)),
{
    let ghost locs_v = line_views(m.segment_locators@);
    let n = m.segment_locators.len();
    let mut lines: Vec<String> = Vec::new();
    lines.push(String::from_str("#EXTM3U"));
    lines.push(String::from_str("#EXT-X-VERSION:3"));
    lines.push(String::from_str("#EXT-X-TARGETDURATION:10"));
    lines.push(String::from_str("#EXT-X-MEDIA-SEQUENCE:0"));
    lines.push(String::from_str("#EXT-X-PLAYLIST-TYPE:VOD"));
    proof {
        assert(line_views(lines@) =~= manifest_header() + manifest_entries(locs_v.take(0)));
    }
    let mut i: usize = 0;
    while i < n
        invariant
            i <= n,
            n == m.segment_locators@.len(),
            locs_v == line_views(m.segment_locators@),
            line_views(lines@) == manifest_header() + manifest_entries(locs_v.take(i as int)),
        decreases n - i,
    {
        let ghost lines_top = lines@;
        lines.push(String::from_str("#EXTINF:20.0"));
        let locator = m.segment_locators[i].clone();
        lines.push(locator);
        proof {
            let prev = locs_v.take(i as int);
            let cur = locs_v.take(i as int + 1);
            assert(cur.drop_last() =~= prev);
            assert(cur.last() == locs_v[i as int]);
            assert(manifest_entries(cur) == manifest_entries(prev).push(extinf_line()).push(
                locs_v[i as int],
            ));
            assert(line_views(lines@) =~= line_views(lines_top).push(extinf_line()).push(
                locs_v[i as int],
            ));
            assert(line_views(lines@) =~= manifest_header() + manifest_entries(cur));
        }
        i = i + 1;
    }
    let ghost lines_body = lines@;
    lines.push(String::from_str("#EXT-X-ENDLIST"));
    proof {
        assert(locs_v.take(n as int) =~= locs_v);
        assert(line_views(lines@) =~= line_views(lines_body).push("#EXT-X-ENDLIST"@));
        assert(line_views(lines@) =~= manifest_text(locs_v));
    }
    lines
}

/// Index of the first '.' in `s`, or `s.len()` where none occurs.
pub open spec fn first_dot(s: Seq<char>) -> int
    decreases s.len(),
{
    if s.len() == 0 {
        0
    } else if s[0] == '.' {
        0
    } else {
        1 + first_dot(s.subrange(1, s.len() as int))
    }
}

proof fn lemma_first_dot_at(s: Seq<char>, i: int)
    requires
        0 <= i <= s.len(),
        forall|k: int| 0 <= k < i ==> s[k] != '.',
        i < s.len() ==> s[i] == '.',
    ensures
        first_dot(s) == i,
    decreases s.len(),
{
    if s.len() == 0 {
    } else if s[0] == '.' {
        assert(i == 0);
    } else {
        let tail = s.subrange(1, s.len() as int);
        assert(forall|k: int| 0 <= k < i - 1 ==> #[trigger] tail[k] == s[k + 1]);
        lemma_first_dot_at(tail, i - 1);
    }
}

/// The manifest's own filename: the object name up to its first dot,
/// with the playlist suffix in place of whatever followed.
pub fn manifest_filename(object_name: &str) -> (r: String)
    ensures
        r@ == object_name@.subrange(0, first_dot(object_name@)) + ".m3u8"@,
{
    let len = object_name.unicode_len();
    let mut i: usize = 0;
    let mut found = false;
    while i < len && !found
        invariant
            i <= len,
            len == object_name@.len(),
            forall|k: int| 0 <= k < i ==> object_name@[k] != '.',
            found ==> i < len && object_name@[i as int] == '.',
        decreases 2 * (len - i) + (if found { 0int } else { 1int }),
    {
        if object_name.get_char(i) == '.' {
            found = true;
        } else {
            i = i + 1;
        }
    }
    proof {
        lemma_first_dot_at(object_name@, i as int);
    }
    let mut r = String::from_str(object_name.substring_char(0, i));
    r.append(".m3u8");
    r
}

/// Assembly is order-independent: two artifact collections that hold the
/// same artifacts — as a multiset, so in any arrival order — yield, once
/// both pass assembly, locator lists identical character for character,
/// and hence byte-identical manifests.
pub proof fn lemma_assemble_order_independent(
    a: Seq<TranscodeOutput>,
    b: Seq<TranscodeOutput>,
    la: Seq<String>,
    lb: Seq<String>,
)
    requires
        a.to_multiset() == b.to_multiset(),
        complete_artifact_set(a),
        is_manifest_of(la, a),
        is_manifest_of(lb, b),
    ensures
        la.len() == lb.len(),
        forall|i: int| 0 <= i < la.len() ==> (#[trigger] la[i])@ == lb[i]@,
        line_views(la) == line_views(lb),
        manifest_text(line_views(la)) == manifest_text(line_views(lb)),
{
    broadcast use vstd::seq_lib::group_to_multiset_ensures;

    assert(a.to_multiset().len() == a.len());
    assert(b.to_multiset().len() == b.len());
    assert(a.len() == b.len());
    assert forall|i: int| 0 <= i < la.len() implies (#[trigger] la[i])@ == lb[i]@ by {
        assert(has_locator_for(la, a, i));
        assert(has_locator_for(lb, b, i));
        let ja = choose|j: int|
            0 <= j < a.len() && (#[trigger] a[j]).segment_order == i && la[i]@ == a[
                j
            ].transcoded_segment@;
        let jb = choose|j: int|
            0 <= j < b.len() && (#[trigger] b[j]).segment_order == i && lb[i]@ == b[
                j
            ].transcoded_segment@;
        assert(b.contains(b[jb]));
        assert(b.to_multiset().count(b[jb]) > 0);
        assert(a.to_multiset().count(b[jb]) > 0);
        assert(a.contains(b[jb]));
        let j2 = choose|j: int| 0 <= j < a.len() && a[j] == b[jb];
        assert(a[j2].segment_order == i);
        if j2 != ja {
            assert(a[j2].segment_order != a[ja].segment_order);
            assert(false);
        }
        assert(a[ja] == b[jb]);
    }
    assert(line_views(la) =~= line_views(lb));
}

} // verus!

