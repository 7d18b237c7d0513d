//! Where metadata and chunks come from, and the merging of the time ranges that
//! a part of a file covers.

use vstd::prelude::*;

use crate::read::common::TimeRange;

verus! {

/// Loads the chunk metadata that a series' metadata lists.
#[derive(Debug, Default, Clone, Copy)]
pub struct SimpleChunkMetadataLoader;

/// The file from which metadata queriers and chunk loaders are built.
#[derive(Debug, Clone)]
pub struct ControllerBuilder {
    path: String,
}

impl ControllerBuilder {
    /// The path of the file.
    pub closed spec fn file_path(&self) -> Seq<char> {
        self.path@
    }

    /// A builder for the file at `path`.
    pub fn new(path: &str) -> (b: Self)
        ensures
            b.file_path() == path@,
    {
        ControllerBuilder { path: path.to_owned() }
    }
}

/// Whether `next` is merged into `current`: the two ranges meet, or no whole
/// time lies between them.
pub open spec fn joins(current: TimeRange, next: TimeRange) -> bool {
    current.meets(next) || current.max + 1 >= next.min
}

/// `current` widened by `next`: the larger upper end, and each end closed only
/// where both are.
pub open spec fn widened(current: TimeRange, next: TimeRange) -> TimeRange {
    TimeRange {
        min: current.min,
        max: if current.max >= next.max { current.max } else { next.max },
        left_closed: current.left_closed && next.left_closed,
        right_closed: current.right_closed && next.right_closed,
    }
}

/// The ranges that merging `rest`, one after the other, into `current` gives:
/// a range that joins the one being built widens it; any other closes it and
/// starts the next.
pub open spec fn merge_from(current: TimeRange, rest: Seq<TimeRange>) -> Seq<TimeRange>
    decreases rest.len(),
{
    if rest.len() == 0 {
        seq![current]
    } else if joins(current, rest[0]) {
        merge_from(widened(current, rest[0]), rest.drop_first())
    } else {
        seq![current] + merge_from(rest[0], rest.drop_first())
    }
}

/// The ranges that merging `ranges` in their order gives.
pub open spec fn merged(ranges: Seq<TimeRange>) -> Seq<TimeRange> {
    if ranges.len() == 0 {
        Seq::empty()
    } else {
        merge_from(ranges[0], ranges.drop_first())
    }
}

/// Between two neighbours of a merged list lies at least one whole time that
/// neither ends at.
pub open spec fn separated(out: Seq<TimeRange>) -> bool {
    forall|i: int| 0 <= i < out.len() - 1 ==> #[trigger] out[i].max + 1 < out[i + 1].min
}

/// What merging into `current` gives starts with `current`'s lower end, is
/// never longer than the ranges merged, and keeps its neighbours apart.
pub proof fn lemma_merge_from_shape(current: TimeRange, rest: Seq<TimeRange>)
    ensures
        merge_from(current, rest).len() >= 1,
        merge_from(current, rest).len() <= rest.len() + 1,
        merge_from(current, rest)[0].min == current.min,
        separated(merge_from(current, rest)),
    decreases rest.len(),
{
    if rest.len() > 0 {
        if joins(current, rest[0]) {
            lemma_merge_from_shape(widened(current, rest[0]), rest.drop_first());
        } else {
            lemma_merge_from_shape(rest[0], rest.drop_first());
            let tail = merge_from(rest[0], rest.drop_first());
            let out = seq![current] + tail;
            assert forall|i: int| 0 <= i < out.len() - 1 implies #[trigger] out[i].max + 1
                < out[i + 1].min by {
                if i > 0 {
                    assert(out[i] == tail[i - 1]);
                    assert(out[i + 1] == tail[i]);
                }
            }
        }
    }
}

/// Whether some range of `ranges` holds the time `t`.
pub open spec fn covers(ranges: Seq<TimeRange>, t: i64) -> bool {
    exists|i: int| 0 <= i < ranges.len() && (#[trigger] ranges[i]).has(t)
}

/// Whether every range is closed at both ends and not reversed.
pub open spec fn closed_ranges(ranges: Seq<TimeRange>) -> bool {
    forall|i: int| 0 <= i < ranges.len() ==> (#[trigger] ranges[i]).left_closed && ranges[i].right_closed
        && ranges[i].min <= ranges[i].max
}

/// Whether the ranges are in order of their lower ends.
pub open spec fn ordered_by_min(ranges: Seq<TimeRange>) -> bool {
    forall|i: int, j: int| 0 <= i < j < ranges.len() ==> ranges[i].min <= ranges[j].min
}

/// A range in front of others covers what it covers and what they cover.
proof fn lemma_covers_front(c: TimeRange, rest: Seq<TimeRange>, t: i64)
    ensures
        covers(seq![c] + rest, t) == (c.has(t) || covers(rest, t)),
{
    let s = seq![c] + rest;
    if covers(s, t) {
        let i = choose|i: int| 0 <= i < s.len() && (#[trigger] s[i]).has(t);
        if i > 0 {
            assert(rest[i - 1] == s[i]);
        }
    }
    if c.has(t) {
        assert(s[0] == c);
    }
    if covers(rest, t) {
        let i = choose|i: int| 0 <= i < rest.len() && (#[trigger] rest[i]).has(t);
        assert(s[i + 1] == rest[i]);
    }
}

/// Merging into `current` ranges that are closed, not reversed and ordered by lower end,
/// none starting before `current`, covers exactly what they and `current` cover.
proof fn lemma_merge_from_covers(current: TimeRange, rest: Seq<TimeRange>, t: i64)
    requires
        current.left_closed && current.right_closed && current.min <= current.max,
        closed_ranges(rest),
        ordered_by_min(rest),
        forall|i: int| 0 <= i < rest.len() ==> current.min <= (#[trigger] rest[i]).min,
    ensures
        covers(merge_from(current, rest), t) == (current.has(t) || covers(rest, t)),
    decreases rest.len(),
{
    if rest.len() == 0 {
        lemma_covers_front(current, Seq::empty(), t);
        assert(seq![current] + Seq::<TimeRange>::empty() =~= seq![current]);
    } else {
        let r0 = rest[0];
        let tail = rest.drop_first();
        assert(rest =~= seq![r0] + tail);
        lemma_covers_front(r0, tail, t);
        assert(r0.left_closed && r0.right_closed && r0.min <= r0.max);
        assert(closed_ranges(tail)) by {
            assert forall|i: int| 0 <= i < tail.len() implies (#[trigger] tail[i]).left_closed && tail[i].right_closed
                && tail[i].min <= tail[i].max by {
                assert(tail[i] == rest[i + 1]);
            }
        }
        assert(ordered_by_min(tail)) by {
            assert forall|i: int, j: int| 0 <= i < j < tail.len() implies tail[i].min <= tail[j].min by {
                assert(tail[i] == rest[i + 1] && tail[j] == rest[j + 1]);
            }
        }
        assert forall|i: int| 0 <= i < tail.len() implies r0.min <= (#[trigger] tail[i]).min by {
            assert(tail[i] == rest[i + 1]);
        }
        if joins(current, r0) {
            let w = widened(current, r0);
            assert(r0.min <= current.max + 1);
            assert(w.has(t) == (current.has(t) || r0.has(t)));
            assert forall|i: int| 0 <= i < tail.len() implies w.min <= (#[trigger] tail[i]).min by {
                assert(tail[i] == rest[i + 1]);
            }
            lemma_merge_from_covers(w, tail, t);
        } else {
            lemma_merge_from_covers(r0, tail, t);
            lemma_covers_front(current, merge_from(r0, tail), t);
        }
    }
}

/// Merging time ranges that are closed at both ends, not reversed, and ordered by lower
/// end (as those of a space partition are) loses and adds no time: a time lies in some
/// merged range exactly when it lies in some of the ranges merged. So each merged range
/// reaches up to the largest upper end of the ranges merged into it.
pub proof fn lemma_merged_covers_union(ranges: Seq<TimeRange>, t: i64)
    requires
        closed_ranges(ranges),
        ordered_by_min(ranges),
    ensures
        covers(merged(ranges), t) == covers(ranges, t),
{
    if ranges.len() > 0 {
        let r0 = ranges[0];
        let tail = ranges.drop_first();
        assert(ranges =~= seq![r0] + tail);
        lemma_covers_front(r0, tail, t);
        assert(r0.left_closed && r0.right_closed && r0.min <= r0.max);
        assert(closed_ranges(tail)) by {
            assert forall|i: int| 0 <= i < tail.len() implies (#[trigger] tail[i]).left_closed && tail[i].right_closed
                && tail[i].min <= tail[i].max by {
                assert(tail[i] == ranges[i + 1]);
            }
        }
        assert(ordered_by_min(tail)) by {
            assert forall|i: int, j: int| 0 <= i < j < tail.len() implies tail[i].min <= tail[j].min by {
                assert(tail[i] == ranges[i + 1] && tail[j] == ranges[j + 1]);
            }
        }
        assert forall|i: int| 0 <= i < tail.len() implies r0.min <= (#[trigger] tail[i]).min by {
            assert(tail[i] == ranges[i + 1]);
        }
        lemma_merge_from_covers(r0, tail, t);
    }
}

/// Merges a list of time ranges: each range that meets the one being built, or
/// leaves no whole time between them, widens it; the others start a new one.
/// The merged ranges keep the order of their first members.
pub fn merge_time_ranges(ranges: Vec<TimeRange>) -> (out: Vec<TimeRange>)
    ensures
        out@ == merged(ranges@),
        out@.len() <= ranges@.len(),
        separated(out@),
{
    if ranges.len() == 0 {
        return ranges;
    }
    proof {
        lemma_merge_from_shape(ranges@[0], ranges@.drop_first());
    }
    let mut out: Vec<TimeRange> = Vec::with_capacity(ranges.len());
    let mut current = ranges[0];
    let mut i: usize = 1;
    while i < ranges.len()
        invariant
            1 <= i <= ranges@.len(),
            out@ + merge_from(current, ranges@.skip(i as int)) == merged(ranges@),
        decreases ranges@.len() - i,
    {
        let next = ranges[i];
        let rest = Ghost(ranges@.skip(i as int));
        assert(rest@[0] == next);
        assert(rest@.drop_first() =~= ranges@.skip(i + 1));
        let gap_closed = (current.max as i128) + 1 >= (next.min as i128);
        if current.intersects(next) || gap_closed {
            let max = if current.max >= next.max {
                current.max
            } else {
                next.max
            };
            current = TimeRange {
                min: current.min,
                max,
                left_closed: current.left_closed && next.left_closed,
                right_closed: current.right_closed && next.right_closed,
            };
        } else {
            let ghost before = out@;
            out.push(current);
            assert(out@ + merge_from(next, ranges@.skip(i + 1)) =~= before + (seq![current]
                + merge_from(next, ranges@.skip(i + 1))));
            current = next;
        }
        i = i + 1;
    }
    assert(ranges@.skip(i as int).len() == 0);
    out.push(current);
    out
}

} // verus!
