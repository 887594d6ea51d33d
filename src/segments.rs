use vstd::prelude::*;
use crate::time::{frame_time, frame_time_us, spans, FrameRate, TimeRange};

verus! {

/// Ascending order, equal neighbours allowed.
pub open spec fn sorted(s: Seq<usize>) -> bool {
    forall|i: int, j: int| 0 <= i < j < s.len() ==> s[i] <= s[j]
}

/// The runs of consecutive frame indices in `s`, as (first, last) pairs: a run ends where
/// the next index is more than one greater than the current one.
pub open spec fn runs(s: Seq<usize>) -> Seq<(int, int)>
    decreases s.len(),
{
    if s.len() == 0 {
        Seq::empty()
    } else {
        let prev = runs(s.drop_last());
        let x = s.last() as int;
        if s.len() >= 2 && prev.len() > 0 && x - s[s.len() - 2] <= 1 {
            prev.update(prev.len() - 1, (prev.last().0, x))
        } else {
            prev.push((x, x))
        }
    }
}

/// The removal range of a run: from its first frame's time less the padding to its last
/// frame's time plus the padding.
pub open spec fn padded(run: (int, int), rate: FrameRate, padding: int) -> (int, int) {
    (frame_time_us(run.0, rate) - padding, frame_time_us(run.1, rate) + padding)
}

/// The removal ranges of a list of runs.
pub open spec fn padded_all(rs: Seq<(int, int)>, rate: FrameRate, padding: int) -> Seq<(int, int)> {
    rs.map_values(|r: (int, int)| padded(r, rate, padding))
}

/// The raw removal ranges of a sorted list of matched frames.
pub open spec fn raw_ranges(s: Seq<usize>, rate: FrameRate, padding: int) -> Seq<(int, int)> {
    padded_all(runs(s), rate, padding)
}

/// Every frame time, padded, fits in an `i64`.
pub open spec fn times_fit(s: Seq<usize>, rate: FrameRate, padding: int) -> bool {
    forall|i: int| 0 <= i < s.len() ==> frame_time_us(#[trigger] s[i] as int, rate) + padding <= i64::MAX
}

/// Groups sorted matched frames into runs and turns each run into a padded removal range.
pub fn group_runs(frames: &Vec<usize>, rate: FrameRate, padding: i64) -> (r: Vec<TimeRange>)
    requires
        rate.valid(),
        padding >= 0,
        sorted(frames@),
        times_fit(frames@, rate, padding as int),
    ensures
        spans(r@) == raw_ranges(frames@, rate, padding as int),
{
    let n = frames.len();
    let mut out: Vec<TimeRange> = Vec::new();
    if n == 0 {
        assert(spans(out@) =~= raw_ranges(frames@, rate, padding as int));
        return out;
    }
    let mut first: usize = frames[0];
    let mut last: usize = frames[0];
    assert(frames@.take(1).drop_last() =~= Seq::<usize>::empty());
    assert(frames@.take(1).last() == frames@[0]);
    assert(runs(frames@.take(1).drop_last()).len() == 0);
    assert(runs(frames@.take(1)) =~= seq![(first as int, first as int)]);
    let mut i: usize = 1;
    while i < n
        invariant
            1 <= i <= n,
            n == frames@.len(),
            rate.valid(),
            padding >= 0,
            sorted(frames@),
            times_fit(frames@, rate, padding as int),
            runs(frames@.take(i as int)).len() >= 1,
            runs(frames@.take(i as int)).last() == (first as int, last as int),
            spans(out@) == padded_all(runs(frames@.take(i as int)).drop_last(), rate, padding as int),
            exists|k: int| 0 <= k < i && frames@[k] == first,
            exists|k: int| 0 <= k < i && frames@[k] == last,
        decreases n - i,
    {
        let ghost prev = runs(frames@.take(i as int));
        assert(frames@.take(i + 1).drop_last() =~= frames@.take(i as int));
        if frames[i] - frames[i - 1] > 1 {
            let range = padded_range(first, last, rate, padding, Ghost(frames@));
            let ghost out_before = out@;
            out.push(range);
            first = frames[i];
            proof {
                lemma_spans_push(out_before, range);
                assert(prev =~= prev.drop_last().push(prev.last()));
                lemma_padded_all_push(prev.drop_last(), prev.last(), rate, padding as int);
                assert(runs(frames@.take(i + 1)) == prev.push((first as int, first as int)));
                assert(prev.push((first as int, first as int)).drop_last() =~= prev);
            }
        } else {
            assert(runs(frames@.take(i + 1)) == prev.update(prev.len() - 1, (first as int, frames@[i as int] as int)));
            assert(prev.update(prev.len() - 1, (first as int, frames@[i as int] as int)).drop_last() =~= prev.drop_last());
        }
        last = frames[i];
        i = i + 1;
    }
    let range = padded_range(first, last, rate, padding, Ghost(frames@));
    let ghost before_push = out@;
    out.push(range);
    assert(frames@.take(n as int) =~= frames@);
    proof {
        let rs = runs(frames@);
        assert(rs =~= rs.drop_last().push(rs.last()));
        lemma_spans_push(before_push, range);
        lemma_padded_all_push(rs.drop_last(), rs.last(), rate, padding as int);
    }
    assert(spans(out@) =~= raw_ranges(frames@, rate, padding as int));
    out
}

/// Merges each range into the one before it where it starts at or before that one's end.
pub open spec fn merge(s: Seq<(int, int)>) -> Seq<(int, int)>
    decreases s.len(),
{
    if s.len() == 0 {
        Seq::empty()
    } else {
        let prev = merge(s.drop_last());
        let x = s.last();
        if prev.len() > 0 && x.0 <= prev.last().1 {
            let end = if x.1 > prev.last().1 { x.1 } else { prev.last().1 };
            prev.update(prev.len() - 1, (prev.last().0, end))
        } else {
            prev.push(x)
        }
    }
}

/// The gaps between removal ranges, walked from `cursor`: a gap before each range that starts
/// after the cursor, the cursor moving to each range's end, and a last gap up to `total`
/// where `total` lies after the cursor.
pub open spec fn invert_from(s: Seq<(int, int)>, cursor: int, total: int) -> Seq<(int, int)>
    decreases s.len(),
{
    if s.len() == 0 {
        if total > cursor {
            seq![(cursor, total)]
        } else {
            Seq::empty()
        }
    } else {
        let r = s[0];
        let rest = invert_from(s.subrange(1, s.len() as int), r.1, total);
        if r.0 > cursor {
            seq![(cursor, r.0)] + rest
        } else {
            rest
        }
    }
}

/// The keep ranges left by a list of removal ranges within `[0, total)`.
pub open spec fn invert(s: Seq<(int, int)>, total: int) -> Seq<(int, int)> {
    invert_from(s, 0, total)
}

/// Merges touching or overlapping removal ranges, scanning them in order.
pub fn merge_ranges(raw: &Vec<TimeRange>) -> (r: Vec<TimeRange>)
    ensures
        spans(r@) == merge(spans(raw@)),
{
    let n = raw.len();
    let mut out: Vec<TimeRange> = Vec::new();
    if n == 0 {
        assert(spans(out@) =~= merge(spans(raw@)));
        return out;
    }
    let mut acc = raw[0];
    assert(spans(raw@).take(1).drop_last() =~= Seq::<(int, int)>::empty());
    assert(merge(spans(raw@).take(1).drop_last()).len() == 0);
    assert(merge(spans(raw@).take(1)) =~= seq![(acc.start as int, acc.end as int)]);
    let mut i: usize = 1;
    while i < n
        invariant
            1 <= i <= n,
            n == raw@.len(),
            merge(spans(raw@).take(i as int)) == spans(out@).push((acc.start as int, acc.end as int)),
        decreases n - i,
    {
        let ghost prev = merge(spans(raw@).take(i as int));
        assert(spans(raw@).take(i + 1).drop_last() =~= spans(raw@).take(i as int));
        assert(spans(raw@).take(i + 1).last() == spans(raw@)[i as int]);
        let x = raw[i];
        if x.start <= acc.end {
            if x.end > acc.end {
                acc = TimeRange { start: acc.start, end: x.end };
            }
            assert(merge(spans(raw@).take(i + 1)) =~= spans(out@).push((acc.start as int, acc.end as int)));
        } else {
            let ghost out_before = out@;
            out.push(acc);
            proof {
                lemma_spans_push(out_before, acc);
            }
            acc = x;
            assert(merge(spans(raw@).take(i + 1)) =~= spans(out@).push((acc.start as int, acc.end as int)));
        }
        i = i + 1;
    }
    let ghost out_before = out@;
    out.push(acc);
    proof {
        lemma_spans_push(out_before, acc);
        assert(spans(raw@).take(n as int) =~= spans(raw@));
    }
    out
}

/// The keep ranges between merged removal ranges, up to `total`.
pub fn invert_ranges(removals: &Vec<TimeRange>, total: i64) -> (r: Vec<TimeRange>)
    ensures
        spans(r@) == invert(spans(removals@), total as int),
{
    let n = removals.len();
    let mut out: Vec<TimeRange> = Vec::new();
    let mut cursor: i64 = 0;
    let mut i: usize = 0;
    assert(spans(removals@).subrange(0, n as int) =~= spans(removals@));
    assert(spans(out@) + invert_from(spans(removals@), 0, total as int) =~= invert(spans(removals@), total as int));
    while i < n
        invariant
            i <= n,
            n == removals@.len(),
            spans(out@) + invert_from(spans(removals@).subrange(i as int, n as int), cursor as int, total as int)
                == invert(spans(removals@), total as int),
        decreases n - i,
    {
        let r = removals[i];
        let ghost sub = spans(removals@).subrange(i as int, n as int);
        assert(sub.subrange(1, sub.len() as int) =~= spans(removals@).subrange(i + 1, n as int));
        assert(sub[0] == (r.start as int, r.end as int));
        let ghost rest = invert_from(spans(removals@).subrange(i + 1, n as int), r.end as int, total as int);
        if r.start > cursor {
            let ghost out_before = out@;
            let gap = TimeRange { start: cursor, end: r.start };
            out.push(gap);
            proof {
                lemma_spans_push(out_before, gap);
                assert(spans(out_before) + (seq![(cursor as int, r.start as int)] + rest) =~= spans(out@) + rest);
            }
        }
        cursor = r.end;
        i = i + 1;
    }
    assert(spans(removals@).subrange(n as int, n as int) =~= Seq::<(int, int)>::empty());
    if total > cursor {
        let ghost out_before = out@;
        let last = TimeRange { start: cursor, end: total };
        out.push(last);
        proof {
            lemma_spans_push(out_before, last);
        }
    }
    assert(spans(out@) =~= invert(spans(removals@), total as int));
    out
}

/// The keep ranges derived from sorted matched frames: runs padded into removal ranges,
/// merged, then inverted within `[0, total)`.
pub open spec fn keep_ranges(s: Seq<usize>, rate: FrameRate, padding: int, total: int) -> Seq<(int, int)> {
    invert(merge(raw_ranges(s, rate, padding)), total)
}

/// The indices of the frames that matched, in the order in which they were reported.
pub struct MatchedFrameSet {
    frames: Vec<usize>,
}

impl View for MatchedFrameSet {
    type V = Seq<usize>;

    closed spec fn view(&self) -> Seq<usize> {
        self.frames@
    }
}

impl MatchedFrameSet {
    pub fn new() -> (r: MatchedFrameSet)
        ensures
            r@ == Seq::<usize>::empty(),
    {
        MatchedFrameSet { frames: Vec::new() }
    }

    /// Records one matched frame.
    pub fn insert(&mut self, index: usize)
        ensures
            final(self)@ == old(self)@.push(index),
    {
        self.frames.push(index);
    }

    pub fn len(&self) -> (r: usize)
        ensures
            r == self@.len(),
    {
        self.frames.len()
    }

    /// Ends aggregation: the same indices, in ascending order.
    pub fn into_sorted(self) -> (r: SortedFrames)
        ensures
            sorted(r@),
            r@.to_multiset() == self@.to_multiset(),
    {
        let mut frames = self.frames;
        sort_ascending(&mut frames);
        SortedFrames { frames }
    }
}

/// Matched frame indices in ascending order, as the segment derivation needs them.
pub struct SortedFrames {
    frames: Vec<usize>,
}

impl View for SortedFrames {
    type V = Seq<usize>;

    closed spec fn view(&self) -> Seq<usize> {
        self.frames@
    }
}

impl SortedFrames {
    #[verifier::type_invariant]
    spec fn ascending(&self) -> bool {
        sorted(self.frames@)
    }

    pub fn as_vec(&self) -> (r: &Vec<usize>)
        ensures
            r@ == self@,
            sorted(r@),
    {
        proof {
            use_type_invariant(self);
        }
        &self.frames
    }
}

/// Relies on `slice::sort`: the elements end up in ascending order, the same elements as
/// before.
#[verifier::external_body]
fn sort_ascending(v: &mut Vec<usize>)
    ensures
        sorted(final(v)@),
        final(v)@.to_multiset() == old(v)@.to_multiset(),
{
    v.sort();
}

/// The keep ranges of a scan: `None` where a padded frame time does not fit in an `i64`.
pub fn frames_to_segments(frames: &SortedFrames, rate: FrameRate, padding: i64, total: i64) -> (r: Option<Vec<TimeRange>>)
    requires
        rate.valid(),
        padding >= 0,
    ensures
        r is Some <==> times_fit(frames@, rate, padding as int),
        r is Some ==> spans(r->Some_0@) == keep_ranges(frames@, rate, padding as int, total as int),
        r is Some ==> ascending_ranges(spans(r->Some_0@)),
        r is Some ==> forall|k: int| 0 <= k < r->Some_0@.len() ==> #[trigger] r->Some_0@[k].start >= 0,
{
    let v = frames.as_vec();
    assert(v@ == frames@);
    let n = v.len();
    let mut i: usize = 0;
    while i < n
        invariant
            i <= n,
            n == v@.len(),
            rate.valid(),
            padding >= 0,
            forall|k: int| 0 <= k < i ==> frame_time_us(#[trigger] v@[k] as int, rate) + padding <= i64::MAX,
            v@ == frames@,
        decreases n - i,
    {
        match frame_time(v[i], rate) {
            Some(t) => {
                if t > i64::MAX - padding {
                    assert(frame_time_us(frames@[i as int] as int, rate) + padding > i64::MAX);
                    assert(!times_fit(frames@, rate, padding as int));
                    return None;
                }
            },
            None => {
                assert(frame_time_us(frames@[i as int] as int, rate) + padding > i64::MAX);
                assert(!times_fit(frames@, rate, padding as int));
                return None;
            },
        }
        i = i + 1;
    }
    let raw = group_runs(v, rate, padding);
    let merged = merge_ranges(&raw);
    proof {
        lemma_keep_ranges_ascending(frames@, rate, padding as int, total as int);
    }
    let keep = invert_ranges(&merged, total);
    assert forall|k: int| 0 <= k < keep@.len() implies #[trigger] keep@[k].start >= 0 by {
        assert(spans(keep@)[k].0 == keep@[k].start);
    }
    Some(keep)
}

/// Each range ends at or after its start.
pub open spec fn well_formed_ranges(s: Seq<(int, int)>) -> bool {
    forall|i: int| 0 <= i < s.len() ==> #[trigger] s[i].0 <= s[i].1
}

/// Each range ends strictly before the next one starts.
pub open spec fn separated(s: Seq<(int, int)>) -> bool {
    forall|i: int| 0 <= i < s.len() - 1 ==> #[trigger] s[i].1 < s[i + 1].0
}

/// Each range is non-empty, and ends at or before the next one starts.
pub open spec fn ascending_ranges(s: Seq<(int, int)>) -> bool {
    &&& forall|i: int| 0 <= i < s.len() ==> #[trigger] s[i].0 < s[i].1
    &&& forall|i: int| 0 <= i < s.len() - 1 ==> #[trigger] s[i].1 <= s[i + 1].0
}

proof fn lemma_frame_time_monotone(a: int, b: int, rate: FrameRate)
    requires
        rate.valid(),
        0 <= a <= b,
    ensures
        0 <= frame_time_us(a, rate) <= frame_time_us(b, rate),
{
    let k = rate.den * 1_000_000;
    assert(0 <= a * k <= b * k) by (nonlinear_arith)
        requires
            0 <= a <= b,
            k >= 0,
    ;
    vstd::arithmetic::div_mod::lemma_div_is_ordered(a * k, b * k, rate.num as int);
    vstd::arithmetic::div_mod::lemma_div_pos_is_pos(a * k, rate.num as int);
    assert(a * rate.den * 1_000_000 == a * k) by (nonlinear_arith)
        requires
            k == rate.den * 1_000_000,
    ;
    assert(b * rate.den * 1_000_000 == b * k) by (nonlinear_arith)
        requires
            k == rate.den * 1_000_000,
    ;
}

proof fn lemma_runs_ordered(s: Seq<usize>)
    requires
        sorted(s),
    ensures
        s.len() > 0 ==> runs(s).len() > 0 && runs(s).last().1 == s.last() as int,
        forall|k: int| 0 <= k < runs(s).len() ==> 0 <= #[trigger] runs(s)[k].0 <= runs(s)[k].1,
    decreases s.len(),
{
    if s.len() > 0 {
        let t = s.drop_last();
        assert(sorted(t));
        lemma_runs_ordered(t);
        if t.len() > 0 {
            assert(t.last() == s[s.len() - 2]);
            assert(s[s.len() - 2] <= s.last());
        }
    }
}

proof fn lemma_raw_ranges_ordered(s: Seq<usize>, rate: FrameRate, padding: int)
    requires
        sorted(s),
        rate.valid(),
        padding >= 0,
    ensures
        well_formed_ranges(raw_ranges(s, rate, padding)),
        forall|k: int| 0 <= k < raw_ranges(s, rate, padding).len() ==> #[trigger] raw_ranges(s, rate, padding)[k].1 >= 0,
{
    lemma_runs_ordered(s);
    let rs = runs(s);
    assert forall|k: int| 0 <= k < raw_ranges(s, rate, padding).len() implies
        #[trigger] raw_ranges(s, rate, padding)[k].0 <= raw_ranges(s, rate, padding)[k].1
        && raw_ranges(s, rate, padding)[k].1 >= 0 by {
        assert(0 <= rs[k].0 <= rs[k].1);
        lemma_frame_time_monotone(rs[k].0, rs[k].1, rate);
    }
}

proof fn lemma_merge_separated(s: Seq<(int, int)>)
    requires
        well_formed_ranges(s),
        forall|k: int| 0 <= k < s.len() ==> #[trigger] s[k].1 >= 0,
    ensures
        well_formed_ranges(merge(s)),
        separated(merge(s)),
        forall|k: int| 0 <= k < merge(s).len() ==> #[trigger] merge(s)[k].1 >= 0,
    decreases s.len(),
{
    if s.len() > 0 {
        let t = s.drop_last();
        assert forall|k: int| 0 <= k < t.len() implies #[trigger] t[k].0 <= t[k].1 && t[k].1 >= 0 by {
            assert(t[k] == s[k]);
        }
        lemma_merge_separated(t);
        let prev = merge(t);
        let m = merge(s);
        assert(s.last() == s[s.len() - 1]);
        if prev.len() > 0 && s.last().0 <= prev.last().1 {
            assert forall|k: int| 0 <= k < m.len() - 1 implies #[trigger] m[k].1 < m[k + 1].0 by {
                assert(m[k] == prev[k]);
                assert(m[k + 1].0 == prev[k + 1].0);
            }
        } else {
            assert forall|k: int| 0 <= k < m.len() - 1 implies #[trigger] m[k].1 < m[k + 1].0 by {
                assert(m[k] == prev[k]);
                if k < prev.len() - 1 {
                    assert(m[k + 1] == prev[k + 1]);
                }
            }
        }
    }
}

proof fn lemma_invert_ascending(s: Seq<(int, int)>, cursor: int, total: int)
    requires
        well_formed_ranges(s),
        separated(s),
        s.len() > 0 ==> s[0].1 >= cursor,
    ensures
        ascending_ranges(invert_from(s, cursor, total)),
        forall|k: int| 0 <= k < invert_from(s, cursor, total).len() ==> #[trigger] invert_from(s, cursor, total)[k].0 >= cursor,
    decreases s.len(),
{
    if s.len() > 0 {
        let t = s.subrange(1, s.len() as int);
        assert forall|k: int| 0 <= k < t.len() implies #[trigger] t[k].0 <= t[k].1 by {
            assert(t[k] == s[k + 1]);
        }
        assert forall|k: int| 0 <= k < t.len() - 1 implies #[trigger] t[k].1 < t[k + 1].0 by {
            assert(t[k] == s[k + 1]);
            assert(t[k + 1] == s[k + 2]);
        }
        if t.len() > 0 {
            assert(t[0] == s[1]);
            assert(s[0].1 < s[1].0);
        }
        assert(s[0].0 <= s[0].1);
        lemma_invert_ascending(t, s[0].1, total);
        let rest = invert_from(t, s[0].1, total);
        let out = invert_from(s, cursor, total);
        if s[0].0 > cursor {
            let head = seq![(cursor, s[0].0)];
            assert(out == head + rest);
            assert forall|k: int| 0 <= k < out.len() implies #[trigger] out[k].0 < out[k].1 && out[k].0 >= cursor by {
                if k > 0 {
                    assert(out[k] == rest[k - 1]);
                }
            }
            assert forall|k: int| 0 <= k < out.len() - 1 implies #[trigger] out[k].1 <= out[k + 1].0 by {
                assert(out[k + 1] == rest[k]);
                if k > 0 {
                    assert(out[k] == rest[k - 1]);
                }
            }
        }
    }
}

/// The keep ranges that the derivation produces are non-empty, ascending, do not overlap, and
/// start at or after zero.
pub proof fn lemma_keep_ranges_ascending(s: Seq<usize>, rate: FrameRate, padding: int, total: int)
    requires
        sorted(s),
        rate.valid(),
        padding >= 0,
    ensures
        ascending_ranges(keep_ranges(s, rate, padding, total)),
        forall|k: int| 0 <= k < keep_ranges(s, rate, padding, total).len()
            ==> #[trigger] keep_ranges(s, rate, padding, total)[k].0 >= 0,
{
    let raw = raw_ranges(s, rate, padding);
    lemma_raw_ranges_ordered(s, rate, padding);
    lemma_merge_separated(raw);
    let m = merge(raw);
    lemma_invert_ascending(m, 0, total);
}

/// Aggregation fixes the derivation's input whatever order the workers reported the frames
/// in: two sorted lists of the same frames derive the same keep ranges.
pub proof fn lemma_report_order_irrelevant(a: Seq<usize>, b: Seq<usize>, rate: FrameRate, padding: int, total: int)
    requires
        sorted(a),
        sorted(b),
        a.to_multiset() == b.to_multiset(),
    ensures
        a == b,
        keep_ranges(a, rate, padding, total) == keep_ranges(b, rate, padding, total),
{
    let leq = |x: usize, y: usize| x <= y;
    assert(vstd::relations::sorted_by(a, leq));
    assert(vstd::relations::sorted_by(b, leq));
    assert(vstd::relations::total_ordering(leq));
    vstd::seq_lib::lemma_sorted_unique(a, b, leq);
}

proof fn lemma_spans_push(v: Seq<TimeRange>, t: TimeRange)
    ensures
        spans(v.push(t)) == spans(v).push((t.start as int, t.end as int)),
{
    assert(spans(v.push(t)) =~= spans(v).push((t.start as int, t.end as int)));
}

proof fn lemma_padded_all_push(rs: Seq<(int, int)>, x: (int, int), rate: FrameRate, padding: int)
    ensures
        padded_all(rs.push(x), rate, padding) == padded_all(rs, rate, padding).push(padded(x, rate, padding)),
{
    assert(padded_all(rs.push(x), rate, padding) =~= padded_all(rs, rate, padding).push(padded(x, rate, padding)));
}

fn padded_range(first: usize, last: usize, rate: FrameRate, padding: i64, Ghost(s): Ghost<Seq<usize>>) -> (r: TimeRange)
    requires
        rate.valid(),
        padding >= 0,
        times_fit(s, rate, padding as int),
        exists|k: int| 0 <= k < s.len() && s[k] == first,
        exists|k: int| 0 <= k < s.len() && s[k] == last,
    ensures
        (r.start as int, r.end as int) == padded((first as int, last as int), rate, padding as int),
{
    let a = frame_time(first, rate);
    let b = frame_time(last, rate);
    proof {
        let ka = choose|k: int| 0 <= k < s.len() && s[k] == first;
        let kb = choose|k: int| 0 <= k < s.len() && s[k] == last;
        assert(frame_time_us(s[ka] as int, rate) + padding <= i64::MAX);
        assert(frame_time_us(s[kb] as int, rate) + padding <= i64::MAX);
    }
    let a = a.unwrap();
    let b = b.unwrap();
    assert(a >= 0) by (nonlinear_arith)
        requires
            a == frame_time_us(first as int, rate),
            rate.valid(),
            first >= 0,
    ;
    TimeRange { start: a - padding, end: b + padding }
}

} // verus!
