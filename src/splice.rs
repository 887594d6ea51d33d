use vstd::prelude::*;
use crate::time::{spans, TimeBase, TimeRange};

verus! {

/// The timestamps of one packet of the source container, with its stream's time base.
#[derive(Clone, Copy, Debug, PartialEq, Eq, Structural)]
pub struct PacketTimes {
    pub pts: Option<i64>,
    pub dts: Option<i64>,
    pub time_base: TimeBase,
}

/// What to do with a packet.
#[derive(Clone, Copy, Debug, PartialEq, Eq, Structural)]
pub enum Action {
    /// Write the packet with these rebased timestamps.
    Write { pts: i64, dts: i64 },
    /// Drop the packet: it lies in a removed span.
    Skip,
    /// Stop reading packets and write the trailer.
    Finish,
}

#[derive(Clone, Copy, Debug, PartialEq, Eq, Structural)]
pub enum SpliceError {
    /// The keep ranges are not ascending and non-overlapping.
    UnorderedRanges,
    /// The packet has no presentation timestamp.
    MissingPts,
    /// The packet has no decode timestamp.
    MissingDts,
    /// The stream's time base is not a positive fraction.
    InvalidTimeBase,
    /// A rebased timestamp or the accumulated offset does not fit in 64 bits.
    TimestampOutOfRange,
}

/// Ranges that each end at or after their start, each ending at or before the next one's
/// start.
pub open spec fn ranges_ordered(s: Seq<(int, int)>) -> bool {
    &&& forall|i: int| 0 <= i < s.len() ==> #[trigger] s[i].0 <= s[i].1
    &&& forall|i: int| 0 <= i < s.len() - 1 ==> #[trigger] s[i].1 <= s[i + 1].0
}

/// `ticks` in time base `tb` lies strictly before `bound` microseconds.
pub open spec fn before(ticks: int, tb: TimeBase, bound: int) -> bool {
    ticks * tb.num * 1_000_000 < bound * tb.den
}

/// The gap from `prev_end` to `next_start` (microseconds), in ticks of `tb`, rounded down.
pub open spec fn gap_ticks(prev_end: int, next_start: int, tb: TimeBase) -> int {
    (next_start - prev_end) * tb.den / (tb.num * 1_000_000)
}

pub open spec fn fits_i64(x: int) -> bool {
    i64::MIN <= x <= i64::MAX
}

/// The splicer's state: the keep ranges, the range packets are measured against, and the
/// number of ticks subtracted from every timestamp written.
pub struct SpliceView {
    pub ranges: Seq<(int, int)>,
    pub current: int,
    pub offset: int,
}

/// The effect of one packet on the splicer. On an error the state is left as it was.
pub open spec fn step_spec(v: SpliceView, p: PacketTimes) -> (SpliceView, Result<Action, SpliceError>) {
    if v.current >= v.ranges.len() {
        (v, Ok(Action::Finish))
    } else if p.pts is None {
        (v, Err(SpliceError::MissingPts))
    } else if p.dts is None {
        (v, Err(SpliceError::MissingDts))
    } else if !p.time_base.valid() {
        (v, Err(SpliceError::InvalidTimeBase))
    } else {
        let pts = p.pts->Some_0 as int;
        let dts = p.dts->Some_0 as int;
        let tb = p.time_base;
        let r = v.ranges[v.current];
        if before(pts, tb, r.0) && before(dts, tb, r.0) {
            (v, Ok(Action::Skip))
        } else if before(pts, tb, r.1) && before(dts, tb, r.1) {
            write_spec(v, pts, dts)
        } else if v.current + 1 >= v.ranges.len() {
            (SpliceView { current: v.current + 1, ..v }, Ok(Action::Finish))
        } else {
            let next = v.ranges[v.current + 1];
            let offset = v.offset + gap_ticks(r.1, next.0, tb);
            if !fits_i64(offset) {
                (v, Err(SpliceError::TimestampOutOfRange))
            } else {
                let moved = SpliceView { current: v.current + 1, offset, ..v };
                if before(pts, tb, next.0) || !before(pts, tb, next.1) {
                    (moved, Ok(Action::Skip))
                } else {
                    let (w, a) = write_spec(moved, pts, dts);
                    if a is Err { (v, a) } else { (w, a) }
                }
            }
        }
    }
}

/// Writing a packet: both timestamps move back by the offset.
pub open spec fn write_spec(v: SpliceView, pts: int, dts: int) -> (SpliceView, Result<Action, SpliceError>) {
    (v, rebased(pts, dts, v.offset))
}

/// The action that writes a packet with both timestamps moved back by `offset` ticks.
pub open spec fn rebased(pts: int, dts: int, offset: int) -> Result<Action, SpliceError> {
    if fits_i64(pts - offset) && fits_i64(dts - offset) {
        Ok(Action::Write { pts: (pts - offset) as i64, dts: (dts - offset) as i64 })
    } else {
        Err(SpliceError::TimestampOutOfRange)
    }
}

/// The actions for a sequence of packets, fed one after the other.
pub open spec fn run(v: SpliceView, packets: Seq<PacketTimes>) -> Seq<Result<Action, SpliceError>>
    decreases packets.len(),
{
    if packets.len() == 0 {
        Seq::empty()
    } else {
        let (w, a) = step_spec(v, packets[0]);
        seq![a] + run(w, packets.subrange(1, packets.len() as int))
    }
}

/// Both timestamps present, the time base valid, and both timestamps inside `range`.
pub open spec fn packet_inside(p: PacketTimes, range: (int, int)) -> bool {
    &&& p.pts is Some
    &&& p.dts is Some
    &&& p.time_base.valid()
    &&& !before(p.pts->Some_0 as int, p.time_base, range.0)
    &&& !before(p.dts->Some_0 as int, p.time_base, range.0)
    &&& before(p.pts->Some_0 as int, p.time_base, range.1)
    &&& before(p.dts->Some_0 as int, p.time_base, range.1)
}

/// The action that writes a packet with its own timestamps.
pub open spec fn written_unchanged(p: PacketTimes) -> Result<Action, SpliceError> {
    Ok(Action::Write { pts: p.pts->Some_0, dts: p.dts->Some_0 })
}

/// Splicing with one keep range that holds every packet writes every packet with its
/// timestamps unchanged: the offset stays zero throughout.
pub proof fn lemma_single_range_identity(range: (int, int), packets: Seq<PacketTimes>)
    requires
        forall|i: int| 0 <= i < packets.len() ==> packet_inside(#[trigger] packets[i], range),
    ensures
        run(SpliceView { ranges: seq![range], current: 0, offset: 0 }, packets)
            == packets.map_values(|p: PacketTimes| written_unchanged(p)),
    decreases packets.len(),
{
    let v = SpliceView { ranges: seq![range], current: 0, offset: 0 };
    let expected = packets.map_values(|p: PacketTimes| written_unchanged(p));
    if packets.len() > 0 {
        let rest = packets.subrange(1, packets.len() as int);
        assert forall|i: int| 0 <= i < rest.len() implies packet_inside(#[trigger] rest[i], range) by {
            assert(rest[i] == packets[i + 1]);
        }
        lemma_single_range_identity(range, rest);
        let p = packets[0];
        assert(packet_inside(p, range));
        assert(v.ranges[v.current] == range);
        assert(step_spec(v, p) == (v, written_unchanged(p)));
        assert(run(v, packets) == seq![written_unchanged(p)] + run(v, rest));
        assert(run(v, packets) =~= expected);
    } else {
        assert(run(v, packets) =~= expected);
    }
}

/// Decides, packet by packet, what goes into the spliced container and with which
/// timestamps.
pub struct Splicer {
    ranges: Vec<TimeRange>,
    current: usize,
    offset: i64,
}

impl Splicer {
    #[verifier::type_invariant]
    spec fn well_formed(&self) -> bool {
        &&& ranges_ordered(spans(self.ranges@))
        &&& self.current <= self.ranges@.len()
        &&& self.offset >= 0
    }

    pub closed spec fn view(&self) -> SpliceView {
        SpliceView {
            ranges: spans(self.ranges@),
            current: self.current as int,
            offset: self.offset as int,
        }
    }

    /// A splicer at the first keep range, with no offset.
    pub fn new(ranges: Vec<TimeRange>) -> (r: Result<Splicer, SpliceError>)
        ensures
            r is Ok <==> ranges_ordered(spans(ranges@)),
            r is Ok ==> r->Ok_0.view() == (SpliceView { ranges: spans(ranges@), current: 0, offset: 0 }),
            r is Err ==> r->Err_0 == SpliceError::UnorderedRanges,
    {
        let n = ranges.len();
        let mut i: usize = 0;
        while i < n
            invariant
                n == ranges@.len(),
                i <= n,
                forall|k: int| 0 <= k < i ==> #[trigger] spans(ranges@)[k].0 <= spans(ranges@)[k].1,
                forall|k: int| 0 <= k < i && k < n - 1 ==> #[trigger] spans(ranges@)[k].1 <= spans(ranges@)[k + 1].0,
            decreases n - i,
        {
            if ranges[i].start > ranges[i].end {
                assert(spans(ranges@)[i as int].0 > spans(ranges@)[i as int].1);
                return Err(SpliceError::UnorderedRanges);
            }
            if i + 1 < n && ranges[i].end > ranges[i + 1].start {
                assert(spans(ranges@)[i as int].1 > spans(ranges@)[i + 1].0);
                return Err(SpliceError::UnorderedRanges);
            }
            i = i + 1;
        }
        Ok(Splicer { ranges, current: 0, offset: 0 })
    }
}

fn before_exec(ticks: i64, tb: TimeBase, bound: i64) -> (r: bool)
    requires
        tb.valid(),
    ensures
        r == before(ticks as int, tb, bound as int),
{
    let t: i128 = ticks as i128;
    let n: i128 = tb.num as i128;
    let d: i128 = tb.den as i128;
    let b: i128 = bound as i128;
    assert(-0x8000_0000_0000_0000 * 0x8000_0000 <= t * n <= 0x8000_0000_0000_0000 * 0x8000_0000)
        by (nonlinear_arith)
        requires
            -0x8000_0000_0000_0000 <= t <= 0x8000_0000_0000_0000,
            0 < n <= 0x8000_0000,
    ;
    assert(-0x8000_0000_0000_0000 * 0x8000_0000 <= b * d <= 0x8000_0000_0000_0000 * 0x8000_0000)
        by (nonlinear_arith)
        requires
            -0x8000_0000_0000_0000 <= b <= 0x8000_0000_0000_0000,
            0 < d <= 0x8000_0000,
    ;
    let tn: i128 = t * n;
    tn * 1_000_000 < b * d
}

fn gap_exec(prev_end: i64, next_start: i64, tb: TimeBase) -> (r: i128)
    requires
        tb.valid(),
        prev_end <= next_start,
    ensures
        r as int == gap_ticks(prev_end as int, next_start as int, tb),
        0 <= r <= 0x1_0000_0000_0000_0000 * 0x8000_0000,
{
    let g: u128 = (next_start as i128 - prev_end as i128) as u128;
    let d: u128 = tb.den as u128;
    let n: u128 = tb.num as u128;
    assert(g * d <= 0x1_0000_0000_0000_0000 * 0x8000_0000) by (nonlinear_arith)
        requires
            g <= 0x1_0000_0000_0000_0000,
            d <= 0x8000_0000,
    ;
    let gd: u128 = g * d;
    let unit: u128 = n * 1_000_000;
    let q: u128 = gd / unit;
    assert(q <= gd) by (nonlinear_arith)
        requires
            q == gd / unit,
            unit >= 1,
    ;
    q as i128
}

impl Splicer {
    /// Decides what to do with the next packet of the source container, and moves to the
    /// next keep range where the packet reaches the end of the current one.
    pub fn step(&mut self, p: &PacketTimes) -> (r: Result<Action, SpliceError>)
        ensures
            (final(self).view(), r) == step_spec(old(self).view(), *p),
    {
        proof {
            use_type_invariant(&*self);
        }
        if self.current >= self.ranges.len() {
            return Ok(Action::Finish);
        }
        let pts = match p.pts {
            Some(t) => t,
            None => {
                return Err(SpliceError::MissingPts);
            },
        };
        let dts = match p.dts {
            Some(t) => t,
            None => {
                return Err(SpliceError::MissingDts);
            },
        };
        let tb = p.time_base;
        if tb.num <= 0 || tb.den <= 0 {
            return Err(SpliceError::InvalidTimeBase);
        }
        let r = self.ranges[self.current];
        if before_exec(pts, tb, r.start) && before_exec(dts, tb, r.start) {
            return Ok(Action::Skip);
        }
        if before_exec(pts, tb, r.end) && before_exec(dts, tb, r.end) {
            return rebase(pts, dts, self.offset);
        }
        if self.current + 1 >= self.ranges.len() {
            self.current = self.current + 1;
            return Ok(Action::Finish);
        }
        let next = self.ranges[self.current + 1];
        assert(spans(self.ranges@)[self.current as int].1 <= spans(self.ranges@)[self.current + 1].0);
        let offset: i128 = self.offset as i128 + gap_exec(r.end, next.start, tb);
        if offset > i64::MAX as i128 {
            return Err(SpliceError::TimestampOutOfRange);
        }
        if before_exec(pts, tb, next.start) || !before_exec(pts, tb, next.end) {
            self.current = self.current + 1;
            self.offset = offset as i64;
            return Ok(Action::Skip);
        }
        let a = rebase(pts, dts, offset as i64);
        if a.is_ok() {
            self.current = self.current + 1;
            self.offset = offset as i64;
        }
        a
    }
}

fn rebase(pts: i64, dts: i64, offset: i64) -> (r: Result<Action, SpliceError>)
    ensures
        r == rebased(pts as int, dts as int, offset as int),
{
    let p: i128 = pts as i128 - offset as i128;
    let d: i128 = dts as i128 - offset as i128;
    if p < i64::MIN as i128 || p > i64::MAX as i128 || d < i64::MIN as i128 || d > i64::MAX as i128 {
        Err(SpliceError::TimestampOutOfRange)
    } else {
        Ok(Action::Write { pts: p as i64, dts: d as i64 })
    }
}

} // verus!
