use vstd::prelude::*;

verus! {

/// Microseconds in one second: every time value of the library is a whole number of
/// microseconds.
pub const MICROS_PER_SECOND: i64 = 1_000_000;

/// A span of time `[start, end)` in microseconds.
#[derive(Clone, Copy, Debug, PartialEq, Eq, Structural)]
pub struct TimeRange {
    pub start: i64,
    pub end: i64,
}

/// The mathematical spans of a list of ranges.
pub open spec fn spans(v: Seq<TimeRange>) -> Seq<(int, int)> {
    v.map_values(|t: TimeRange| (t.start as int, t.end as int))
}

/// A frame rate of `num / den` frames per second.
#[derive(Clone, Copy, Debug, PartialEq, Eq, Structural)]
pub struct FrameRate {
    pub num: u32,
    pub den: u32,
}

impl FrameRate {
    pub open spec fn valid(&self) -> bool {
        self.num > 0 && self.den > 0
    }
}

/// A stream time base: one tick lasts `num / den` seconds.
#[derive(Clone, Copy, Debug, PartialEq, Eq, Structural)]
pub struct TimeBase {
    pub num: i32,
    pub den: i32,
}

impl TimeBase {
    pub open spec fn valid(&self) -> bool {
        self.num > 0 && self.den > 0
    }
}

/// The time at which frame `index` is shown, in microseconds, rounded down.
pub open spec fn frame_time_us(index: int, rate: FrameRate) -> int {
    index * rate.den * 1_000_000 / (rate.num as int)
}

/// The time of frame `index` in microseconds, as an `i64`.
/// `None` where it does not fit.
pub fn frame_time(index: usize, rate: FrameRate) -> (r: Option<i64>)
    requires
        rate.valid(),
    ensures
        r == (if frame_time_us(index as int, rate) <= i64::MAX {
            Some(frame_time_us(index as int, rate) as i64)
        } else {
            None::<i64>
        }),
{
    let a: u128 = index as u128;
    let b: u128 = rate.den as u128;
    assert(a * b <= 0xffff_ffff_ffff_ffffu128 * 0xffff_ffffu128) by (nonlinear_arith)
        requires a <= 0xffff_ffff_ffff_ffffu128, b <= 0xffff_ffffu128;
    let ab: u128 = a * b;
    assert(ab * 1_000_000 <= 0xffff_ffff_ffff_ffffu128 * 0xffff_ffffu128 * 1_000_000) by (nonlinear_arith)
        requires ab <= 0xffff_ffff_ffff_ffffu128 * 0xffff_ffffu128;
    let scaled: u128 = ab * 1_000_000;
    let t: u128 = scaled / (rate.num as u128);
    assert(t as int == frame_time_us(index as int, rate)) by (nonlinear_arith)
        requires t == scaled / (rate.num as u128), scaled == ab * 1_000_000, ab == a * b,
            a == index as int, b == rate.den as int;
    if t <= i64::MAX as u128 {
        Some(t as i64)
    } else {
        None
    }
}

} // verus!
