use vstd::prelude::*;
use itertools::Itertools;

verus! {

/// A region of interest within a frame.
#[derive(Clone, Copy, Debug, PartialEq, Eq, Structural)]
pub struct Rect {
    pub x: i32,
    pub y: i32,
    pub width: i32,
    pub height: i32,
}

#[derive(Clone, Copy, Debug, PartialEq, Eq, Structural)]
pub enum RectError {
    /// A field is not a decimal 32-bit integer.
    InvalidNumber,
    /// The text does not hold exactly four fields.
    FieldCount,
}

/// The pieces of `s` between commas, as `str::split(',')` yields them.
pub open spec fn split_on_comma(s: Seq<char>) -> Seq<Seq<char>>
    decreases s.len(),
{
    if s.len() == 0 {
        seq![Seq::empty()]
    } else {
        let prev = split_on_comma(s.drop_last());
        if s.last() == ',' {
            prev.push(Seq::empty())
        } else {
            prev.update(prev.len() - 1, prev.last().push(s.last()))
        }
    }
}

pub open spec fn is_digit(c: char) -> bool {
    '0' <= c && c <= '9'
}

/// The value of a string of decimal digits.
pub open spec fn digits_value(s: Seq<char>) -> int
    decreases s.len(),
{
    if s.len() == 0 {
        0
    } else {
        digits_value(s.drop_last()) * 10 + (s.last() as int - '0' as int)
    }
}

/// The integer that `s` writes: an optional `+` or `-`, then one or more decimal digits.
pub open spec fn decimal_value(s: Seq<char>) -> Option<int> {
    let negative = s.len() > 0 && s[0] == '-';
    let body = if s.len() > 0 && (s[0] == '-' || s[0] == '+') { s.subrange(1, s.len() as int) } else { s };
    if body.len() > 0 && forall|i: int| 0 <= i < body.len() ==> is_digit(#[trigger] body[i]) {
        Some(if negative { -digits_value(body) } else { digits_value(body) })
    } else {
        None
    }
}

/// What `i32::from_str` makes of `s`.
pub open spec fn parsed_i32(s: Seq<char>) -> Option<i32> {
    match decimal_value(s) {
        Some(v) => if i32::MIN <= v <= i32::MAX { Some(v as i32) } else { None },
        None => None,
    }
}

/// `s` without its leading and trailing white space.
pub uninterp spec fn trimmed(s: Seq<char>) -> Seq<char>;

/// Every field of `pieces`, trimmed, is a decimal 32-bit integer.
pub open spec fn all_numbers(pieces: Seq<Seq<char>>) -> bool {
    forall|i: int| 0 <= i < pieces.len() ==> (#[trigger] parsed_i32(trimmed(pieces[i]))) is Some
}

/// The rectangle that `x,y,width,height` text describes.
pub open spec fn rect_of(s: Seq<char>) -> Result<Rect, RectError> {
    let pieces = split_on_comma(s);
    if !all_numbers(pieces) {
        Err(RectError::InvalidNumber)
    } else if pieces.len() != 4 {
        Err(RectError::FieldCount)
    } else {
        Ok(Rect {
            x: parsed_i32(trimmed(pieces[0]))->Some_0,
            y: parsed_i32(trimmed(pieces[1]))->Some_0,
            width: parsed_i32(trimmed(pieces[2]))->Some_0,
            height: parsed_i32(trimmed(pieces[3]))->Some_0,
        })
    }
}

/// Relies on `str::split` with a `char` pattern: the pieces between the commas, in order.
#[verifier::external_body]
fn split_commas(s: &str) -> (r: Vec<String>)
    ensures
        r@.map_values(|p: String| p@) == split_on_comma(s@),
{
    s.split(',').map(|p| p.to_string()).collect()
}

/// Relies on `str::trim`: the text without leading and trailing white space.
#[verifier::external_body]
fn trim_text(s: &str) -> (r: String)
    ensures
        r@ == trimmed(s@),
{
    s.trim().to_string()
}

/// Relies on `i32::from_str`: an optional sign and decimal digits, within the range of `i32`.
#[verifier::external_body]
fn parse_i32(s: &str) -> (r: Option<i32>)
    ensures
        r == parsed_i32(s@),
{
    <i32 as std::str::FromStr>::from_str(s).ok()
}

/// Relies on itertools' `collect_tuple`: `Some` exactly when there are four values, in order.
#[verifier::external_body]
fn four_values(v: Vec<i32>) -> (r: Option<(i32, i32, i32, i32)>)
    ensures
        r is Some <==> v@.len() == 4,
        r is Some ==> r->Some_0 == (v@[0], v@[1], v@[2], v@[3]),
{
    v.into_iter().collect_tuple()
}

/// Parses a region of interest written `x,y,width,height`, each field a decimal integer with
/// optional white space around it.
pub fn parse_rect(arg: &str) -> (r: Result<Rect, RectError>)
    ensures
        r == rect_of(arg@),
{
    let pieces = split_commas(arg);
    let ghost texts = pieces@.map_values(|p: String| p@);
    let mut values: Vec<i32> = Vec::new();
    let mut i: usize = 0;
    while i < pieces.len()
        invariant
            i <= pieces@.len(),
            texts == split_on_comma(arg@),
            texts == pieces@.map_values(|p: String| p@),
            values@.len() == i,
            forall|k: int| 0 <= k < i ==> parsed_i32(trimmed(#[trigger] texts[k])) == Some(values@[k]),
        decreases pieces@.len() - i,
    {
        let t = trim_text(pieces[i].as_str());
        match parse_i32(t.as_str()) {
            Some(n) => {
                values.push(n);
            },
            None => {
                assert(parsed_i32(trimmed(texts[i as int])) is None);
                assert(!all_numbers(texts));
                return Err(RectError::InvalidNumber);
            },
        }
        i = i + 1;
    }
    assert(all_numbers(texts));
    match four_values(values) {
        Some((x, y, width, height)) => Ok(Rect { x, y, width, height }),
        None => Err(RectError::FieldCount),
    }
}

} // verus!
