use video_scrubber::rect::{parse_rect, Rect, RectError};

#[test]
fn parses_four_fields() {
    assert_eq!(parse_rect("10,20,300,400"), Ok(Rect { x: 10, y: 20, width: 300, height: 400 }));
}

#[test]
fn fields_are_trimmed() {
    assert_eq!(parse_rect(" 1 , 2,\t3 ,4 "), Ok(Rect { x: 1, y: 2, width: 3, height: 4 }));
}

#[test]
fn signs_are_accepted() {
    assert_eq!(parse_rect("+5,-6,7,-2147483648"), Ok(Rect { x: 5, y: -6, width: 7, height: i32::MIN }));
}

#[test]
fn wrong_field_counts_are_refused() {
    assert_eq!(parse_rect("1,2,3"), Err(RectError::FieldCount));
    assert_eq!(parse_rect("1,2,3,4,5"), Err(RectError::FieldCount));
}

#[test]
fn bad_numbers_are_refused() {
    assert_eq!(parse_rect("1,a,3,4"), Err(RectError::InvalidNumber));
    assert_eq!(parse_rect("1,2,3,2147483648"), Err(RectError::InvalidNumber));
    assert_eq!(parse_rect("1,,3,4"), Err(RectError::InvalidNumber));
    assert_eq!(parse_rect(""), Err(RectError::InvalidNumber));
    assert_eq!(parse_rect("1,2,x"), Err(RectError::InvalidNumber));
}
