use s3_decrypt::record::{check_record, convert_from_str, value_fits, FieldKind, JsonError, RecordFault};

fn object_record(lat: &str, truckid: &str) -> String {
    format!(
        "{{\"date\":\"2020-01-01\",\"time\":\"10:00:00\",\"heading\":\"N\",\"lat\":{},\"lathemi\":\"N\",\
\"lon\":-97.5,\"lonhemi\":\"W\",\"truckid\":{},\"mph\":\"45\",\"gun1\":1,\"gun2\":2,\"gun3\":3,\"gun4\":4,\
\"gun5\":5,\"gun6\":6,\"gun7\":7,\"gun8\":-8,\"yellowmil\":\"1.5\",\"whitemil\":\"2.5\",\"beads\":\"yes\",\
\"project\":\"P1\",\"company\":\"M7\",\"region\":\"TX\"}}",
        lat, truckid
    )
}

fn array_record() -> String {
    "[\"2020-01-01\",\"10:00:00\",\"N\",35.2,\"N\",-97.5,\"W\",12,\"45\",1,2,3,4,5,6,7,8,\"1.5\",\"2.5\",\"yes\",\"P1\",\"M7\",\"TX\"]".to_string()
}

#[test]
fn empty_array_is_a_record_list() {
    assert!(convert_from_str("[]").is_ok());
    assert!(convert_from_str("  [ ]  ").is_ok());
}

#[test]
fn object_records_are_accepted() {
    let text = format!("[{},{}]", object_record("35.25", "12"), object_record("7", "-3"));
    assert!(convert_from_str(&text).is_ok());
}

#[test]
fn array_record_is_accepted() {
    let text = format!("[{}]", array_record());
    assert!(convert_from_str(&text).is_ok());
}

#[test]
fn extra_members_are_ignored() {
    let rec = object_record("1.0", "1");
    let with_extra = format!("[{}\"extra\":[1,{{\"a\":null}}],{}]", &rec[..1], &rec[1..]);
    assert!(convert_from_str(&with_extra).is_ok());
}

#[test]
fn syntax_error_is_reported() {
    assert!(matches!(convert_from_str("[{"), Err(JsonError::Syntax(_))));
    assert!(matches!(convert_from_str(""), Err(JsonError::Syntax(_))));
    assert!(matches!(convert_from_str("\0\0\0"), Err(JsonError::Syntax(_))));
}

#[test]
fn non_array_is_rejected() {
    assert!(matches!(convert_from_str("{}"), Err(JsonError::NotAnArray)));
    assert!(matches!(convert_from_str("42"), Err(JsonError::NotAnArray)));
    assert!(matches!(convert_from_str(&object_record("1", "1")), Err(JsonError::NotAnArray)));
}

#[test]
fn non_record_element_is_rejected() {
    let text = format!("[{},\"text\"]", object_record("1", "1"));
    assert!(matches!(
        convert_from_str(&text),
        Err(JsonError::BadRecord { index: 1, fault: RecordFault::NotARecord })
    ));
}

#[test]
fn missing_field_is_reported_by_position() {
    let rec = object_record("1", "1").replace("\"region\":\"TX\"", "\"regio\":\"TX\"");
    let text = format!("[{}]", rec);
    assert!(matches!(
        convert_from_str(&text),
        Err(JsonError::BadRecord { index: 0, fault: RecordFault::MissingField(22) })
    ));
}

#[test]
fn wrong_types_are_reported() {
    let text = format!("[{}]", object_record("\"35.2\"", "1"));
    assert!(matches!(
        convert_from_str(&text),
        Err(JsonError::BadRecord { index: 0, fault: RecordFault::WrongType(3) })
    ));
    let text = format!("[{}]", object_record("1", "1.5"));
    assert!(matches!(
        convert_from_str(&text),
        Err(JsonError::BadRecord { index: 0, fault: RecordFault::WrongType(7) })
    ));
    let text = format!("[{}]", object_record("1", "2147483648"));
    assert!(matches!(
        convert_from_str(&text),
        Err(JsonError::BadRecord { index: 0, fault: RecordFault::WrongType(7) })
    ));
}

#[test]
fn int32_bounds_are_inclusive() {
    assert!(convert_from_str(&format!("[{}]", object_record("1", "2147483647"))).is_ok());
    assert!(convert_from_str(&format!("[{}]", object_record("1", "-2147483648"))).is_ok());
    assert!(convert_from_str(&format!("[{}]", object_record("1", "-2147483649"))).is_err());
}

#[test]
fn short_array_record_is_rejected() {
    assert_eq!(check_record(b"[\"a\",\"b\"]", 0), Some(RecordFault::WrongLength(2)));
    assert_eq!(check_record(array_record().as_bytes(), 0), None);
    let long = array_record().replace("\"TX\"]", "\"TX\",1]");
    assert_eq!(check_record(long.as_bytes(), 0), Some(RecordFault::WrongLength(24)));
    assert_eq!(check_record(b"  {}", 0), Some(RecordFault::NotARecord));
}

#[test]
fn values_fit_their_kinds() {
    assert!(value_fits(FieldKind::Text, b"\"x\""));
    assert!(!value_fits(FieldKind::Text, b"1"));
    assert!(value_fits(FieldKind::Real, b"1e3"));
    assert!(value_fits(FieldKind::Real, b"-4"));
    assert!(!value_fits(FieldKind::Real, b"null"));
    assert!(value_fits(FieldKind::Int32, b"-0") == false);
    assert!(value_fits(FieldKind::Int32, b"0"));
    assert!(!value_fits(FieldKind::Int32, b"true"));
}

#[test]
fn repeated_field_is_rejected() {
    let rec = object_record("1", "1");
    let with_repeat = format!("[{}\"date\":\"again\",{}]", &rec[..1], &rec[1..]);
    assert!(matches!(
        convert_from_str(&with_repeat),
        Err(JsonError::BadRecord { index: 0, fault: RecordFault::DuplicateField(0) })
    ));
    let escaped_repeat = format!("[{}\"\\u0064ate\":\"again\",{}]", &rec[..1], &rec[1..]);
    assert!(matches!(
        convert_from_str(&escaped_repeat),
        Err(JsonError::BadRecord { index: 0, fault: RecordFault::DuplicateField(0) })
    ));
    let repeat_unknown = format!("[{}\"x\":1,\"x\":2,{}]", &rec[..1], &rec[1..]);
    assert!(convert_from_str(&repeat_unknown).is_ok());
}

#[test]
fn faults_come_in_text_order() {
    assert!(matches!(
        convert_from_str("[{\"region\":5}]"),
        Err(JsonError::BadRecord { index: 0, fault: RecordFault::WrongType(22) })
    ));
    assert!(matches!(
        convert_from_str("[{\"region\":\"TX\"}]"),
        Err(JsonError::BadRecord { index: 0, fault: RecordFault::MissingField(0) })
    ));
    assert!(matches!(
        convert_from_str("[[1]]"),
        Err(JsonError::BadRecord { index: 0, fault: RecordFault::WrongType(0) })
    ));
    assert!(matches!(
        convert_from_str("[[\"d\"]]"),
        Err(JsonError::BadRecord { index: 0, fault: RecordFault::WrongLength(1) })
    ));
}

#[test]
fn skipped_members_are_read_as_serde_skips_them() {
    let rec = object_record("1", "1");
    let big = format!("[{}\"extra\":1e400,{}]", &rec[..1], &rec[1..]);
    assert!(convert_from_str(&big).is_ok());
    let bad_known = format!("[{}]", object_record("1e400", "1"));
    assert!(matches!(
        convert_from_str(&bad_known),
        Err(JsonError::BadRecord { index: 0, fault: RecordFault::WrongType(3) })
    ));
}

#[test]
fn member_order_and_whitespace_do_not_matter() {
    let rec = object_record("2.5", "9");
    let inner = &rec[1..rec.len() - 1];
    let mut members: Vec<&str> = inner.split(',').collect();
    members.reverse();
    let reversed = format!("[ {{ {} }} ]", members.join(" ,\n "));
    assert!(convert_from_str(&reversed).is_ok());
    let spaced = format!("\n[\t{} , {} ]\r\n", rec, array_record());
    assert!(convert_from_str(&spaced).is_ok());
}

#[test]
fn strings_with_brackets_and_quotes_are_skipped_whole() {
    let rec = object_record("1", "1");
    let tricky = format!("[{}\"x\":\"a]}},\\\"{{[\",\"y\":[{{\"z\":\"]\"}}],{}]", &rec[..1], &rec[1..]);
    assert!(convert_from_str(&tricky).is_ok());
}
