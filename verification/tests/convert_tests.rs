use std::convert::TryFrom;

use gnitive_multipart::convert::{
    to_bool, to_bytes, to_i16, to_i32, to_i64, to_i8, to_text, to_u16, to_u32, to_u64, to_u8,
    unreadable,
};
use gnitive_multipart::process_content::{DefaultProcessor, NullProcessor};
use gnitive_multipart::record::{
    can_fail, convert, default_value, record_error, BaseKind, ConversionError, FieldDescriptor,
    FieldProcessor, Record, RecordedError, Scalar, TargetKind, Value,
};
use gnitive_multipart::{
    Headers, MultipartParseError, MultipartParserTarget, MultipartParserTargetGenerated, OnError,
    ProcessContent, ProcessParams, ToMultipartParseError,
};

fn holding(raw: &[u8]) -> DefaultProcessor {
    let mut p = DefaultProcessor::new(ProcessParams::new("f", None));
    p.open();
    p.write(&raw.to_vec());
    p.flush();
    p
}

#[test]
fn default_processor_gathers_what_it_is_given() {
    let mut p = DefaultProcessor::new(ProcessParams::new("name", Some(7)));
    assert!(!p.is_done());
    assert!(p.raw_data().is_empty());
    assert_eq!(p.get_process_params().name, "name");
    assert_eq!(p.get_process_params().max_size, Some(7));
    p.open();
    p.write(&b"ab".to_vec());
    p.write(&b"".to_vec());
    p.write(&b"cde".to_vec());
    assert!(!p.is_done());
    p.flush();
    assert!(p.is_done());
    assert_eq!(p.raw_data(), &b"abcde".to_vec());
    // opening again after the end starts afresh
    p.open();
    assert!(!p.is_done());
    assert!(p.raw_data().is_empty());
    // opening a sink that has not ended keeps what it holds
    p.write(&b"x".to_vec());
    p.open();
    assert_eq!(p.raw_data(), &b"x".to_vec());
}

#[test]
fn null_processor_declares_nothing() {
    let p = NullProcessor::new();
    let params = <NullProcessor as ProcessContent<Record>>::get_process_params(&p);
    assert_eq!(params.name, "");
    assert_eq!(params.max_size, None);
}

#[test]
fn process_params_hold_name_and_limit() {
    let p = ProcessParams::new("file", Some(1073741824));
    assert_eq!(p.name, "file");
    assert_eq!(p.max_size, Some(1073741824));
    assert_eq!(ProcessParams::new("", None).max_size, None);
}

#[test]
fn bytes_are_taken_as_they_are() {
    assert_eq!(to_bytes(&holding(b"\xff\x00\r\n")), b"\xff\x00\r\n".to_vec());
    assert_eq!(to_bytes(&holding(b"")), Vec::<u8>::new());
}

#[test]
fn text_must_be_utf8() {
    assert_eq!(to_text(&holding("caf\u{e9}".as_bytes())).unwrap(), "caf\u{e9}");
    assert_eq!(to_text(&holding(b"")).unwrap(), "");
    assert!(to_text(&holding(b"\xff")).is_err());
    assert!(to_text(&holding(b"\xc3")).is_err());
}

#[test]
fn truth_values_are_true_and_false_only() {
    assert_eq!(to_bool(&holding(b"true")), Ok(true));
    assert_eq!(to_bool(&holding(b"false")), Ok(false));
    for bad in [&b"True"[..], b"1", b"", b" true", b"false ", b"\xff"] {
        assert!(to_bool(&holding(bad)).is_err());
    }
}

#[test]
fn signed_numbers() {
    assert_eq!(to_i8(&holding(b"-128")), Ok(-128));
    assert_eq!(to_i8(&holding(b"127")), Ok(127));
    assert_eq!(to_i8(&holding(b"+7")), Ok(7));
    assert_eq!(to_i8(&holding(b"-0")), Ok(0));
    assert_eq!(to_i8(&holding(b"007")), Ok(7));
    assert!(to_i8(&holding(b"128")).is_err());
    assert!(to_i8(&holding(b"-129")).is_err());
    assert_eq!(to_i16(&holding(b"-32768")), Ok(i16::MIN));
    assert!(to_i16(&holding(b"32768")).is_err());
    assert_eq!(to_i32(&holding(b"42")), Ok(42));
    assert_eq!(to_i32(&holding(b"2147483647")), Ok(i32::MAX));
    assert!(to_i32(&holding(b"2147483648")).is_err());
    assert_eq!(to_i64(&holding(b"-9223372036854775808")), Ok(i64::MIN));
    assert!(to_i64(&holding(b"9223372036854775808")).is_err());
    for bad in [&b""[..], b"+", b"-", b"--1", b"+-1", b" 1", b"1 ", b"1_000", b"0x10", b"1.0", b"\xff", b"\xd9\xa1"] {
        assert!(to_i32(&holding(bad)).is_err(), "{:?}", bad);
    }
}

#[test]
fn unsigned_numbers() {
    assert_eq!(to_u8(&holding(b"255")), Ok(255));
    assert_eq!(to_u8(&holding(b"+0")), Ok(0));
    assert!(to_u8(&holding(b"256")).is_err());
    assert!(to_u8(&holding(b"-0")).is_err());
    assert!(to_u8(&holding(b"-1")).is_err());
    assert_eq!(to_u16(&holding(b"65535")), Ok(u16::MAX));
    assert!(to_u16(&holding(b"65536")).is_err());
    assert_eq!(to_u32(&holding(b"4294967295")), Ok(u32::MAX));
    assert!(to_u32(&holding(b"4294967296")).is_err());
    assert_eq!(to_u64(&holding(b"18446744073709551615")), Ok(u64::MAX));
    assert!(to_u64(&holding(b"18446744073709551616")).is_err());
    assert!(to_u64(&holding(b"")).is_err());
}

#[test]
fn unreadable_is_no_number_and_no_truth_value() {
    assert!(unreadable().parse::<i64>().is_err());
    assert!(unreadable().parse::<u64>().is_err());
    assert!(unreadable().parse::<bool>().is_err());
}

#[test]
fn conversion_by_kind() {
    let p = holding(b"12");
    let plain = |base| TargetKind { base, optional: false };
    let optional = |base| TargetKind { base, optional: true };
    assert!(matches!(convert(plain(BaseKind::U8), &p), Ok(Value::Plain(Scalar::U8(12)))));
    assert!(matches!(convert(optional(BaseKind::U8), &p), Ok(Value::Optional(Some(Scalar::U8(12))))));
    assert!(matches!(convert(plain(BaseKind::I64), &p), Ok(Value::Plain(Scalar::I64(12)))));
    assert!(matches!(convert(plain(BaseKind::Text), &p), Ok(Value::Plain(Scalar::Text(s))) if s == "12"));
    assert!(matches!(convert(optional(BaseKind::Bytes), &p), Ok(Value::Optional(Some(Scalar::Bytes(v)))) if v == b"12"));
    assert!(matches!(convert(plain(BaseKind::Bool), &p), Err(ConversionError::Bool(_))));
    let q = holding(b"\xff");
    assert!(matches!(convert(plain(BaseKind::Text), &q), Err(ConversionError::Str(_))));
    assert!(matches!(convert(optional(BaseKind::I16), &q), Err(ConversionError::Int(_))));
    assert!(matches!(convert(plain(BaseKind::Bool), &q), Err(ConversionError::Bool(_))));
    assert!(matches!(convert(plain(BaseKind::Bytes), &q), Ok(Value::Plain(Scalar::Bytes(v))) if v == b"\xff"));
    let t = holding(b"true");
    assert!(matches!(convert(optional(BaseKind::Bool), &t), Ok(Value::Optional(Some(Scalar::Bool(true))))));
}

#[test]
fn defaults_by_kind() {
    assert!(matches!(default_value(TargetKind { base: BaseKind::I32, optional: true }), Value::Optional(None)));
    assert!(matches!(default_value(TargetKind { base: BaseKind::I32, optional: false }), Value::Plain(Scalar::I32(0))));
    assert!(matches!(default_value(TargetKind { base: BaseKind::Bool, optional: false }), Value::Plain(Scalar::Bool(false))));
    assert!(matches!(default_value(TargetKind { base: BaseKind::Text, optional: false }), Value::Plain(Scalar::Text(s)) if s.is_empty()));
    assert!(matches!(default_value(TargetKind { base: BaseKind::Bytes, optional: false }), Value::Plain(Scalar::Bytes(v)) if v.is_empty()));
    assert!(matches!(default_value(TargetKind { base: BaseKind::U64, optional: false }), Value::Plain(Scalar::U64(0))));
}

#[test]
fn causes_become_errors() {
    let raw = b"zz".to_vec();
    let int_error = "zz".parse::<i32>().unwrap_err();
    match int_error.to_multipart_parse_error("n".to_string(), &raw) {
        MultipartParseError::ParseIntError(name, data, cause) => {
            assert_eq!(name, "n");
            assert_eq!(data, &raw);
            assert_eq!(cause, &int_error);
        }
        _ => panic!("wrong variant"),
    }
    let bool_error = "zz".parse::<bool>().unwrap_err();
    assert!(matches!(
        bool_error.to_multipart_parse_error("b".to_string(), &raw),
        MultipartParseError::ParseBoolError(name, data, _) if name == "b" && data == &raw
    ));
    let float_error = "zz".parse::<f64>().unwrap_err();
    assert!(matches!(
        float_error.to_multipart_parse_error("f".to_string(), &raw),
        MultipartParseError::ParseFloatError(name, data, _) if name == "f" && data == &raw
    ));
    let str_error = String::from_utf8(vec![0xff]).unwrap_err();
    assert!(matches!(
        str_error.to_multipart_parse_error("s".to_string(), &raw),
        MultipartParseError::ParseStrError(name, _) if name == "s"
    ));
}

#[test]
fn recorded_errors_keep_all_but_the_cause() {
    let names = vec!["a".to_string(), "b".to_string()];
    assert!(matches!(record_error(&MultipartParseError::RequiredMissing(&names)), RecordedError::RequiredMissing(v) if v == names));
    assert!(matches!(record_error(&MultipartParseError::SizeLimit("p".to_string(), 9)), RecordedError::SizeLimit(n, 9) if n == "p"));
    assert!(matches!(record_error(&MultipartParseError::NoError), RecordedError::NoError));
    assert!(matches!(record_error(&MultipartParseError::MalformedHeader("x".to_string())), RecordedError::MalformedHeader(l) if l == "x"));
    let raw = b"1.5x".to_vec();
    let cause = "1.5x".parse::<f32>().unwrap_err();
    assert!(matches!(
        record_error(&MultipartParseError::ParseFloatError("f".to_string(), &raw, &cause)),
        RecordedError::ParseFloatError(n, r) if n == "f" && r == raw
    ));
}

#[test]
fn record_fields_and_values() {
    let mut record = Record::new();
    let a = record.add_field("a", TargetKind { base: BaseKind::U16, optional: false }, true, Some(5));
    let b = record.add_field("b", TargetKind { base: BaseKind::Text, optional: true }, false, None);
    assert_eq!((a, b), (0, 1));
    assert_eq!(record.fields().len(), 2);
    assert_eq!(record.fields()[0].field_id, 0);
    assert_eq!(record.fields()[0].part_name, "a");
    assert_eq!(record.fields()[0].max_size, Some(5));
    assert!(record.fields()[0].required);
    assert_eq!(record.fields()[1].field_id, 1);
    assert!(matches!(record.get(a), Some(Value::Plain(Scalar::U16(0)))));
    assert!(matches!(record.get(b), Some(Value::Optional(None))));
    assert!(record.get(2).is_none());
    record.store(a, Value::Plain(Scalar::U16(9)));
    record.store(7, Value::Plain(Scalar::U16(1)));
    assert!(matches!(record.get(a), Some(Value::Plain(Scalar::U16(9)))));
    assert!(matches!(record.get(b), Some(Value::Optional(None))));
    assert_eq!(record.get_all_required(), vec!["a".to_string()]);
    assert_eq!(record.find_field(&"b".to_string()), Some(1));
    assert_eq!(record.find_field(&"c".to_string()), None);
    assert!(!record.is_finished());
    record.finish();
    assert!(record.is_finished());
}

#[test]
fn record_answers_as_it_was_set() {
    let mut record = Record::new();
    let e = MultipartParseError::SizeLimit("p".to_string(), 1);
    assert!(matches!(record.error(&e), Ok(OnError::ContinueWithoutError)));
    record.set_answer(OnError::Skip);
    assert!(matches!(record.error(&e), Ok(OnError::Skip)));
    record.set_answer(OnError::ContinueWithError);
    assert!(matches!(record.error(&e), Ok(OnError::ContinueWithError)));
    assert_eq!(record.errors().len(), 3);
}

#[test]
fn record_selects_the_first_field_of_the_name() {
    let mut record = Record::new();
    record.add_field("x", TargetKind { base: BaseKind::U8, optional: false }, false, Some(1));
    record.add_field("x", TargetKind { base: BaseKind::Text, optional: false }, false, Some(2));
    let headers = Headers::new(&vec!["Content-Disposition: form-data; name=\"x\"".to_string()]);
    let sink = record.content_parser_generated(&headers).unwrap();
    assert_eq!(sink.get_process_params().name, "x");
    assert_eq!(sink.get_process_params().max_size, Some(1));
    let other = Headers::new(&vec!["Content-Disposition: form-data; name=\"y\"".to_string()]);
    assert!(record.content_parser_generated(&other).is_none());
    let nameless = Headers::new(&vec!["Content-Type: text/plain".to_string()]);
    assert!(record.content_parser_generated(&nameless).is_none());
    assert!(record.content_parser(&headers).is_none());
}

#[test]
fn bytes_field_holds_the_writes_joined() {
    let mut record = Record::new();
    let id = record.add_field("f", TargetKind { base: BaseKind::Bytes, optional: false }, false, None);
    let headers = Headers::new(&vec![]);
    let field = FieldDescriptor {
        field_id: id,
        part_name: "f".to_string(),
        target_kind: TargetKind { base: BaseKind::Bytes, optional: false },
        required: false,
        max_size: None,
    };
    let mut sink = FieldProcessor::new(&field);
    sink.open(&headers);
    sink.write(&headers, &b"ab".to_vec());
    sink.write(&headers, &b"\r\n".to_vec());
    sink.write(&headers, &b"c".to_vec());
    assert_eq!(sink.raw_data(), &b"ab\r\nc".to_vec());
    sink.flush(&headers, &mut record);
    assert!(matches!(record.get(id), Some(Value::Plain(Scalar::Bytes(v))) if v == b"ab\r\nc"));
    // the sink of another part of the same field starts afresh
    sink.open(&headers);
    sink.write(&headers, &b"z".to_vec());
    sink.flush(&headers, &mut record);
    assert!(matches!(record.get(id), Some(Value::Plain(Scalar::Bytes(v))) if v == b"z"));
    assert!(record.errors().is_empty());
}

#[test]
fn failed_conversion_tells_the_record_and_keeps_the_field() {
    let mut record = Record::new();
    let id = record.add_field("t", TargetKind { base: BaseKind::Text, optional: false }, false, None);
    record.store(id, Value::Plain(Scalar::Text("before".to_string())));
    let headers = Headers::new(&vec![]);
    let mut sink = FieldProcessor::new(&record.fields()[id]);
    sink.open(&headers);
    sink.write(&headers, &vec![0xff, 0xfe]);
    sink.flush(&headers, &mut record);
    assert!(matches!(record.get(id), Some(Value::Plain(Scalar::Text(s))) if s == "before"));
    assert_eq!(record.errors().len(), 1);
    assert!(matches!(&record.errors()[0], RecordedError::ParseStrError(name) if name == "t"));

    let b = record.add_field("b", TargetKind { base: BaseKind::Bool, optional: true }, false, None);
    let mut sink = FieldProcessor::new(&record.fields()[b]);
    sink.open(&headers);
    sink.write(&headers, &b"yes".to_vec());
    sink.flush(&headers, &mut record);
    assert!(matches!(record.get(b), Some(Value::Optional(None))));
    assert!(matches!(&record.errors()[1], RecordedError::ParseBoolError(name, raw) if name == "b" && raw == b"yes"));
}

#[test]
fn try_from_a_reference() {
    let p = holding(b"42");
    assert_eq!(i32::try_from(&p), Ok(42));
    assert_eq!(Option::<i32>::try_from(&p), Ok(Some(42)));
    assert_eq!(u8::try_from(&p), Ok(42));
    assert_eq!(Option::<u64>::try_from(&p), Ok(Some(42)));
    assert_eq!(i8::try_from(&p), Ok(42));
    assert_eq!(i16::try_from(&p), Ok(42));
    assert_eq!(i64::try_from(&p), Ok(42));
    assert_eq!(u16::try_from(&p), Ok(42));
    assert_eq!(u32::try_from(&p), Ok(42));
    assert_eq!(String::try_from(&p).unwrap(), "42");
    assert_eq!(Option::<String>::try_from(&p).unwrap(), Some("42".to_string()));
    assert_eq!(Vec::<u8>::try_from(&p).unwrap(), b"42".to_vec());
    assert_eq!(Option::<Vec<u8>>::try_from(&p).unwrap(), Some(b"42".to_vec()));
    assert!(bool::try_from(&p).is_err());
    assert!(Option::<bool>::try_from(&p).is_err());
    let q = holding(b"300");
    assert!(u8::try_from(&q).is_err());
    assert!(Option::<i8>::try_from(&q).is_err());
    assert_eq!(Option::<u16>::try_from(&q), Ok(Some(300)));
    let t = holding(b"false");
    assert_eq!(bool::try_from(&t), Ok(false));
    assert_eq!(Option::<bool>::try_from(&t), Ok(Some(false)));
    let bad = holding(b"\xff");
    assert!(String::try_from(&bad).is_err());
    assert!(Option::<String>::try_from(&bad).is_err());
    assert!(i64::try_from(&bad).is_err());
    assert_eq!(Vec::<u8>::try_from(&bad).unwrap(), vec![0xffu8]);
}

#[test]
fn try_from_a_value() {
    assert_eq!(i32::try_from(holding(b"-7")), Ok(-7));
    assert_eq!(Option::<i64>::try_from(holding(b"+7")), Ok(Some(7)));
    assert_eq!(u32::try_from(holding(b"7")), Ok(7));
    assert!(u32::try_from(holding(b"-7")).is_err());
    assert_eq!(bool::try_from(holding(b"true")), Ok(true));
    assert_eq!(String::try_from(holding(b"x")).unwrap(), "x");
    assert_eq!(Option::<Vec<u8>>::try_from(holding(b"")).unwrap(), Some(vec![]));
    assert_eq!(Vec::<u8>::try_from(holding(b"ab")).unwrap(), b"ab".to_vec());
}

#[test]
fn utf8_at_its_edges() {
    assert!(to_text(&holding(b"\xc0\x80")).is_err());
    assert!(to_text(&holding(b"\xe0\x80\x80")).is_err());
    assert!(to_text(&holding(b"\xed\xa0\x80")).is_err());
    assert!(to_text(&holding(b"\xf4\x90\x80\x80")).is_err());
    assert!(to_text(&holding(b"\xf8\x88\x80\x80\x80")).is_err());
    assert!(to_text(&holding(b"\x80")).is_err());
    assert_eq!(to_text(&holding(b"\xf4\x8f\xbf\xbf")).unwrap(), "\u{10ffff}");
    assert_eq!(to_text(&holding(b"\xed\x9f\xbf\xee\x80\x80")).unwrap(), "\u{d7ff}\u{e000}");
    assert_eq!(to_text(&holding(b"\xc2\x80\xe0\xa0\x80\xf0\x90\x80\x80")).unwrap(), "\u{80}\u{800}\u{10000}");
}

#[test]
fn only_bytes_cannot_fail() {
    assert!(!can_fail(TargetKind { base: BaseKind::Bytes, optional: false }));
    assert!(!can_fail(TargetKind { base: BaseKind::Bytes, optional: true }));
    for base in [BaseKind::Text, BaseKind::Bool, BaseKind::I8, BaseKind::I16, BaseKind::I32, BaseKind::I64, BaseKind::U8, BaseKind::U16, BaseKind::U32, BaseKind::U64] {
        assert!(can_fail(TargetKind { base, optional: false }));
        assert!(can_fail(TargetKind { base, optional: true }));
        assert!(convert(TargetKind { base, optional: false }, &holding(b"\xff")).is_err());
    }
}
