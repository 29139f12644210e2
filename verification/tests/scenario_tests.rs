use gnitive_multipart::multipart_parser::{
    malformed_header_error, size_limit_error, MultipartParser, MultipartParserState, WriteError,
};
use gnitive_multipart::{Headers, MultipartParseError};
use gnitive_multipart::record::{
    BaseKind, Record, RecordedError, Scalar, TargetKind, Value,
};
use gnitive_multipart::OnError;

fn plain(base: BaseKind) -> TargetKind {
    TargetKind { base, optional: false }
}

fn optional(base: BaseKind) -> TargetKind {
    TargetKind { base, optional: true }
}

fn run(record: &mut Record, input: &[u8]) -> MultipartParser<Record> {
    let mut parser: MultipartParser<Record> = MultipartParser::new_from_str("X", record);
    let n = parser.write(record, input);
    assert!(matches!(n, Ok(len) if len == input.len()));
    assert!(parser.flush(record).is_ok());
    parser
}

fn text_of(record: &Record, id: usize) -> String {
    match record.get(id) {
        Some(Value::Plain(Scalar::Text(s))) => s.clone(),
        other => panic!("no text in field {}: {:?}", id, other),
    }
}

fn bytes_of(record: &Record, id: usize) -> Vec<u8> {
    match record.get(id) {
        Some(Value::Plain(Scalar::Bytes(v))) => v.clone(),
        other => panic!("no bytes in field {}: {:?}", id, other),
    }
}

#[test]
fn single_string_part() {
    let mut record = Record::new();
    let s = record.add_field("s", plain(BaseKind::Text), false, None);
    let input = b"--X\r\nContent-Disposition: form-data; name=\"s\"\r\n\r\nhello\r\n--X--";
    let parser = run(&mut record, input);
    assert_eq!(parser.state(), MultipartParserState::Finished);
    assert_eq!(text_of(&record, s), "hello");
    assert!(record.errors().is_empty());
    assert!(record.is_finished());
}

#[test]
fn two_parts_one_file() {
    let mut record = Record::new();
    let i = record.add_field("i", plain(BaseKind::I32), false, None);
    let f = record.add_field("f", plain(BaseKind::Bytes), false, None);
    let input = b"--X\r\nContent-Disposition: form-data; name=\"i\"\r\n\r\n42\r\n--X\r\nContent-Disposition: form-data; name=\"f\"; filename=\"a.bin\"\r\n\r\n\x00\x01\x02\r\n--X--";
    run(&mut record, input);
    assert!(matches!(record.get(i), Some(Value::Plain(Scalar::I32(42)))));
    assert_eq!(bytes_of(&record, f), vec![0x00u8, 0x01, 0x02]);
    assert!(record.errors().is_empty());
}

#[test]
fn missing_required() {
    let mut record = Record::new();
    record.add_field("p", plain(BaseKind::Text), false, None);
    record.add_field("q", plain(BaseKind::Text), true, None);
    let input = b"--X\r\nContent-Disposition: form-data; name=\"p\"\r\n\r\nvalue\r\n--X--";
    let parser = run(&mut record, input);
    assert_eq!(parser.missing_required(), &vec!["q".to_string()]);
    assert_eq!(record.errors().len(), 1);
    match &record.errors()[0] {
        RecordedError::RequiredMissing(names) => assert_eq!(names, &vec!["q".to_string()]),
        other => panic!("unexpected error {:?}", other),
    }
}

#[test]
fn required_part_present_is_not_missing() {
    let mut record = Record::new();
    record.add_field("p", plain(BaseKind::Text), true, None);
    let input = b"--X\r\nContent-Disposition: form-data; name=\"p\"\r\n\r\nvalue\r\n--X--";
    let parser = run(&mut record, input);
    assert!(parser.missing_required().is_empty());
    assert!(record.errors().is_empty());
    assert!(record.is_finished());
}

#[test]
fn size_limit_with_continue_silent() {
    let mut record = Record::new();
    let p = record.add_field("p", plain(BaseKind::Text), false, Some(3));
    record.set_answer(OnError::ContinueWithoutError);
    let input = b"--X\r\nContent-Disposition: form-data; name=\"p\"\r\n\r\nabcdef\r\n--X--";
    run(&mut record, input);
    assert_eq!(record.errors().len(), 1);
    match &record.errors()[0] {
        RecordedError::SizeLimit(name, limit) => {
            assert_eq!(name, "p");
            assert_eq!(*limit, 3);
        }
        other => panic!("unexpected error {:?}", other),
    }
    assert_eq!(text_of(&record, p), "abcdef");
}

#[test]
fn size_limit_with_continue_with_error_fires_once() {
    let mut record = Record::new();
    let p = record.add_field("p", plain(BaseKind::Text), false, Some(3));
    record.set_answer(OnError::ContinueWithError);
    let input = b"--X\r\nContent-Disposition: form-data; name=\"p\"\r\n\r\nabcdef\r\n--X--";
    run(&mut record, input);
    assert_eq!(record.errors().len(), 1);
    assert_eq!(text_of(&record, p), "abcdef");
}

#[test]
fn size_limit_with_skip() {
    let mut record = Record::new();
    let p = record.add_field("p", plain(BaseKind::Bytes), false, Some(3));
    record.set_answer(OnError::Skip);
    let input = b"--X\r\nContent-Disposition: form-data; name=\"p\"\r\n\r\nabcdef\r\n--X--";
    run(&mut record, input);
    assert_eq!(record.errors().len(), 1);
    assert!(matches!(&record.errors()[0], RecordedError::SizeLimit(name, 3) if name == "p"));
    let stored = bytes_of(&record, p);
    assert!(stored.len() <= 3);
    assert_eq!(stored, b"abc".to_vec());
}

#[test]
fn size_limit_not_reached_reports_nothing() {
    let mut record = Record::new();
    let p = record.add_field("p", plain(BaseKind::Text), false, Some(6));
    record.set_answer(OnError::Skip);
    let input = b"--X\r\nContent-Disposition: form-data; name=\"p\"\r\n\r\nabcdef\r\n--X--";
    run(&mut record, input);
    assert!(record.errors().is_empty());
    assert_eq!(text_of(&record, p), "abcdef");
}

#[test]
fn invalid_integer() {
    let mut record = Record::new();
    let n = record.add_field("n", plain(BaseKind::I32), false, None);
    let input = b"--X\r\nContent-Disposition: form-data; name=\"n\"\r\n\r\nnot-a-number\r\n--X--";
    run(&mut record, input);
    assert_eq!(record.errors().len(), 1);
    match &record.errors()[0] {
        RecordedError::ParseIntError(name, raw) => {
            assert_eq!(name, "n");
            assert_eq!(raw, &b"not-a-number".to_vec());
        }
        other => panic!("unexpected error {:?}", other),
    }
    assert!(matches!(record.get(n), Some(Value::Plain(Scalar::I32(0)))));
}

#[test]
fn invalid_integer_keeps_earlier_value() {
    let mut record = Record::new();
    let n = record.add_field("n", optional(BaseKind::I32), false, None);
    let input = b"--X\r\nContent-Disposition: form-data; name=\"n\"\r\n\r\n17\r\n--X\r\nContent-Disposition: form-data; name=\"n\"\r\n\r\n1x\r\n--X--";
    run(&mut record, input);
    assert_eq!(record.errors().len(), 1);
    assert!(matches!(record.get(n), Some(Value::Optional(Some(Scalar::I32(17))))));
}

#[test]
fn malformed_first_boundary_is_refused() {
    let mut record = Record::new();
    record.add_field("s", plain(BaseKind::Text), false, None);
    let mut parser: MultipartParser<Record> = MultipartParser::new_from_str("X", &record);
    let r = parser.write(&mut record, b"--Y\r\n");
    match r {
        Err(WriteError::InvalidFirstBoundary { symbol, position }) => {
            assert_eq!(symbol, b'Y');
            assert_eq!(position, 2);
        }
        _ => panic!("the stream must be refused"),
    }
    assert_eq!(parser.state(), MultipartParserState::BoundaryFirst);
}

#[test]
fn preamble_is_refused() {
    let mut record = Record::new();
    let mut parser: MultipartParser<Record> = MultipartParser::new_from_vec(b"X".to_vec(), &record);
    let r = parser.write(&mut record, b"\r\n--X\r\n");
    assert!(matches!(r, Err(WriteError::InvalidFirstBoundary { symbol: b'\r', position: 0 })));
}

#[test]
fn unbound_part_is_passed_over() {
    let mut record = Record::new();
    let s = record.add_field("s", plain(BaseKind::Text), false, None);
    let input = b"--X\r\nContent-Disposition: form-data; name=\"other\"\r\n\r\nignored\r\n--X\r\nContent-Disposition: form-data; name=\"s\"\r\n\r\nkept\r\n--X--";
    run(&mut record, input);
    assert_eq!(text_of(&record, s), "kept");
    assert!(record.errors().is_empty());
}

#[test]
fn malformed_header_is_reported_and_part_dropped() {
    let mut record = Record::new();
    let s = record.add_field("s", plain(BaseKind::Text), true, None);
    let input = b"--X\r\nContent-Disposition: form-data; name=\"s\"\r\nDate: 12:30\r\n\r\nhello\r\n--X--";
    let parser = run(&mut record, input);
    assert_eq!(text_of(&record, s), "");
    assert_eq!(record.errors().len(), 2);
    assert!(matches!(&record.errors()[0], RecordedError::MalformedHeader(line) if line == "Date: 12:30"));
    assert!(matches!(&record.errors()[1], RecordedError::RequiredMissing(names) if names == &vec!["s".to_string()]));
    assert_eq!(parser.missing_required().len(), 1);
}

#[test]
fn bytes_after_the_end_are_ignored() {
    let mut record = Record::new();
    let s = record.add_field("s", plain(BaseKind::Text), false, None);
    let input = b"--X\r\nContent-Disposition: form-data; name=\"s\"\r\n\r\nhello\r\n--X--\r\nepilogue --X\r\n";
    let parser = run(&mut record, input);
    assert_eq!(parser.state(), MultipartParserState::Finished);
    assert_eq!(text_of(&record, s), "hello");
}

#[test]
fn errors_that_the_parser_tells() {
    assert!(matches!(
        size_limit_error("p".to_string(), 3),
        MultipartParseError::SizeLimit(name, 3) if name == "p"
    ));
    assert!(matches!(
        malformed_header_error("Date: 12:30".to_string()),
        MultipartParseError::MalformedHeader(line) if line == "Date: 12:30"
    ));
}

#[test]
fn headers_stand_in_the_order_of_their_lines() {
    let v: Vec<String> = vec![
        "B: 2".to_string(),
        "broken".to_string(),
        "A: 1; x=y".to_string(),
        "B: 3".to_string(),
    ];
    let headers = Headers::new(&v);
    let names: Vec<&str> = headers.headers.iter().map(|h| h.name.as_str()).collect();
    assert_eq!(names, vec!["B", "A", "B"]);
    assert_eq!(headers.headers[2].value, "3");
    assert_eq!(headers.headers[1].fields, vec![("x".to_string(), "y".to_string())]);
}

#[test]
fn size_limit_is_told_with_the_name_that_the_sink_declares() {
    let mut record = Record::new();
    record.add_field("upload", plain(BaseKind::Bytes), false, Some(2));
    record.set_answer(OnError::ContinueWithError);
    let input = b"--X\r\nContent-Disposition: form-data; name=\"upload\"\r\n\r\nabc\r\n--X\r\nContent-Disposition: form-data; name=\"upload\"\r\n\r\nde\r\n--X--";
    run(&mut record, input);
    assert_eq!(record.errors().len(), 1);
    assert!(matches!(&record.errors()[0], RecordedError::SizeLimit(name, 2) if name == "upload"));
    assert_eq!(bytes_of(&record, 0), b"de".to_vec());
}

#[test]
fn nothing_is_told_after_the_end_or_before_the_first_part() {
    let mut record = Record::new();
    record.add_field("s", plain(BaseKind::Text), true, None);
    let mut parser: MultipartParser<Record> = MultipartParser::new_from_str("X", &record);
    assert!(parser.write(&mut record, b"--").is_ok());
    assert!(record.errors().is_empty());
    assert!(!record.is_finished());
    assert!(parser.write(&mut record, b"X\r\nContent-Disposition: form-data; name=\"s\"\r\n\r\nv\r\n--X--").is_ok());
    assert_eq!(text_of(&record, 0), "v");
    assert!(parser.write(&mut record, b"\r\n--X\r\nmore").is_ok());
    assert_eq!(text_of(&record, 0), "v");
    assert!(record.errors().is_empty());
    assert!(!record.is_finished());
    assert!(parser.flush(&mut record).is_ok());
    assert!(record.is_finished());
    assert!(record.errors().is_empty());
}

#[test]
fn the_end_is_told_when_the_handler_answers_an_error() {
    struct Stop {
        told: usize,
        ended: usize,
    }
    impl gnitive_multipart::MultipartParserTarget for Stop {
        type Sink = gnitive_multipart::process_content::NullProcessor;
        fn error(&mut self, error: &MultipartParseError) -> Result<OnError, std::io::Error> {
            assert!(matches!(error, MultipartParseError::RequiredMissing(names) if **names == vec!["q".to_string()]));
            self.told += 1;
            Err(std::io::Error::new(std::io::ErrorKind::Other, "no"))
        }
        fn finish(&mut self) {
            self.ended += 1;
        }
    }
    impl gnitive_multipart::MultipartParserTargetGenerated for Stop {
        fn get_all_required(&self) -> Vec<String> {
            vec!["q".to_string()]
        }
        fn content_parser_generated(&self, _headers: &Headers) -> Option<Self::Sink> {
            None
        }
    }
    let mut target = Stop { told: 0, ended: 0 };
    let mut parser: MultipartParser<Stop> = MultipartParser::new_from_str("X", &target);
    assert_eq!(parser.missing_required(), &vec!["q".to_string()]);
    let input = b"--X\r\nContent-Disposition: form-data; name=\"q\"\r\n\r\nv\r\n--X--";
    assert!(matches!(parser.write(&mut target, input), Ok(n) if n == input.len()));
    assert!(parser.flush(&mut target).is_ok());
    assert_eq!((target.told, target.ended), (1, 1));
}
