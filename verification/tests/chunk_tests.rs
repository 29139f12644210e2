use gnitive_multipart::header::Headers;
use gnitive_multipart::multipart_parser::{MultipartParser, MultipartParserState};
use gnitive_multipart::{
    MultipartParseError, MultipartParserTarget, MultipartParserTargetGenerated, OnError,
    ProcessContent, ProcessParams,
};

/// One call that a sink received.
#[derive(Debug, Clone, PartialEq)]
enum Call {
    Open(String),
    Write(String, Vec<u8>),
    Flush(String),
}

/// A target that keeps the calls that its sinks receive.
struct Log {
    calls: Vec<Call>,
    errors: Vec<String>,
    required: Vec<String>,
    ignored: Vec<String>,
    limit: Option<usize>,
    answer: OnError,
    finished: usize,
}

impl Log {
    fn new() -> Log {
        Log {
            calls: vec![],
            errors: vec![],
            required: vec![],
            ignored: vec![],
            limit: None,
            answer: OnError::ContinueWithoutError,
            finished: 0,
        }
    }

    /// Each part as (name, body, flushed), with its writes joined.
    fn parts(&self) -> Vec<(String, Vec<u8>, bool)> {
        let mut parts: Vec<(String, Vec<u8>, bool)> = vec![];
        for call in &self.calls {
            match call {
                Call::Open(name) => parts.push((name.clone(), vec![], false)),
                Call::Write(name, data) => {
                    let last = parts.last_mut().unwrap();
                    assert_eq!(&last.0, name);
                    assert!(!last.2);
                    assert!(!data.is_empty());
                    last.1.extend_from_slice(data);
                }
                Call::Flush(name) => {
                    let last = parts.last_mut().unwrap();
                    assert_eq!(&last.0, name);
                    assert!(!last.2);
                    last.2 = true;
                }
            }
        }
        parts
    }
}

struct LogSink {
    params: ProcessParams,
    calls: Vec<Call>,
}

impl ProcessContent<Log> for LogSink {
    fn open(&mut self, _headers: &Headers) {
        self.calls.push(Call::Open(self.params.name.clone()));
    }

    fn write(&mut self, _headers: &Headers, data: &Vec<u8>) {
        self.calls.push(Call::Write(self.params.name.clone(), data.clone()));
    }

    fn flush(&mut self, _headers: &Headers, target: &mut Log) {
        self.calls.push(Call::Flush(self.params.name.clone()));
        target.calls.append(&mut self.calls);
    }

    fn get_process_params(&self) -> &ProcessParams {
        &self.params
    }
}

impl MultipartParserTarget for Log {
    type Sink = LogSink;

    fn error(&mut self, error: &MultipartParseError) -> Result<OnError, std::io::Error> {
        let text = match error {
            MultipartParseError::RequiredMissing(names) => format!("missing {:?}", names),
            MultipartParseError::SizeLimit(name, limit) => format!("limit {} {}", name, limit),
            MultipartParseError::MalformedHeader(line) => format!("malformed {}", line),
            _ => "other".to_string(),
        };
        self.errors.push(text);
        Ok(self.answer)
    }

    fn finish(&mut self) {
        self.finished += 1;
    }
}

impl MultipartParserTargetGenerated for Log {
    fn get_all_required(&self) -> Vec<String> {
        self.required.clone()
    }

    fn content_parser_generated(&self, headers: &Headers) -> Option<LogSink> {
        let name = match headers.get_name() {
            Some(name) => name.clone(),
            None => String::new(),
        };
        if self.ignored.contains(&name) {
            return None;
        }
        Some(LogSink { params: ProcessParams::new(name.as_str(), self.limit), calls: vec![] })
    }
}

fn part(name: &str, body: &[u8]) -> Vec<u8> {
    let mut v = format!("Content-Disposition: form-data; name=\"{}\"\r\n\r\n", name).into_bytes();
    v.extend_from_slice(body);
    v
}

fn stream(boundary: &str, parts: &[Vec<u8>]) -> Vec<u8> {
    let mut v = format!("--{}\r\n", boundary).into_bytes();
    for (i, p) in parts.iter().enumerate() {
        if i > 0 {
            v.extend_from_slice(format!("\r\n--{}\r\n", boundary).as_bytes());
        }
        v.extend_from_slice(p);
    }
    v.extend_from_slice(format!("\r\n--{}--", boundary).as_bytes());
    v
}

fn feed(boundary: &str, log: &mut Log, chunks: &[&[u8]]) -> MultipartParser<Log> {
    let mut parser: MultipartParser<Log> = MultipartParser::new_from_str(boundary, log);
    for chunk in chunks {
        assert!(matches!(parser.write(log, chunk), Ok(n) if n == chunk.len()));
    }
    assert!(parser.flush(log).is_ok());
    parser
}

fn whole(boundary: &str, input: &[u8]) -> Vec<(String, Vec<u8>, bool)> {
    let mut log = Log::new();
    let parser = feed(boundary, &mut log, &[input]);
    assert_eq!(parser.state(), MultipartParserState::Finished);
    assert_eq!(log.finished, 1);
    log.parts()
}

#[test]
fn every_split_in_two_gives_the_same_parts() {
    let input = stream("X", &[part("a", b"hello\r\nworld"), part("b", b"\r\n--Y\r\n-"), part("c", b"")]);
    let expected = vec![
        ("a".to_string(), b"hello\r\nworld".to_vec(), true),
        ("b".to_string(), b"\r\n--Y\r\n-".to_vec(), true),
        ("c".to_string(), b"".to_vec(), true),
    ];
    assert_eq!(whole("X", &input), expected);
    for cut in 0..=input.len() {
        let mut log = Log::new();
        let parser = feed("X", &mut log, &[&input[..cut], &input[cut..]]);
        assert_eq!(parser.state(), MultipartParserState::Finished);
        assert_eq!(log.parts(), expected, "cut at {}", cut);
    }
}

#[test]
fn byte_by_byte_gives_the_same_parts() {
    let input = stream("bound", &[part("a", b"\r\n--boun\r\n--boun"), part("b", b"\r\r\n-\r\n--bounX")]);
    let expected = vec![
        ("a".to_string(), b"\r\n--boun\r\n--boun".to_vec(), true),
        ("b".to_string(), b"\r\r\n-\r\n--bounX".to_vec(), true),
    ];
    assert_eq!(whole("bound", &input), expected);
    let mut log = Log::new();
    let chunks: Vec<&[u8]> = input.chunks(1).collect();
    feed("bound", &mut log, &chunks);
    assert_eq!(log.parts(), expected);
}

#[test]
fn body_is_exact_when_it_holds_beginnings_of_the_delimiter() {
    let body: &[u8] = b"\r\n--boun\r\r\n--bou\r\n-\r\n--\r\n--bounx\r";
    let input = stream("bound", &[part("a", body)]);
    assert_eq!(whole("bound", &input), vec![("a".to_string(), body.to_vec(), true)]);
    for size in 1..8 {
        let mut log = Log::new();
        let chunks: Vec<&[u8]> = input.chunks(size).collect();
        feed("bound", &mut log, &chunks);
        assert_eq!(log.parts(), vec![("a".to_string(), body.to_vec(), true)], "chunks of {}", size);
    }
}

#[test]
fn boundary_that_repeats_itself_is_found() {
    // the delimiter is "\r\n--\r\n--\r\n-!", whose beginnings overlap
    let boundary = "\r\n--\r\n-!";
    let body: &[u8] = b"x\r\n--\r\n--\r\n--\r\n-";
    let mut input = b"--\r\n--\r\n-!\r\n".to_vec();
    input.extend_from_slice(&part("a", body));
    input.extend_from_slice(b"\r\n--\r\n--\r\n-!--");
    assert_eq!(whole(boundary, &input), vec![("a".to_string(), body.to_vec(), true)]);
    let mut log = Log::new();
    let chunks: Vec<&[u8]> = input.chunks(1).collect();
    feed(boundary, &mut log, &chunks);
    assert_eq!(log.parts(), vec![("a".to_string(), body.to_vec(), true)]);
}

#[test]
fn no_write_holds_the_delimiter() {
    let input = stream("X", &[part("a", b"\r\n--\r\n-X\r\n--x\r\n--"), part("b", b"--X\r\n")]);
    for size in 1..input.len() {
        let mut log = Log::new();
        let chunks: Vec<&[u8]> = input.chunks(size).collect();
        feed("X", &mut log, &chunks);
        for call in &log.calls {
            if let Call::Write(_, data) = call {
                assert!(!data.windows(5).any(|w| w == b"\r\n--X"));
            }
        }
    }
}

#[test]
fn delimiter_split_across_chunks_is_held_back() {
    let input = stream("X", &[part("a", b"body")]);
    let cut = input.len() - 4;
    let mut log = Log::new();
    let mut parser: MultipartParser<Log> = MultipartParser::new_from_str("X", &log);
    assert!(parser.write(&mut log, &input[..cut]).is_ok());
    // "\r\n--" of the delimiter has been read: the part is open and has its body
    assert_eq!(parser.state(), MultipartParserState::Content);
    assert!(parser.write(&mut log, &input[cut..]).is_ok());
    assert!(parser.flush(&mut log).is_ok());
    assert_eq!(
        log.calls,
        vec![
            Call::Open("a".to_string()),
            Call::Write("a".to_string(), b"body".to_vec()),
            Call::Flush("a".to_string()),
        ]
    );
}

#[test]
fn failed_delimiter_across_chunks_is_body() {
    let mut input = b"--X\r\n".to_vec();
    input.extend_from_slice(&part("a", b"one\r\n-"));
    let mut rest = b"-Y two".to_vec();
    rest.extend_from_slice(b"\r\n--X--");
    let mut log = Log::new();
    feed("X", &mut log, &[&input, &rest]);
    assert_eq!(log.parts(), vec![("a".to_string(), b"one\r\n--Y two".to_vec(), true)]);
}

#[test]
fn empty_body_gives_open_and_flush_without_write() {
    let input = stream("X", &[part("e", b"")]);
    let mut log = Log::new();
    feed("X", &mut log, &[&input]);
    assert_eq!(log.calls, vec![Call::Open("e".to_string()), Call::Flush("e".to_string())]);
}

#[test]
fn carriage_return_alone_is_kept_in_body_and_header() {
    let mut input = b"--X\r\nContent-Disposition: form-data; name=\"a\rb\"\r\nX-Note: one\rtwo\r\n\r\n".to_vec();
    input.extend_from_slice(b"left\rright\r\r\n--X--");
    let mut log = Log::new();
    feed("X", &mut log, &[&input]);
    assert_eq!(log.parts(), vec![("a\rb".to_string(), b"left\rright\r".to_vec(), true)]);
}

#[test]
fn required_names_are_missing_until_their_sink_is_opened() {
    let mut log = Log::new();
    log.required = vec!["a".to_string(), "b".to_string(), "c".to_string()];
    log.ignored = vec!["c".to_string()];
    let input = stream("X", &[part("b", b"1"), part("c", b"2")]);
    let parser = feed("X", &mut log, &[&input]);
    assert_eq!(parser.missing_required(), &vec!["a".to_string(), "c".to_string()]);
    assert_eq!(log.errors, vec!["missing [\"a\", \"c\"]".to_string()]);
    assert_eq!(log.finished, 1);
}

#[test]
fn skip_cuts_the_body_at_the_limit_in_every_chunking() {
    let input = stream("X", &[part("a", b"0123456789"), part("b", b"xy")]);
    for size in 1..input.len() {
        let mut log = Log::new();
        log.limit = Some(4);
        log.answer = OnError::Skip;
        let chunks: Vec<&[u8]> = input.chunks(size).collect();
        feed("X", &mut log, &chunks);
        assert_eq!(
            log.parts(),
            vec![("a".to_string(), b"0123".to_vec(), true), ("b".to_string(), b"xy".to_vec(), true)]
        );
        assert_eq!(log.errors, vec!["limit a 4".to_string()]);
    }
}

#[test]
fn handler_error_ends_the_call() {
    struct Failing(Log);
    impl MultipartParserTarget for Failing {
        type Sink = LogSinkF;
        fn error(&mut self, _error: &MultipartParseError) -> Result<OnError, std::io::Error> {
            Err(std::io::Error::new(std::io::ErrorKind::Other, "stop"))
        }
        fn finish(&mut self) {}
    }
    impl MultipartParserTargetGenerated for Failing {
        fn get_all_required(&self) -> Vec<String> {
            vec![]
        }
        fn content_parser_generated(&self, _headers: &Headers) -> Option<LogSinkF> {
            Some(LogSinkF { params: ProcessParams::new("a", Some(2)), got: vec![] })
        }
    }
    struct LogSinkF {
        params: ProcessParams,
        got: Vec<u8>,
    }
    impl ProcessContent<Failing> for LogSinkF {
        fn open(&mut self, _headers: &Headers) {}
        fn write(&mut self, _headers: &Headers, data: &Vec<u8>) {
            self.got.extend_from_slice(data);
        }
        fn flush(&mut self, _headers: &Headers, target: &mut Failing) {
            target.0.calls.push(Call::Write("a".to_string(), self.got.clone()));
        }
        fn get_process_params(&self) -> &ProcessParams {
            &self.params
        }
    }
    let mut target = Failing(Log::new());
    let input = stream("X", &[part("a", b"abcdef")]);
    let mut parser: MultipartParser<Failing> = MultipartParser::new_from_str("X", &target);
    let r = parser.write(&mut target, &input);
    assert!(matches!(
        r,
        Err(gnitive_multipart::multipart_parser::WriteError::Target(_))
    ));
    // the rest of the stream can still be read; the part was cut at its limit
    let consumed = input.iter().position(|&b| b == b'c').unwrap() + 1;
    assert!(parser.write(&mut target, &input[consumed..]).is_ok());
    assert_eq!(parser.state(), MultipartParserState::Finished);
    assert_eq!(target.0.calls, vec![Call::Write("a".to_string(), b"ab".to_vec())]);
}
