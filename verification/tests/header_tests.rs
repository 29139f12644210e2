use gnitive_multipart::header::{Header, HeadersBuilder};
use gnitive_multipart::text::{chars_of, is_whitespace, split_chars, string_of, trim_bounds};
use gnitive_multipart::Headers;

#[test]
fn headers() -> () {
    let v: Vec<String> = vec![
        "Content-Disposition: form-data; name=\"file1\"; filename=\"a.txt\"".to_string(),
        "Content-Type: application/octet-stream".to_string(),
    ];

    let headers = Headers::new(&v);
    assert_eq!("file1", headers.get_name().unwrap());
    assert_eq!("a.txt", headers.get_filename().unwrap());
}

#[test]
fn header_fields_are_trimmed_and_unquoted() {
    let h = Header::new("  Content-Disposition :  form-data ;  name = \" a b \" ; filename=plain").unwrap();
    assert_eq!(h.name, "Content-Disposition");
    assert_eq!(h.value, "form-data");
    assert_eq!(h.field("name").unwrap(), " a b ");
    assert_eq!(h.field("filename").unwrap(), "plain");
    assert!(h.field("charset").is_none());
}

#[test]
fn quotes_are_stripped_once_at_each_end() {
    let h = Header::new("A: b; x=\"\"two\"\"; y=\"; z=\"open; w=close\"").unwrap();
    assert_eq!(h.field("x").unwrap(), "\"two\"");
    assert_eq!(h.field("y").unwrap(), "");
    assert_eq!(h.field("z").unwrap(), "open");
    assert_eq!(h.field("w").unwrap(), "close");
}

#[test]
fn later_parameter_replaces_earlier() {
    let h = Header::new("A: b; x=1; y=2; x=3").unwrap();
    assert_eq!(h.field("x").unwrap(), "3");
    assert_eq!(h.field("y").unwrap(), "2");
}

#[test]
fn ill_formed_lines_give_no_header() {
    assert!(Header::new("no separator").is_none());
    assert!(Header::new("Date: 12:30").is_none());
    assert!(Header::new("A: b; flag").is_none());
    assert!(Header::new("A: b; x=y=z").is_none());
    assert!(Header::new("A: b;").is_none());
    assert!(Header::new("").is_none());
    assert!(Header::new("A:").is_some());
    assert!(Header::new(":").is_some());
}

#[test]
fn to_key_value_needs_exactly_one_separator() {
    let two = Header::to_key_value(&chars_of(" key = value "), '=');
    assert_eq!(two, Some(("key".to_string(), "value".to_string())));
    assert_eq!(Header::to_key_value(&chars_of("key"), '='), None);
    assert_eq!(Header::to_key_value(&chars_of("a=b=c"), '='), None);
    assert_eq!(Header::to_key_value(&chars_of("="), '='), Some((String::new(), String::new())));
}

#[test]
fn headers_keep_ill_formed_lines_aside() {
    let v: Vec<String> = vec![
        "Content-Type: text/plain; charset=UTF-8".to_string(),
        "broken".to_string(),
        "Content-Type: text/html".to_string(),
        "X: 1:2".to_string(),
    ];
    let headers = Headers::new(&v);
    assert_eq!(headers.malformed, vec!["broken".to_string(), "X: 1:2".to_string()]);
    // the later header of a name replaces the earlier one
    assert!(headers.get("Content-Type", "charset").is_none());
    assert!(headers.get_name().is_none());
    assert!(headers.get_filename().is_none());
    assert_eq!(headers.headers.len(), 2);
}

#[test]
fn header_names_are_case_sensitive() {
    let v: Vec<String> = vec!["content-disposition: form-data; name=\"a\"".to_string()];
    let headers = Headers::new(&v);
    assert!(headers.get_name().is_none());
    assert_eq!(headers.get("content-disposition", "name").unwrap(), "a");
    assert!(headers.get("content-disposition", "Name").is_none());
}

#[test]
fn builder_drops_lines_that_are_no_utf8() {
    let mut b = HeadersBuilder::new();
    for c in b"Content-Disposition: form-data; name=\"n\"" {
        b.write(*c);
    }
    b.flush();
    b.write(0xff);
    b.write(b'x');
    b.flush();
    for c in "X-Caf\u{e9}: 1".as_bytes() {
        b.write(*c);
    }
    b.flush();
    let headers = b.build();
    assert_eq!(headers.headers.len(), 2);
    assert!(headers.malformed.is_empty());
    assert_eq!(headers.get_name().unwrap(), "n");
    assert_eq!(headers.headers[1].name, "X-Caf\u{e9}");
    // the builder is empty afterwards
    let again = b.build();
    assert!(again.headers.is_empty());
}

#[test]
fn split_gives_every_piece() {
    let pieces = split_chars(&chars_of("a;;b;"), ';');
    let texts: Vec<String> = pieces.iter().map(|p| p.iter().collect()).collect();
    assert_eq!(texts, vec!["a", "", "b", ""]);
    assert_eq!(split_chars(&chars_of(""), ';').len(), 1);
}

#[test]
fn trim_takes_unicode_white_space() {
    let chars = chars_of("\u{2003}\t a\u{a0}b \u{3000}\r\n");
    let (from, to) = trim_bounds(&chars);
    assert_eq!(string_of(&chars, from, to), "a\u{a0}b");
    let blank = chars_of(" \t ");
    let (from, to) = trim_bounds(&blank);
    assert_eq!(from, to);
    for c in ['\u{9}', '\u{d}', ' ', '\u{85}', '\u{a0}', '\u{1680}', '\u{2000}', '\u{200a}', '\u{2028}', '\u{2029}', '\u{202f}', '\u{205f}', '\u{3000}'] {
        assert!(is_whitespace(c));
        assert!(c.is_whitespace());
    }
    for c in ['a', '\u{200b}', '\u{8}', '\u{e}', '\u{feff}', '_'] {
        assert!(!is_whitespace(c));
        assert!(!c.is_whitespace());
    }
}

#[test]
fn is_whitespace_agrees_with_std_on_every_char() {
    for u in 0u32..=0x10ffff {
        if let Some(c) = char::from_u32(u) {
            assert_eq!(is_whitespace(c), c.is_whitespace(), "U+{:04X}", u);
        }
    }
}

#[test]
fn header_as_a_line() {
    let h = Header::new("Content-Disposition: form-data; name=\"file1\"; filename=\"a.txt\"").unwrap();
    assert_eq!(h.to_string(), "Content-Disposition: form-data; name=\"file1\"; filename=\"a.txt\"");
    let plain = Header::new(" Content-Type :text/plain ").unwrap();
    assert_eq!(plain.to_string(), "Content-Type: text/plain");
    let again = Header::new(plain.to_string().as_str()).unwrap();
    assert_eq!(again.name, plain.name);
    assert_eq!(again.value, plain.value);
}
