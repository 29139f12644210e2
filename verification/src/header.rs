//! The header model of one part: header lines are parsed into a map from
//! header name to value and parameters.
//!
//! A header line has the shape `NAME ":" VALUE ( ";" PARAM "=" PVALUE )*`.
//! The line is cut at every `;`. The first piece must fall into exactly two
//! pieces at `:`, every other piece into exactly two pieces at `=`. Names and
//! values are trimmed; a parameter value also loses one leading and one
//! trailing double quote.

use crate::text::{chars_of, pieces_view, split, split_chars, string_from_utf8, string_of, trim, trim_bounds, unquote};
use vstd::prelude::*;
use vstd::string::StringExecFns;
use vstd::utf8::*;

verus! {

/// What one header line says.
pub struct HeaderModel {
    pub name: Seq<char>,
    pub value: Seq<char>,
    pub fields: Map<Seq<char>, Seq<char>>,
}

/// The map that a list of key-value entries stands for: a later entry
/// replaces an earlier one with the same key.
pub open spec fn assoc_map<V>(entries: Seq<(Seq<char>, V)>) -> Map<Seq<char>, V>
    decreases entries.len(),
{
    if entries.len() == 0 {
        Map::empty()
    } else {
        assoc_map(entries.drop_last()).insert(entries.last().0, entries.last().1)
    }
}

/// The two trimmed halves of `s` around its only `sep`, if it has exactly one.
pub open spec fn key_value(s: Seq<char>, sep: char) -> Option<(Seq<char>, Seq<char>)> {
    let pieces = split(s, sep);
    if pieces.len() == 2 {
        Some((trim(pieces[0]), trim(pieces[1])))
    } else {
        None
    }
}

/// The parameters that the pieces after the first `;` give, in order.
pub open spec fn parse_fields(pieces: Seq<Seq<char>>) -> Option<Seq<(Seq<char>, Seq<char>)>>
    decreases pieces.len(),
{
    if pieces.len() == 0 {
        Some(Seq::empty())
    } else {
        match (parse_fields(pieces.drop_last()), key_value(pieces.last(), '=')) {
            (Some(front), Some((key, value))) => Some(front.push((key, unquote(value)))),
            _ => None,
        }
    }
}

/// What a header line says, or `None` where it is ill-formed.
pub open spec fn parse_header(line: Seq<char>) -> Option<HeaderModel> {
    let pieces = split(line, ';');
    match (key_value(pieces.first(), ':'), parse_fields(pieces.drop_first())) {
        (Some((name, value)), Some(fields)) => Some(
            HeaderModel { name, value, fields: assoc_map(fields) },
        ),
        _ => None,
    }
}

/// The headers that the well-formed lines among `lines` give, as entries in
/// the order of the lines.
pub open spec fn header_entries(lines: Seq<Seq<char>>) -> Seq<(Seq<char>, HeaderModel)>
    decreases lines.len(),
{
    if lines.len() == 0 {
        Seq::empty()
    } else {
        let front = header_entries(lines.drop_last());
        match parse_header(lines.last()) {
            Some(h) => front.push((h.name, h)),
            None => front,
        }
    }
}

/// The headers of a part whose header lines are `lines`.
pub open spec fn headers_model(lines: Seq<Seq<char>>) -> Map<Seq<char>, HeaderModel> {
    assoc_map(header_entries(lines))
}

/// The ill-formed lines among `lines`, in order.
pub open spec fn malformed_lines(lines: Seq<Seq<char>>) -> Seq<Seq<char>>
    decreases lines.len(),
{
    if lines.len() == 0 {
        Seq::empty()
    } else {
        let front = malformed_lines(lines.drop_last());
        if parse_header(lines.last()) is None {
            front.push(lines.last())
        } else {
            front
        }
    }
}

/// The parameter `field` of header `name`, where both exist.
pub open spec fn header_param(
    headers: Map<Seq<char>, HeaderModel>,
    name: Seq<char>,
    field: Seq<char>,
) -> Option<Seq<char>> {
    if headers.contains_key(name) && headers[name].fields.contains_key(field) {
        Some(headers[name].fields[field])
    } else {
        None
    }
}

/// The parameters `fields` as they stand in a header line: each after `; `,
/// with its value between double quotes.
pub open spec fn fields_text(fields: Seq<(Seq<char>, Seq<char>)>) -> Seq<char>
    decreases fields.len(),
{
    if fields.len() == 0 {
        Seq::empty()
    } else {
        fields_text(fields.drop_last()) + "; "@ + fields.last().0 + "=\""@ + fields.last().1
            + "\""@
    }
}

/// A header as a line: `name: value`, and its parameters after it.
pub open spec fn header_text(
    name: Seq<char>,
    value: Seq<char>,
    fields: Seq<(Seq<char>, Seq<char>)>,
) -> Seq<char> {
    name + ": "@ + value + fields_text(fields)
}

/// The views of a vector of strings.
pub open spec fn strings_view(v: Seq<String>) -> Seq<Seq<char>> {
    v.map_values(|s: String| s@)
}

/// The views of a vector of string pairs.
pub open spec fn pairs_view(v: Seq<(String, String)>) -> Seq<(Seq<char>, Seq<char>)> {
    v.map_values(|p: (String, String)| (p.0@, p.1@))
}

/// An entry list maps `key` as its front does, where no entry from `i` on
/// has that key.
pub proof fn lemma_assoc_map_tail<V>(entries: Seq<(Seq<char>, V)>, i: int, key: Seq<char>)
    requires
        0 <= i <= entries.len(),
        forall|j: int| i <= j < entries.len() ==> entries[j].0 != key,
    ensures
        assoc_map(entries).contains_key(key) == assoc_map(entries.take(i)).contains_key(key),
        assoc_map(entries).contains_key(key) ==> assoc_map(entries)[key] == assoc_map(
            entries.take(i),
        )[key],
    decreases entries.len(),
{
    if i == entries.len() {
        assert(entries.take(i) =~= entries);
    } else {
        let front = entries.drop_last();
        assert(front.take(i) =~= entries.take(i));
        lemma_assoc_map_tail(front, i, key);
    }
}

/// An entry list maps the key of entry `i` to that entry's value, where no
/// later entry has the same key.
pub proof fn lemma_assoc_map_found<V>(entries: Seq<(Seq<char>, V)>, i: int)
    requires
        0 <= i < entries.len(),
        forall|j: int| i < j < entries.len() ==> entries[j].0 != entries[i].0,
    ensures
        assoc_map(entries).contains_key(entries[i].0),
        assoc_map(entries)[entries[i].0] == entries[i].1,
{
    lemma_assoc_map_tail(entries, i + 1, entries[i].0);
    assert(entries.take(i + 1).last() == entries[i]);
}

/// One header of a part.
pub struct Header {
    /// Header name, such as `Content-Type` or `Content-Disposition`.
    pub name: String,
    /// Header body, such as `text/plain` or `form-data`.
    pub value: String,
    /// Parameters in the order of the line; a later one replaces an earlier
    /// one of the same name.
    pub fields: Vec<(String, String)>,
}

impl View for Header {
    type V = HeaderModel;

    open spec fn view(&self) -> HeaderModel {
        HeaderModel {
            name: self.name@,
            value: self.value@,
            fields: assoc_map(pairs_view(self.fields@)),
        }
    }
}

impl Header {
    /// Parses one header line.
    pub fn new(s: &str) -> (r: Option<Header>)
        ensures
            match parse_header(s@) {
                Some(h) => r is Some && r.unwrap()@ == h,
                None => r is None,
            },
    {
        let chars = chars_of(s);
        let pieces = split_chars(&chars, ';');
        let ghost spec_pieces = split(s@, ';');
        assert(pieces_view(pieces@) == spec_pieces);
        assert(pieces@[0]@ == spec_pieces.first());
        let head = Header::to_key_value(&pieces[0], ':');
        let mut fields: Vec<(String, String)> = Vec::new();
        let mut i: usize = 1;
        let ghost rest = spec_pieces.drop_first();
        assert(rest.take(0) =~= Seq::<Seq<char>>::empty());
        while i < pieces.len()
            invariant
                1 <= i <= pieces.len(),
                pieces_view(pieces@) == spec_pieces,
                spec_pieces == split(s@, ';'),
                rest == spec_pieces.drop_first(),
                parse_fields(rest.take(i - 1)) == Some(pairs_view(fields@)),
            decreases pieces.len() - i,
        {
            let ghost now = rest.take(i as int);
            assert(now.drop_last() =~= rest.take(i - 1));
            assert(now.last() == pieces@[i as int]@);
            match Header::to_key_value(&pieces[i], '=') {
                None => {
                    proof {
                        assert(parse_fields(now) is None);
                        lemma_parse_fields_prefix(rest, i as int);
                    }
                    return None;
                },
                Some((key, value)) => {
                    let value_chars = chars_of(value.as_str());
                    let n = value_chars.len();
                    let from: usize = if n > 0 && value_chars[0] == '"' {
                        1
                    } else {
                        0
                    };
                    let to: usize = if n > from && value_chars[n - 1] == '"' {
                        n - 1
                    } else {
                        n
                    };
                    let stripped = string_of(&value_chars, from, to);
                    proof {
                        let a = if from == 1 {
                            value@.drop_first()
                        } else {
                            value@
                        };
                        assert(a =~= value@.subrange(from as int, n as int));
                        if a.len() > 0 {
                            assert(a.last() == value@[n - 1]);
                        }
                        assert(stripped@ =~= unquote(value@));
                    }
                    let ghost front = pairs_view(fields@);
                    fields.push((key, stripped));
                    assert(pairs_view(fields@) =~= front.push((key@, stripped@)));
                },
            }
            i += 1;
        }
        assert(rest.take(i - 1) =~= rest);
        match head {
            None => None,
            Some((name, value)) => Some(Header { name, value, fields }),
        }
    }

    /// Cuts `s` at `separator` and trims both halves; `None` unless there is
    /// exactly one separator.
    pub fn to_key_value(s: &Vec<char>, separator: char) -> (r: Option<(String, String)>)
        ensures
            match key_value(s@, separator) {
                Some((key, value)) => r is Some && r.unwrap().0@ == key && r.unwrap().1@ == value,
                None => r is None,
            },
    {
        let pieces = split_chars(s, separator);
        if pieces.len() != 2 {
            return None;
        }
        assert(pieces_view(pieces@)[0] == pieces@[0]@);
        assert(pieces_view(pieces@)[1] == pieces@[1]@);
        let (a, b) = trim_bounds(&pieces[0]);
        let key = string_of(&pieces[0], a, b);
        let (c, d) = trim_bounds(&pieces[1]);
        let value = string_of(&pieces[1], c, d);
        Some((key, value))
    }

    /// The header as a line, with its parameters in their order.
    pub fn to_string(&self) -> (r: String)
        ensures
            r@ == header_text(self.name@, self.value@, pairs_view(self.fields@)),
    {
        let mut result = self.name.clone();
        result.append(": ");
        result.append(self.value.as_str());
        let ghost head = result@;
        let ghost entries = pairs_view(self.fields@);
        let mut i: usize = 0;
        assert(entries.take(0) =~= Seq::<(Seq<char>, Seq<char>)>::empty());
        assert(head + fields_text(entries.take(0)) =~= head);
        while i < self.fields.len()
            invariant
                i <= self.fields.len(),
                entries == pairs_view(self.fields@),
                head == self.name@ + ": "@ + self.value@,
                result@ == head + fields_text(entries.take(i as int)),
            decreases self.fields.len() - i,
        {
            let ghost before = fields_text(entries.take(i as int));
            let ghost now = entries.take(i + 1);
            assert(now.drop_last() =~= entries.take(i as int));
            assert(now.last() == (self.fields@[i as int].0@, self.fields@[i as int].1@));
            result.append("; ");
            result.append(self.fields[i].0.as_str());
            result.append("=\"");
            result.append(self.fields[i].1.as_str());
            result.append("\"");
            i += 1;
            assert(result@ =~= head + fields_text(now));
        }
        assert(entries.take(i as int) =~= entries);
        result
    }

    /// The value of parameter `field_name`, if the header has it.
    pub fn field(&self, field_name: &str) -> (r: Option<&String>)
        ensures
            match r {
                Some(v) => self@.fields.contains_key(field_name@) && self@.fields[field_name@]
                    == v@,
                None => !self@.fields.contains_key(field_name@),
            },
    {
        let wanted: String = field_name.to_owned();
        let ghost entries = pairs_view(self.fields@);
        let mut i: usize = self.fields.len();
        while i > 0
            invariant
                i <= self.fields.len(),
                wanted@ == field_name@,
                entries == pairs_view(self.fields@),
                forall|j: int| i <= j < entries.len() ==> entries[j].0 != wanted@,
            decreases i,
        {
            i -= 1;
            if self.fields[i].0 == wanted {
                proof {
                    lemma_assoc_map_found(entries, i as int);
                }
                return Some(&self.fields[i].1);
            }
        }
        proof {
            lemma_assoc_map_tail(entries, 0, wanted@);
            assert(entries.take(0) =~= Seq::<(Seq<char>, Seq<char>)>::empty());
        }
        None
    }
}

/// A list of pieces that parses has every prefix parse too.
proof fn lemma_parse_fields_prefix(pieces: Seq<Seq<char>>, i: int)
    requires
        0 <= i <= pieces.len(),
        parse_fields(pieces.take(i)) is None,
    ensures
        parse_fields(pieces) is None,
    decreases pieces.len(),
{
    if i == pieces.len() {
        assert(pieces.take(i) =~= pieces);
    } else {
        assert(pieces.drop_last().take(i) =~= pieces.take(i));
        lemma_parse_fields_prefix(pieces.drop_last(), i);
    }
}

/// The headers of one part.
pub struct Headers {
    /// The headers in the order of their lines; a later one replaces an
    /// earlier one of the same name.
    pub headers: Vec<Header>,
    /// The lines that are no well-formed header, in order.
    pub malformed: Vec<String>,
}

/// The name and model of each header in a list.
pub open spec fn entries_view(v: Seq<Header>) -> Seq<(Seq<char>, HeaderModel)> {
    v.map_values(|h: Header| (h.name@, h@))
}

impl View for Headers {
    type V = Map<Seq<char>, HeaderModel>;

    open spec fn view(&self) -> Map<Seq<char>, HeaderModel> {
        assoc_map(entries_view(self.headers@))
    }
}

impl Headers {
    /// Parses the header lines of one part. Ill-formed lines give no header
    /// and are kept aside in `malformed`.
    pub fn new(header_lines: &Vec<String>) -> (r: Headers)
        ensures
            r@ == headers_model(strings_view(header_lines@)),
            entries_view(r.headers@) == header_entries(strings_view(header_lines@)),
            strings_view(r.malformed@) == malformed_lines(strings_view(header_lines@)),
    {
        let mut headers: Vec<Header> = Vec::new();
        let mut malformed: Vec<String> = Vec::new();
        let ghost lines = strings_view(header_lines@);
        let mut i: usize = 0;
        assert(lines.take(0) =~= Seq::<Seq<char>>::empty());
        while i < header_lines.len()
            invariant
                i <= header_lines.len(),
                lines == strings_view(header_lines@),
                entries_view(headers@) == header_entries(lines.take(i as int)),
                strings_view(malformed@) == malformed_lines(lines.take(i as int)),
            decreases header_lines.len() - i,
        {
            let ghost now = lines.take(i + 1);
            assert(now.drop_last() =~= lines.take(i as int));
            assert(now.last() == header_lines@[i as int]@);
            match Header::new(header_lines[i].as_str()) {
                Some(header) => {
                    let ghost front = entries_view(headers@);
                    headers.push(header);
                    assert(entries_view(headers@) =~= front.push((header.name@, header@)));
                },
                None => {
                    let ghost front = strings_view(malformed@);
                    let line = header_lines[i].clone();
                    malformed.push(line);
                    assert(strings_view(malformed@) =~= front.push(line@));
                },
            }
            i += 1;
        }
        assert(lines.take(i as int) =~= lines);
        Headers { headers, malformed }
    }

    /// The parameter `field_name` of header `name`, such as the `name` of
    /// `Content-Disposition`.
    pub fn get(&self, name: &str, field_name: &str) -> (r: Option<&String>)
        ensures
            match r {
                Some(v) => header_param(self@, name@, field_name@) == Some(v@),
                None => header_param(self@, name@, field_name@) is None,
            },
    {
        let wanted: String = name.to_owned();
        let ghost entries = entries_view(self.headers@);
        let mut i: usize = self.headers.len();
        while i > 0
            invariant
                i <= self.headers.len(),
                wanted@ == name@,
                entries == entries_view(self.headers@),
                forall|j: int| i <= j < entries.len() ==> entries[j].0 != wanted@,
            decreases i,
        {
            i -= 1;
            if self.headers[i].name == wanted {
                proof {
                    lemma_assoc_map_found(entries, i as int);
                }
                return self.headers[i].field(field_name);
            }
        }
        proof {
            lemma_assoc_map_tail(entries, 0, wanted@);
            assert(entries.take(0) =~= Seq::<(Seq<char>, HeaderModel)>::empty());
        }
        None
    }

    /// The `name` parameter of `Content-Disposition`.
    pub fn get_name(&self) -> (r: Option<&String>)
        ensures
            match r {
                Some(v) => header_param(self@, "Content-Disposition"@, "name"@) == Some(v@),
                None => header_param(self@, "Content-Disposition"@, "name"@) is None,
            },
    {
        self.get("Content-Disposition", "name")
    }

    /// The `filename` parameter of `Content-Disposition`.
    pub fn get_filename(&self) -> (r: Option<&String>)
        ensures
            match r {
                Some(v) => header_param(self@, "Content-Disposition"@, "filename"@) == Some(v@),
                None => header_param(self@, "Content-Disposition"@, "filename"@) is None,
            },
    {
        self.get("Content-Disposition", "filename")
    }
}

/// Collects the bytes of header lines and turns the finished lines of a part
/// into its headers.
pub struct HeadersBuilder {
    tmp: Vec<u8>,
    lines: Vec<String>,
}

impl HeadersBuilder {
    /// The bytes of the line in progress.
    pub closed spec fn line(&self) -> Seq<u8> {
        self.tmp@
    }

    /// The finished lines.
    pub closed spec fn lines(&self) -> Seq<Seq<char>> {
        strings_view(self.lines@)
    }

    /// A builder without bytes or lines.
    pub fn new() -> (r: Self)
        ensures
            r.line() == Seq::<u8>::empty(),
            r.lines() == Seq::<Seq<char>>::empty(),
    {
        let r = HeadersBuilder { tmp: Vec::new(), lines: Vec::new() };
        assert(r.lines() =~= Seq::<Seq<char>>::empty());
        r
    }

    /// Adds one byte to the line in progress.
    pub fn write(&mut self, c: u8)
        ensures
            final(self).line() == old(self).line().push(c),
            final(self).lines() == old(self).lines(),
    {
        self.tmp.push(c);
    }

    /// Ends the line in progress. It joins the finished lines where its
    /// bytes are well-formed UTF-8 and is dropped otherwise.
    pub fn flush(&mut self)
        ensures
            final(self).line() == Seq::<u8>::empty(),
            final(self).lines() == finish_line(old(self).lines(), old(self).line()),
    {
        let ghost front = self.lines();
        let mut bytes: Vec<u8> = Vec::new();
        std::mem::swap(&mut bytes, &mut self.tmp);
        match string_from_utf8(bytes) {
            Ok(line) => {
                self.lines.push(line);
                assert(self.lines() =~= front.push(line@));
            },
            Err(_) => {},
        }
    }

    /// The headers that the finished lines give; the builder is empty
    /// afterwards.
    pub fn build(&mut self) -> (r: Headers)
        ensures
            r@ == headers_model(old(self).lines()),
            strings_view(r.malformed@) == malformed_lines(old(self).lines()),
            final(self).line() == Seq::<u8>::empty(),
            final(self).lines() == Seq::<Seq<char>>::empty(),
    {
        let result = Headers::new(&self.lines);
        self.lines.clear();
        self.tmp.clear();
        assert(self.lines() =~= Seq::<Seq<char>>::empty());
        result
    }
}

/// The finished lines after a line of bytes `line` has ended.
pub open spec fn finish_line(lines: Seq<Seq<char>>, line: Seq<u8>) -> Seq<Seq<char>> {
    if valid_utf8(line) {
        lines.push(decode_utf8(line))
    } else {
        lines
    }
}

} // verus!
