//! HTTP heads as they are read and written.

use vstd::pervasive::unreached;
use vstd::prelude::*;
use vstd::string::*;
use vstd::utf8::*;

use crate::body::{chunk_frame, last_chunk};
use crate::headers::{
    collected, distinct_names, law_distinct_fields_are_kept, law_last_field_stands,
    law_lookup_after_put, lookup, put, Fields, Headers,
};
use crate::number::{
    decimal, hexadecimal, law_number_round_trip, lemma_digits_are_alphanumeric, parse_number,
    push_decimal, push_digits, read_number,
};
use crate::protocol::{BodyReader, HttpRequest, RequestView};
use crate::server::constants::MAX_HEADERS;
use crate::text::{before_char, chars_of, lemma_split, same_text};

verus! {

/// The head of a request, as it stands on the wire.
pub struct RequestHead {
    pub method: Option<String>,
    pub path: Option<String>,
    pub version: Option<u8>,
    pub headers: Vec<(String, Vec<u8>)>,
}

/// What stands for the head of a request.
pub struct HeadView {
    pub method: Option<Seq<char>>,
    pub path: Option<Seq<char>>,
    pub version: Option<u8>,
    pub headers: Seq<(Seq<char>, Seq<u8>)>,
}

/// What stands for a text that may be missing.
pub open spec fn text_view(text: Option<String>) -> Option<Seq<char>> {
    match text {
        Some(text) => Some(text@),
        None => None,
    }
}

impl View for RequestHead {
    type V = HeadView;

    open spec fn view(&self) -> HeadView {
        HeadView {
            method: text_view(self.method),
            path: text_view(self.path),
            version: self.version,
            headers: self.headers@.map_values(|field: (String, Vec<u8>)| (field.0@, field.1@)),
        }
    }
}

/// The head of a request cannot be read; the text says why.
#[derive(Debug)]
pub struct InvalidHead(pub String);

/// What `httparse` makes of the bytes of a request: its head, nothing where the head is not whole,
/// or the text of an error.
pub uninterp spec fn parsed_head(buf: Seq<u8>) -> Result<Option<HeadView>, Seq<char>>;

/// `httparse::Request::parse`, with room for `MAX_HEADERS` fields: the head of the request in `buf`.
#[verifier::external_body]
fn parse_head(buf: &[u8]) -> (head: Result<Option<RequestHead>, String>)
    ensures
        match head {
            Ok(Some(head)) => parsed_head(buf@) == Ok::<Option<HeadView>, Seq<char>>(Some(head@)),
            Ok(None) => parsed_head(buf@) == Ok::<Option<HeadView>, Seq<char>>(None),
            Err(text) => parsed_head(buf@) == Err::<Option<HeadView>, Seq<char>>(text@),
        },
{
    let mut fields = [httparse::EMPTY_HEADER; MAX_HEADERS];
    let mut request = httparse::Request::new(&mut fields);
    match request.parse(buf) {
        Ok(httparse::Status::Complete(_)) => Ok(Some(RequestHead {
            method: request.method.map(str::to_owned),
            path: request.path.map(str::to_owned),
            version: request.version,
            headers: request.headers.iter().map(|h| (h.name.to_owned(), h.value.to_vec())).collect(),
        })),
        Ok(httparse::Status::Partial) => Ok(None),
        Err(error) => Err(error.to_string()),
    }
}

/// What `String::from_utf8_lossy` makes of bytes.
pub uninterp spec fn utf8_lossy(bytes: Seq<u8>) -> Seq<char>;

/// `String::from_utf8_lossy`: the text that the bytes encode, where they are UTF-8; else one in
/// which replacement characters stand for what is not.
#[verifier::external_body]
fn lossy_text(bytes: &[u8]) -> (text: String)
    ensures
        text@ == utf8_lossy(bytes@),
        valid_utf8(bytes@) ==> text@ == decode_utf8(bytes@),
{
    String::from_utf8_lossy(bytes).to_string()
}

/// The text that the bytes of a header field's value stand for: what they encode, where they are
/// UTF-8.
pub open spec fn field_text(bytes: Seq<u8>) -> Seq<char> {
    if valid_utf8(bytes) {
        decode_utf8(bytes)
    } else {
        utf8_lossy(bytes)
    }
}

/// The bytes of a text stand for that text in the value of a header field.
pub proof fn law_field_text(text: Seq<char>)
    ensures
        field_text(encode_utf8(text)) == text,
{
    encode_utf8_valid_utf8(text);
    encode_utf8_decode_utf8(text);
}

/// Whether the body comes in chunks.
pub open spec fn chunked_body(fields: Fields) -> bool {
    lookup(fields, "transfer-encoding"@) == Some("chunked"@)
}

/// The length that the fields give for the body.
pub open spec fn length_of_body(fields: Fields) -> Option<nat> {
    match lookup(fields, "content-length"@) {
        Some(text) => parse_number(text, 10, usize::MAX as nat),
        None => None,
    }
}

/// How the body that follows a head is to be read.
pub open spec fn reader_for(fields: Fields) -> BodyReader {
    if chunked_body(fields) {
        BodyReader::Chunked
    } else {
        match length_of_body(fields) {
            Some(length) => BodyReader::Fixed(length as usize),
            None => BodyReader::Fixed(0),
        }
    }
}

/// The header fields of a head as text.
pub open spec fn head_fields(headers: Seq<(Seq<char>, Seq<u8>)>) -> Fields {
    headers.map_values(|field: (Seq<char>, Seq<u8>)| (field.0, field_text(field.1)))
}

/// The request that a head begins.
pub open spec fn request_of(head: HeadView) -> RequestView {
    let fields = collected(head_fields(head.headers));
    RequestView {
        method: head.method.unwrap_or(Seq::empty()),
        url: head.path.unwrap_or(Seq::empty()),
        version: head.version.unwrap_or(0),
        headers: fields,
        body_reader: reader_for(fields),
    }
}

/// The last field of a head has, in the request that the head begins, the text that its bytes
/// encode; where that says that the body comes in chunks, it is read so, whatever else the head
/// says.
pub proof fn law_last_field_of_head(
    head: HeadView,
    fields: Seq<(Seq<char>, Seq<u8>)>,
    name: Seq<char>,
    text: Seq<char>,
)
    requires
        head.headers == fields.push((name, encode_utf8(text))),
    ensures
        lookup(request_of(head).headers, name) == Some(text),
        name == "transfer-encoding"@ && text == "chunked"@ ==> request_of(head).body_reader
            == BodyReader::Chunked,
{
    law_field_text(text);
    assert(head_fields(head.headers) == head_fields(fields).push((name, text)));
    law_last_field_stands(head_fields(fields), name, text);
}

/// Whether the body comes in chunks.
pub fn is_chunked(headers: &Headers) -> (chunked: bool)
    ensures
        chunked == chunked_body(headers@),
{
    match headers.get("transfer-encoding") {
        Some(encoding) => same_text(encoding, "chunked"),
        None => false,
    }
}

/// The length that the fields give for the body.
pub fn content_length(headers: &Headers) -> (length: Option<usize>)
    ensures
        match length {
            Some(n) => length_of_body(headers@) == Some(n as nat),
            None => length_of_body(headers@) is None,
        },
{
    match headers.get("content-length") {
        Some(text) => match read_number(chars_of(text).as_slice(), 10, usize::MAX as u64) {
            Some(length) => Some(length as usize),
            None => None,
        },
        None => None,
    }
}

/// A text that may be missing, or the empty one.
fn text_or_empty(text: Option<String>) -> (present: String)
    ensures
        present@ == text_view(text).unwrap_or(Seq::empty()),
{
    match text {
        Some(text) => text,
        None => String::new(),
    }
}

/// The request that a head begins.
pub fn request_from_head(head: RequestHead) -> (request: HttpRequest)
    ensures
        request@ == request_of(head@),
{
    let ghost fields = head_fields(head@.headers);
    let mut headers = Headers::new();
    for i in 0..head.headers.len()
        invariant
            fields == head_fields(head@.headers),
            headers@ == collected(fields.take(i as int)),
    {
        let name = head.headers[i].0.clone();
        let value = lossy_text(head.headers[i].1.as_slice());
        assert(fields.take(i + 1).drop_last() == fields.take(i as int));
        assert(fields.take(i + 1).last() == (name@, value@));
        headers.insert(name, value);
    }
    assert(fields.take(fields.len() as int) == fields);
    let body_reader = if is_chunked(&headers) {
        BodyReader::Chunked
    } else {
        match content_length(&headers) {
            Some(length) => BodyReader::Fixed(length),
            None => BodyReader::Fixed(0),
        }
    };
    let version = match head.version {
        Some(version) => version,
        None => 0,
    };
    HttpRequest {
        method: text_or_empty(head.method),
        url: text_or_empty(head.path),
        version,
        headers,
        body_reader,
    }
}

/// Reads the head of a request that is whole or cannot be read.
pub fn parse_http_request(buf: &[u8]) -> (request: Result<HttpRequest, InvalidHead>)
    requires
        parsed_head(buf@) != Ok::<Option<HeadView>, Seq<char>>(None),
    ensures
        match parsed_head(buf@) {
            Ok(Some(head)) => request matches Ok(r) && r@ == request_of(head),
            Ok(None) => true,
            Err(text) => request matches Err(e) && e.0@ == text,
        },
{
    match parse_head(buf) {
        Ok(Some(head)) => Ok(request_from_head(head)),
        Ok(None) => unreached(),
        Err(text) => Err(InvalidHead(text)),
    }
}

/// Whether the head of the request in `buf` is whole.
pub fn request_is_complete(buf: &[u8]) -> (complete: Result<bool, InvalidHead>)
    ensures
        match parsed_head(buf@) {
            Ok(head) => complete == Ok::<bool, InvalidHead>(head is Some),
            Err(text) => complete matches Err(e) && e.0@ == text,
        },
{
    match parse_head(buf) {
        Ok(Some(_)) => Ok(true),
        Ok(None) => Ok(false),
        Err(text) => Err(InvalidHead(text)),
    }
}

/// Reads the head of a request, or nothing where the head is not whole.
pub fn parse_if_complete(buf: &[u8]) -> (request: Result<Option<HttpRequest>, InvalidHead>)
    ensures
        match parsed_head(buf@) {
            Ok(Some(head)) => request matches Ok(Some(r)) && r@ == request_of(head),
            Ok(None) => request matches Ok(None),
            Err(text) => request matches Err(e) && e.0@ == text,
        },
{
    match request_is_complete(buf) {
        Ok(true) => match parse_http_request(buf) {
            Ok(request) => Ok(Some(request)),
            Err(error) => Err(error),
        },
        Ok(false) => Ok(None),
        Err(error) => Err(error),
    }
}

/// The lines of the header fields.
pub open spec fn field_lines(fields: Fields) -> Seq<char>
    decreases fields.len(),
{
    if fields.len() == 0 {
        seq![]
    } else {
        field_lines(fields.drop_last()) + fields.last().0 + ": "@ + fields.last().1 + "\r\n"@
    }
}

/// The head of a response: the status line, the lines of the header fields and an empty line.
pub open spec fn response_head(status: u16, fields: Fields) -> Seq<char> {
    "HTTP/1.1 "@ + decimal(status as nat) + "\r\n"@ + field_lines(fields) + "\r\n"@
}

/// A response as it is sent: its head, then its body.
pub open spec fn response_bytes(status: u16, fields: Fields, body: Seq<u8>) -> Seq<u8> {
    encode_utf8(response_head(status, fields)) + body
}

/// Adds the lines of the header fields to `text`.
fn push_field_lines(text: &mut String, headers: &Headers)
    ensures
        final(text)@ == old(text)@ + field_lines(headers@),
{
    let ghost before = text@;
    let count = headers.len();
    for i in 0..count
        invariant
            count == headers@.len(),
            text@ == before + field_lines(headers@.take(i as int)),
    {
        assert(headers@.take(i + 1).drop_last() == headers@.take(i as int));
        let (name, value) = headers.field(i);
        text.append(name);
        text.append(": ");
        text.append(value);
        text.append("\r\n");
    }
    assert(headers@.take(headers@.len() as int) == headers@);
}

/// A response as it is sent.
pub fn build_response(status: u16, headers: &Headers, body: Vec<u8>) -> (response: Vec<u8>)
    ensures
        response@ == response_bytes(status, headers@, body@),
{
    let mut head = String::new();
    head.append("HTTP/1.1 ");
    push_decimal(&mut head, status as u64);
    head.append("\r\n");
    push_field_lines(&mut head, headers);
    head.append("\r\n");
    assert(head@ == response_head(status, headers@));
    let mut response: Vec<u8> = Vec::new();
    response.extend_from_slice(head.as_str().as_bytes());
    response.extend_from_slice(body.as_slice());
    assert(response@ == response_bytes(status, headers@, body@));
    response
}

/// What is to be sent to a browser.
pub struct TlsWriter {
    /// The bytes that are still to be written.
    pending: Vec<u8>,
    /// Whether the connection is to be flushed once they are.
    flush: bool,
}

/// What stands for what is to be sent.
pub struct Output {
    pub bytes: Seq<u8>,
    pub flush: bool,
}

impl View for TlsWriter {
    type V = Output;

    closed spec fn view(&self) -> Output {
        Output { bytes: self.pending@, flush: self.flush }
    }
}

impl TlsWriter {
    /// Nothing to be sent.
    pub fn new() -> (writer: Self)
        ensures
            writer@ == (Output { bytes: seq![], flush: false }),
    {
        let writer = TlsWriter { pending: Vec::new(), flush: false };
        assert(writer@.bytes == Seq::<u8>::empty());
        writer
    }

    /// Sends a response and flushes the connection.
    pub fn write_simple_response(&mut self, response: &[u8])
        ensures
            final(self)@ == (Output { bytes: old(self)@.bytes + response@, flush: true }),
    {
        self.pending.extend_from_slice(response);
        self.flush = true;
        assert(self@.bytes == old(self)@.bytes + response@);
    }

    /// Sends a part of a body as a chunk.
    pub fn write_chunk(&mut self, data: &[u8])
        ensures
            final(self)@ == (Output {
                bytes: old(self)@.bytes + chunk_frame(data@),
                flush: old(self)@.flush,
            }),
    {
        if !data.is_empty() {
            let mut line = String::new();
            push_digits(&mut line, data.len() as u64, 16);
            line.push('\r');
            line.push('\n');
            assert(line@ == hexadecimal(data@.len()) + seq!['\r', '\n']);
            self.pending.extend_from_slice(line.as_str().as_bytes());
            self.pending.extend_from_slice(data);
            self.pending.push(13);
            self.pending.push(10);
        }
        assert(self@.bytes == old(self)@.bytes + chunk_frame(data@));
    }

    /// Sends the chunk that ends a body and flushes the connection.
    pub fn write_final_chunk(&mut self)
        ensures
            final(self)@ == (Output { bytes: old(self)@.bytes + last_chunk(), flush: true }),
    {
        self.pending.push(48);
        self.pending.push(13);
        self.pending.push(10);
        self.pending.push(13);
        self.pending.push(10);
        self.flush = true;
        assert(self@.bytes == old(self)@.bytes + last_chunk());
    }

    /// Hands out what is to be sent, so that it is not sent twice.
    pub fn take(&mut self) -> (output: (Vec<u8>, bool))
        ensures
            output.0@ == old(self)@.bytes,
            output.1 == old(self)@.flush,
            final(self)@ == (Output { bytes: seq![], flush: false }),
    {
        let mut bytes: Vec<u8> = Vec::new();
        std::mem::swap(&mut bytes, &mut self.pending);
        let flush = self.flush;
        self.flush = false;
        assert(self@.bytes == Seq::<u8>::empty());
        (bytes, flush)
    }
}

/// The fields that a reader finds in lines: of each line what stands before the first colon and
/// what stands behind it and a space, until a line is empty.
pub open spec fn read_fields(lines: Seq<char>) -> Fields
    decreases lines.len(),
{
    let line = before_char(lines, '\r');
    let name = before_char(line, ':');
    if line.len() == 0 || lines.len() < line.len() + 2 || line.len() < name.len() + 2 {
        seq![]
    } else {
        seq![(name, line.skip(name.len() as int + 2))] + read_fields(
            lines.skip(line.len() as int + 2),
        )
    }
}

/// What stands behind the first line of a text.
pub open spec fn behind_first_line(text: Seq<char>) -> Seq<char> {
    text.skip(before_char(text, '\r').len() as int + 2)
}

/// Whether fields can be told apart once they are written in lines.
pub open spec fn fit_in_lines(fields: Fields) -> bool {
    forall|i: int|
        0 <= i < fields.len() ==> {
            &&& !(#[trigger] fields[i]).0.contains('\r') && !fields[i].0.contains('\n')
            &&& !fields[i].1.contains('\r') && !fields[i].1.contains('\n')
            &&& !fields[i].0.contains(':')
        }
}

/// The lines of two lists of fields are those of the first and then those of the second, however
/// many fields there are; the line of one is its name, a colon, a space, its value and a line
/// break.
pub proof fn law_field_lines_follow_each_other(
    a: Fields,
    b: Fields,
    name: Seq<char>,
    value: Seq<char>,
)
    ensures
        field_lines(a + b) == field_lines(a) + field_lines(b),
        field_lines(seq![(name, value)]) == name + seq![':', ' '] + value + seq!['\r', '\n'],
        field_lines(Fields::empty()).len() == 0,
    decreases b.len(),
{
    reveal_strlit(": ");
    reveal_strlit("\r\n");
    let one = seq![(name, value)];
    assert(one.drop_last() == Fields::empty());
    assert(field_lines(one.drop_last()) == Seq::<char>::empty());
    assert(": "@ == seq![':', ' ']);
    assert("\r\n"@ == seq!['\r', '\n']);
    assert(field_lines(one) == name + seq![':', ' '] + value + seq!['\r', '\n']);
    if b.len() == 0 {
        assert(a + b == a);
        assert(field_lines(a) + field_lines(b) == field_lines(a));
    } else {
        let front = b.drop_last();
        law_field_lines_follow_each_other(a, front, name, value);
        assert((a + b).drop_last() == a + front);
        assert((a + b).last() == b.last());
        assert(field_lines(a + b) == field_lines(a) + field_lines(b));
    }
}

/// Lines of fields are read back as the fields.
proof fn lemma_read_fields(fields: Fields, rest: Seq<char>)
    requires
        fit_in_lines(fields),
    ensures
        read_fields(field_lines(fields) + seq!['\r', '\n'] + rest) == fields,
    decreases fields.len(),
{
    let lines = field_lines(fields) + seq!['\r', '\n'] + rest;
    if fields.len() == 0 {
        law_field_lines_follow_each_other(fields, fields, seq![], seq![]);
        assert(lines == Seq::<char>::empty() + seq!['\r'] + (seq!['\n'] + rest));
        lemma_split(Seq::<char>::empty(), '\r', seq!['\n'] + rest);
        assert(read_fields(lines) == fields);
    } else {
        let (name, value) = fields[0];
        let others = fields.drop_first();
        law_field_lines_follow_each_other(seq![fields[0]], others, name, value);
        assert(fields == seq![fields[0]] + others);
        let line = name + seq![':', ' '] + value;
        let behind = field_lines(others) + seq!['\r', '\n'] + rest;
        assert(lines == line + seq!['\r'] + (seq!['\n'] + behind));
        assert(!line.contains('\r')) by {
            assert forall|i: int| 0 <= i < line.len() implies line[i] != '\r' by {
                if i < name.len() {
                    assert(line[i] == name[i]);
                } else if i >= name.len() + 2 {
                    assert(line[i] == value[i - name.len() - 2]);
                }
            }
        }
        lemma_split(line, '\r', seq!['\n'] + behind);
        assert(line == name + seq![':'] + (seq![' '] + value));
        lemma_split(name, ':', seq![' '] + value);
        assert(line.skip(name.len() as int + 2) == value);
        assert(lines.skip(line.len() as int + 2) == behind);
        assert(fit_in_lines(others)) by {
            assert forall|i: int| 0 <= i < others.len() implies {
                &&& !(#[trigger] others[i]).0.contains('\r') && !others[i].0.contains('\n')
                &&& !others[i].1.contains('\r') && !others[i].1.contains('\n')
                &&& !others[i].0.contains(':')
            } by {
                assert(others[i] == fields[i + 1]);
            }
        }
        lemma_read_fields(others, rest);
        assert(seq![(name, value)] + others == fields);
    }
}

/// Who reads the head of a response finds in its first line the version of HTTP and the status,
/// and in the lines behind it every field, in order and with its whole value, however many there
/// are.
pub proof fn law_response_head_is_read_back(status: u16, fields: Fields)
    requires
        fit_in_lines(fields),
    ensures
        ({
            let head = response_head(status, fields);
            let first = before_char(head, '\r');
            &&& first.take(9) == seq!['H', 'T', 'T', 'P', '/', '1', '.', '1', ' ']
            &&& parse_number(first.skip(9), 10, u16::MAX as nat) == Some(status as nat)
            &&& read_fields(behind_first_line(head)) == fields
        }),
{
    reveal_strlit("HTTP/1.1 ");
    reveal_strlit("\r\n");
    let head = response_head(status, fields);
    let version = "HTTP/1.1 "@;
    let digits = decimal(status as nat);
    let first = version + digits;
    assert("\r\n"@ == seq!['\r', '\n']);
    let behind = field_lines(fields) + seq!['\r', '\n'];
    assert(head == first + seq!['\r'] + (seq!['\n'] + behind));
    lemma_digits_are_alphanumeric(status as nat, 10);
    assert(!first.contains('\r')) by {
        assert forall|i: int| 0 <= i < first.len() implies first[i] != '\r' by {
            if i >= version.len() {
                assert(first[i] == digits[i - version.len()]);
            }
        }
    }
    lemma_split(first, '\r', seq!['\n'] + behind);
    assert(first.take(9) == seq!['H', 'T', 'T', 'P', '/', '1', '.', '1', ' ']);
    assert(first.skip(9) == digits);
    law_number_round_trip(status as nat, 10, u16::MAX as nat);
    assert(behind_first_line(head) == behind);
    lemma_read_fields(fields, seq![]);
    assert(behind + Seq::<char>::empty() == behind);
}

/// What is sent for a response is its head, which does not depend on the body, and then the whole
/// body, whatever its length; the head is what is sent for a response without a body, and is text.
pub proof fn law_response_ends_with_whole_body(status: u16, fields: Fields, body: Seq<u8>)
    ensures
        ({
            let sent = response_bytes(status, fields, body);
            let head = response_bytes(status, fields, seq![]);
            &&& sent == head + body
            &&& sent.len() - head.len() == body.len()
            &&& sent.skip(head.len() as int) == body
            &&& valid_utf8(head)
            &&& decode_utf8(head) == response_head(status, fields)
        }),
{
    let text = response_head(status, fields);
    let head = response_bytes(status, fields, seq![]);
    encode_utf8_valid_utf8(text);
    encode_utf8_decode_utf8(text);
    assert(head == encode_utf8(text));
    assert(response_bytes(status, fields, body) == head + body);
    assert((head + body).skip(head.len() as int) == body);
}

/// A body comes in chunks where the field that says so was the last put under its name, and only
/// there; other fields do not matter.
pub proof fn law_chunked_body(fields: Fields, name: Seq<char>, value: Seq<char>)
    ensures
        chunked_body(put(fields, "transfer-encoding"@, value)) <==> value == "chunked"@,
        name != "transfer-encoding"@ ==> chunked_body(put(fields, name, value)) == chunked_body(
            fields,
        ),
        !chunked_body(Fields::empty()),
{
    law_lookup_after_put(fields, "transfer-encoding"@, value, "transfer-encoding"@);
    law_lookup_after_put(fields, name, value, "transfer-encoding"@);
}

/// A length that a field gives in decimal is the length of the body, where a machine number can
/// hold it; other fields do not matter.
pub proof fn law_length_of_body(fields: Fields, length: nat, name: Seq<char>, value: Seq<char>)
    ensures
        length <= usize::MAX ==> length_of_body(put(fields, "content-length"@, decimal(length)))
            == Some(length),
        length > usize::MAX ==> length_of_body(
            put(fields, "content-length"@, decimal(length)),
        ) is None,
        name != "content-length"@ ==> length_of_body(put(fields, name, value)) == length_of_body(
            fields,
        ),
        length_of_body(put(fields, "content-length"@, value)) == parse_number(
            value,
            10,
            usize::MAX as nat,
        ),
        length_of_body(Fields::empty()) is None,
{
    law_lookup_after_put(fields, "content-length"@, decimal(length), "content-length"@);
    law_lookup_after_put(fields, "content-length"@, value, "content-length"@);
    law_lookup_after_put(fields, name, value, "content-length"@);
    law_number_round_trip(length, 10, length);
    if length <= usize::MAX {
        law_number_round_trip(length, 10, usize::MAX as nat);
    }
}

/// The body behind a head is read in chunks where it comes so, else for the length that is given,
/// else not at all.
pub proof fn law_reader(fields: Fields)
    ensures
        reader_for(fields) is Chunked <==> lookup(fields, "transfer-encoding"@) == Some(
            "chunked"@,
        ),
        reader_for(fields) matches BodyReader::Fixed(length) ==> length as nat == match lookup(
            fields,
            "content-length"@,
        ) {
            Some(text) => match parse_number(text, 10, usize::MAX as nat) {
                Some(n) => n,
                None => 0,
            },
            None => 0,
        },
{
}

/// A request says what its head says: the method, the path and the version as they are, and every
/// field; where no name stands twice, the fields are those of the head in their order.
pub proof fn law_request_says_what_head_says(head: HeadView, texts: Seq<Seq<char>>)
    requires
        head.headers.len() == texts.len(),
        forall|i: int|
            0 <= i < texts.len() ==> (#[trigger] head.headers[i]).1 == encode_utf8(texts[i]),
        forall|i: int, j: int|
            0 <= i < j < texts.len() ==> head.headers[i].0 != head.headers[j].0,
    ensures
        ({
            let request = request_of(head);
            &&& head.method is Some ==> request.method == head.method->0
            &&& head.path is Some ==> request.url == head.path->0
            &&& head.version is Some ==> request.version == head.version->0
            &&& head.method is None ==> request.method.len() == 0
            &&& head.path is None ==> request.url.len() == 0
            &&& head.version is None ==> request.version == 0
            &&& request.headers.len() == texts.len()
            &&& forall|i: int|
                0 <= i < texts.len() ==> #[trigger] request.headers[i] == (
                    head.headers[i].0,
                    texts[i],
                )
            &&& request.body_reader == reader_for(request.headers)
        }),
{
    let fields = head_fields(head.headers);
    assert forall|i: int| 0 <= i < texts.len() implies #[trigger] fields[i] == (
        head.headers[i].0,
        texts[i],
    ) by {
        assert(head.headers[i].1 == encode_utf8(texts[i]));
        law_field_text(texts[i]);
    }
    assert(distinct_names(fields));
    law_distinct_fields_are_kept(fields);
}

/// What stands for a head is all that it holds.
pub proof fn law_view_of_head(head: RequestHead, i: int)
    ensures
        head.method matches Some(text) ==> head@.method == Some(text@),
        head.method is None ==> head@.method is None,
        head.path matches Some(text) ==> head@.path == Some(text@),
        head.path is None ==> head@.path is None,
        head@.version == head.version,
        head@.headers.len() == head.headers@.len(),
        0 <= i < head.headers@.len() ==> head@.headers[i] == (
            head.headers@[i].0@,
            head.headers@[i].1@,
        ),
{
}

} // verus!
