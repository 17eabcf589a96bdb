//! The messages that the two ends of the tunnel exchange, and their frames on the wire.

use rand::Rng;
use vstd::prelude::*;
use vstd::string::*;

use crate::body::{body_start, BodyAssembly};
use crate::headers::{Fields, Headers};
use crate::number::{decimal, push_decimal};

verus! {

/// The length from which on a body is sent as a stream.
pub const STREAMING_THRESHOLD: usize = 1048576;

/// By what a connection of the running program is found again.
pub type ConnectionId = u64;

#[derive(Clone, Copy, Debug, PartialEq, Eq, Structural)]
pub enum ProtocolType {
    Http,
    Tcp,
    Udp,
}

#[derive(Clone, Copy, PartialEq, Eq, Structural)]
pub enum BodyReader {
    Fixed(usize),
    Chunked,
}

#[derive(Clone)]
pub struct HttpRequest {
    pub method: String,
    pub url: String,
    pub version: u8,
    pub headers: Headers,
    pub body_reader: BodyReader,
}

#[derive(Clone)]
pub enum HttpData {
    Request(HttpRequest),
    Response { status: u16, headers: Headers, body: Vec<u8> },
    BodyChunk { stream_id: u32, data: Vec<u8>, is_end: bool },
}

#[derive(Clone)]
pub enum Data {
    Http(HttpData),
    Tcp { stream_id: u32, data: Vec<u8> },
    Udp { addr: String, port: u16, data: Vec<u8> },
}

#[derive(Clone, Debug)]
pub enum Error {
    Handshake(String),
    Protocol(String),
    Connection(String),
    Stream(u32),
}

#[derive(Clone)]
pub enum Message {
    HandshakeRequest {
        supported_version: u32,
        supported_protocols: Vec<ProtocolType>,
        auth_token: Option<String>,
    },
    HandshakeResponse {
        accepted_version: u32,
        accepted_protocols: Vec<ProtocolType>,
        subdomain: String,
    },
    StreamOpen { stream_id: u32, protocol: ProtocolType },
    StreamClose { stream_id: u32 },
    Ping(u64),
    Pong(u64),
    Data(Data),
    Error(Error),
}

/// `rand::rng().random()`: any stream number at all may come, so nothing is said of it.
#[verifier::external_body]
fn random_stream_id() -> (stream_id: u32)
{
    rand::rng().random()
}

impl Message {
    /// Opens a stream under a number drawn at random.
    pub fn stream_open(protocol: ProtocolType) -> (message: Self)
        ensures
            message is StreamOpen,
            message->protocol == protocol,
    {
        Self::stream_open_as(random_stream_id(), protocol)
    }

    /// Opens a stream under the given number.
    pub fn stream_open_as(stream_id: u32, protocol: ProtocolType) -> (message: Self)
        ensures
            message == (Message::StreamOpen { stream_id, protocol }),
    {
        Self::StreamOpen { stream_id, protocol }
    }

    /// Closes a stream.
    pub fn stream_close(stream_id: u32) -> (message: Self)
        ensures
            message == (Message::StreamClose { stream_id }),
    {
        Self::StreamClose { stream_id }
    }

    /// Carries a part of a body.
    pub fn http_chunk(stream_id: u32, data: Vec<u8>, is_end: bool) -> (message: Self)
        ensures
            message == Message::Data(Data::Http(HttpData::BodyChunk { stream_id, data, is_end })),
    {
        Self::Data(Data::Http(HttpData::BodyChunk { stream_id, data, is_end }))
    }
}

/// The end of the tunnel that shares files.
pub struct UpstreamClient {
    pub stream: ConnectionId,
    pub protocols: Vec<ProtocolType>,
}

impl View for UpstreamClient {
    type V = (ConnectionId, Seq<ProtocolType>);

    open spec fn view(&self) -> (ConnectionId, Seq<ProtocolType>) {
        (self.stream, self.protocols@)
    }
}

impl Clone for UpstreamClient {
    fn clone(&self) -> (copy: Self)
        ensures
            copy@ == self@,
    {
        UpstreamClient { stream: self.stream, protocols: copy_protocols(&self.protocols) }
    }
}

impl UpstreamClient {
    pub fn new(stream: ConnectionId, protocols: Vec<ProtocolType>) -> (client: Self)
        ensures
            client == (UpstreamClient { stream, protocols }),
    {
        Self { stream, protocols }
    }
}

/// The same protocols once more.
pub fn copy_protocols(protocols: &Vec<ProtocolType>) -> (copy: Vec<ProtocolType>)
    ensures
        copy@ == protocols@,
{
    let mut copy: Vec<ProtocolType> = Vec::new();
    for i in 0..protocols.len()
        invariant
            copy@ == protocols@.take(i as int),
    {
        assert(protocols@.take(i as int).push(protocols@[i as int]) == protocols@.take(i + 1));
        copy.push(protocols[i]);
    }
    assert(protocols@.take(protocols@.len() as int) == protocols@);
    copy
}

/// A browser's connection.
#[derive(Clone, Copy, Debug, PartialEq, Eq, Structural)]
pub struct DownstreamClient {
    pub stream: ConnectionId,
}

impl DownstreamClient {
    pub fn new(stream: ConnectionId) -> (client: Self)
        ensures
            client.stream == stream,
    {
        Self { stream }
    }
}

/// A browser's connection and the end of the tunnel that answers it.
pub struct Tunnel {
    pub upstream: UpstreamClient,
    pub downstream: DownstreamClient,
}

impl View for Tunnel {
    type V = ((ConnectionId, Seq<ProtocolType>), ConnectionId);

    open spec fn view(&self) -> ((ConnectionId, Seq<ProtocolType>), ConnectionId) {
        (self.upstream@, self.downstream.stream)
    }
}

impl Clone for Tunnel {
    fn clone(&self) -> (copy: Self)
        ensures
            copy@ == self@,
    {
        Tunnel { upstream: self.upstream.clone(), downstream: self.downstream }
    }
}

impl Tunnel {
    pub fn new(upstream: UpstreamClient, downstream: DownstreamClient) -> (tunnel: Self)
        ensures
            tunnel == (Tunnel { upstream, downstream }),
    {
        Self { upstream, downstream }
    }
}

/// What stands for a request.
pub struct RequestView {
    pub method: Seq<char>,
    pub url: Seq<char>,
    pub version: u8,
    pub headers: Fields,
    pub body_reader: BodyReader,
}

impl View for HttpRequest {
    type V = RequestView;

    open spec fn view(&self) -> RequestView {
        RequestView {
            method: self.method@,
            url: self.url@,
            version: self.version,
            headers: self.headers@,
            body_reader: self.body_reader,
        }
    }
}

impl HttpRequest {
    /// Begins to gather the body that follows the head of the request.
    pub fn bytes(&self) -> (assembly: BodyAssembly)
        ensures
            assembly@ == body_start(self.body_reader),
    {
        BodyAssembly::new(self.body_reader)
    }
}

/// What `format!` writes for a text under `{:?}`: in quotation marks, with what needs it escaped.
pub uninterp spec fn debug_quoted(text: Seq<char>) -> Seq<char>;

/// `<str as Debug>::fmt`, through `format!`: the text as it is quoted in diagnostics.
#[verifier::external_body]
fn quoted(text: &str) -> (quoted: String)
    ensures
        quoted@ == debug_quoted(text@),
{
    format!("{:?}", text)
}

/// How a body's reader is shown in diagnostics.
pub open spec fn body_reader_text(reader: BodyReader) -> Seq<char> {
    match reader {
        BodyReader::Fixed(size) => "Fixed("@ + decimal(size as nat) + ")"@,
        BodyReader::Chunked => "Chunked"@,
    }
}

/// How header fields are shown in diagnostics, but for the braces around them.
pub open spec fn fields_text(fields: Fields) -> Seq<char>
    decreases fields.len(),
{
    if fields.len() == 0 {
        seq![]
    } else {
        let one = debug_quoted(fields.last().0) + ": "@ + debug_quoted(fields.last().1);
        if fields.len() == 1 {
            one
        } else {
            fields_text(fields.drop_last()) + ", "@ + one
        }
    }
}

/// How a truth value is shown.
pub open spec fn bool_text(value: bool) -> Seq<char> {
    if value {
        "true"@
    } else {
        "false"@
    }
}

/// How HTTP data is shown in diagnostics: the bytes of a body are counted, not listed.
pub open spec fn http_data_text(data: HttpData) -> Seq<char> {
    match data {
        HttpData::Request(request) => "Request { method: "@ + debug_quoted(request.method@)
            + ", url: "@ + debug_quoted(request.url@) + ", headers: {"@ + fields_text(
            request.headers@,
        ) + "}, body: "@ + body_reader_text(request.body_reader) + ", version: "@ + decimal(
            request.version as nat,
        ) + " }"@,
        HttpData::Response { status, headers, body } => "Response { status: "@ + decimal(
            status as nat,
        ) + ", headers: {"@ + fields_text(headers@) + "}, body: "@ + decimal(body@.len())
            + " B }"@,
        HttpData::BodyChunk { stream_id, data, is_end } => "BodyChunk { stream_id: "@ + decimal(
            stream_id as nat,
        ) + ", data: "@ + decimal(data@.len()) + " B, is_end: "@ + bool_text(is_end) + " }"@,
    }
}

impl BodyReader {
    /// How the reader is shown in diagnostics.
    pub fn fmt(&self) -> (text: String)
        ensures
            text@ == body_reader_text(*self),
    {
        let mut text = String::new();
        match self {
            BodyReader::Fixed(size) => {
                text.append("Fixed(");
                push_decimal(&mut text, *size as u64);
                text.append(")");
            },
            BodyReader::Chunked => {
                text.append("Chunked");
            },
        }
        text
    }
}

/// Adds header fields to `text` as they are shown in diagnostics, but for the braces.
fn push_fields(text: &mut String, headers: &Headers)
    ensures
        final(text)@ == old(text)@ + fields_text(headers@),
{
    let ghost before = text@;
    let count = headers.len();
    for i in 0..count
        invariant
            count == headers@.len(),
            text@ == before + fields_text(headers@.take(i as int)),
    {
        let ghost now = headers@.take(i + 1);
        assert(now.drop_last() == headers@.take(i as int));
        let (name, value) = headers.field(i);
        if i > 0 {
            text.append(", ");
        }
        text.append(quoted(name).as_str());
        text.append(": ");
        text.append(quoted(value).as_str());
    }
    assert(headers@.take(headers@.len() as int) == headers@);
}

impl HttpData {
    /// How the data is shown in diagnostics.
    pub fn fmt(&self) -> (text: String)
        ensures
            text@ == http_data_text(*self),
    {
        let mut text = String::new();
        match self {
            HttpData::Request(request) => {
                text.append("Request { method: ");
                text.append(quoted(request.method.as_str()).as_str());
                text.append(", url: ");
                text.append(quoted(request.url.as_str()).as_str());
                text.append(", headers: {");
                push_fields(&mut text, &request.headers);
                text.append("}, body: ");
                text.append(request.body_reader.fmt().as_str());
                text.append(", version: ");
                push_decimal(&mut text, request.version as u64);
                text.append(" }");
            },
            HttpData::Response { status, headers, body } => {
                text.append("Response { status: ");
                push_decimal(&mut text, *status as u64);
                text.append(", headers: {");
                push_fields(&mut text, headers);
                text.append("}, body: ");
                push_decimal(&mut text, body.len() as u64);
                text.append(" B }");
            },
            HttpData::BodyChunk { stream_id, data, is_end } => {
                text.append("BodyChunk { stream_id: ");
                push_decimal(&mut text, *stream_id as u64);
                text.append(", data: ");
                push_decimal(&mut text, data.len() as u64);
                text.append(" B, is_end: ");
                text.append(
                    if *is_end {
                        "true"
                    } else {
                        "false"
                    },
                );
                text.append(" }");
            },
        }
        assert(text@ =~= http_data_text(*self));
        text
    }
}

/// The four bytes of `n`, most significant first.
pub open spec fn big_endian(n: nat) -> Seq<u8> {
    seq![
        (n / 0x1000000 % 0x100) as u8,
        (n / 0x10000 % 0x100) as u8,
        (n / 0x100 % 0x100) as u8,
        (n % 0x100) as u8,
    ]
}

/// The number whose four bytes stand at the beginning of `bytes`, most significant first.
pub open spec fn big_endian_value(bytes: Seq<u8>) -> nat {
    (bytes[0] * 0x1000000 + bytes[1] * 0x10000 + bytes[2] * 0x100 + bytes[3]) as nat
}

/// The bytes that carry a serialized message: its length in four bytes, then the message.
///
/// A length that four bytes cannot hold is cut to its last four bytes.
pub open spec fn frame(serialized: Seq<u8>) -> Seq<u8> {
    big_endian(serialized.len() % 0x100000000) + serialized
}

/// Frames a serialized message for the wire.
pub fn write_message(serialized: &[u8]) -> (bytes: Vec<u8>)
    ensures
        bytes@ == frame(serialized@),
{
    let length: u64 = serialized.len() as u64 % 0x100000000;
    let mut bytes: Vec<u8> = Vec::new();
    bytes.push((length / 0x1000000 % 0x100) as u8);
    bytes.push((length / 0x10000 % 0x100) as u8);
    bytes.push((length / 0x100 % 0x100) as u8);
    bytes.push((length % 0x100) as u8);
    assert(bytes@ == big_endian(length as nat));
    bytes.extend_from_slice(serialized);
    assert(bytes@ == frame(serialized@));
    bytes
}

/// What is to be done with the bytes of a frame that have come so far.
pub enum FrameRead {
    /// Exactly so many more bytes are to be read.
    More(usize),
    /// The frame is there; this is the serialized message.
    Complete(Vec<u8>),
}

/// What `read_message` says of the bytes that have come so far.
pub open spec fn frame_read(received: Seq<u8>, step: FrameRead) -> bool {
    let have = received.len();
    if have < 4 {
        step matches FrameRead::More(n) && n == 4 - have
    } else {
        let length = big_endian_value(received);
        if have - 4 < length {
            step matches FrameRead::More(n) && n == length - (have - 4)
        } else {
            step matches FrameRead::Complete(serialized) && serialized@ == received.subrange(
                4,
                4 + length as int,
            )
        }
    }
}

/// Looks at the bytes of a frame that have come so far.
pub fn read_message(received: &[u8]) -> (step: FrameRead)
    ensures
        frame_read(received@, step),
{
    let have = received.len();
    if have < 4 {
        return FrameRead::More(4 - have);
    }
    let length: u64 = received[0] as u64 * 0x1000000 + received[1] as u64 * 0x10000
        + received[2] as u64 * 0x100 + received[3] as u64;
    let rest = have - 4;
    if (rest as u64) < length {
        FrameRead::More((length - rest as u64) as usize)
    } else {
        let part = vstd::slice::slice_subrange(received, 4, 4 + length as usize);
        FrameRead::Complete(vstd::slice::slice_to_vec(part))
    }
}

/// Four bytes hold every number below 2^32 and give it back.
proof fn lemma_big_endian(n: nat, rest: Seq<u8>)
    requires
        n < 0x100000000,
    ensures
        big_endian_value(big_endian(n) + rest) == n,
{
    let bytes = big_endian(n) + rest;
    assert(bytes[0] == n / 0x1000000 % 0x100);
    assert(bytes[1] == n / 0x10000 % 0x100);
    assert(bytes[2] == n / 0x100 % 0x100);
    assert(bytes[3] == n % 0x100);
}

/// A frame is read back as the message it was made of, and until it is whole exactly the bytes
/// that are missing of it are asked for, first of its length and then of the message.
///
/// This holds of every message whose length four bytes can hold.
pub proof fn law_frame_round_trip(serialized: Seq<u8>, received: Seq<u8>, step: FrameRead)
    requires
        serialized.len() < 0x100000000,
        received.is_prefix_of(frame(serialized)),
        frame_read(received, step),
    ensures
        received.len() < 4 ==> step == FrameRead::More((4 - received.len()) as usize),
        4 <= received.len() < frame(serialized).len() ==> (step matches FrameRead::More(n) && n
            == frame(serialized).len() - received.len()),
        received == frame(serialized) ==> (step matches FrameRead::Complete(message) && message@
            == serialized),
{
    let whole = frame(serialized);
    if received.len() >= 4 {
        lemma_big_endian(serialized.len(), serialized);
        assert(received == whole.subrange(0, received.len() as int));
        assert(received[0] == whole[0] && received[1] == whole[1] && received[2] == whole[2]
            && received[3] == whole[3]);
        assert(whole.subrange(4, 4 + serialized.len() as int) == serialized);
    }
}

/// A frame is four bytes and the message as it is; the four bytes are its length, the most
/// significant first, where they can hold it.
pub proof fn law_frame_holds_length_and_message(serialized: Seq<u8>)
    ensures
        frame(serialized).len() == serialized.len() + 4,
        frame(serialized).skip(4) == serialized,
        serialized.len() < 0x100000000 ==> serialized.len() == frame(serialized)[0] * 0x1000000
            + frame(serialized)[1] * 0x10000 + frame(serialized)[2] * 0x100 + frame(serialized)[3],
{
    assert(frame(serialized).skip(4) == serialized);
    if serialized.len() < 0x100000000 {
        lemma_big_endian(serialized.len(), serialized);
    }
}

/// Whatever bytes have come, the message of a whole frame is what stands behind the first four of
/// them, and it is as long as these say; what comes behind it is not touched.
pub proof fn law_read_takes_stated_length(received: Seq<u8>, step: FrameRead)
    requires
        frame_read(received, step),
        received.len() >= 4,
    ensures
        ({
            let stated = received[0] * 0x1000000 + received[1] * 0x10000 + received[2] * 0x100
                + received[3];
            match step {
                FrameRead::More(missing) => received.len() + missing == 4 + stated && missing > 0,
                FrameRead::Complete(message) => {
                    &&& message@.len() == stated
                    &&& (received.take(4) + message@).is_prefix_of(received)
                },
            }
        }),
{
    if let FrameRead::Complete(message) = step {
        let whole = received.take(4) + message@;
        assert(whole == received.subrange(0, whole.len() as int));
    }
}

/// The fields of two lists are shown one list behind the other, with a comma between; one field is
/// shown as its name and its value, quoted.
pub proof fn law_fields_are_shown_in_order(a: Fields, b: Fields, name: Seq<char>, value: Seq<char>)
    ensures
        fields_text(seq![(name, value)]) == debug_quoted(name) + ": "@ + debug_quoted(value),
        fields_text(Fields::empty()).len() == 0,
        a.len() > 0 && b.len() > 0 ==> fields_text(a + b) == fields_text(a) + ", "@ + fields_text(
            b,
        ),
    decreases b.len(),
{
    if a.len() > 0 && b.len() > 0 {
        let front = b.drop_last();
        assert((a + b).drop_last() == a + front);
        assert((a + b).last() == b.last());
        let one = debug_quoted(b.last().0) + ": "@ + debug_quoted(b.last().1);
        if front.len() > 0 {
            law_fields_are_shown_in_order(a, front, name, value);
            assert(fields_text(a) + ", "@ + fields_text(front) + ", "@ + one == fields_text(a)
                + ", "@ + (fields_text(front) + ", "@ + one));
        } else {
            assert(a + front == a);
            assert(fields_text(a + b) == fields_text(a) + ", "@ + one);
            assert(fields_text(b) == one);
        }
    }
}

/// What is shown of data begins with what it is and its numbers or texts, and ends with the length
/// of its bytes; the bytes themselves do not matter.
pub proof fn law_data_is_shown(
    status: u16,
    headers: Headers,
    body: Vec<u8>,
    stream_id: u32,
    is_end: bool,
    request: HttpRequest,
)
    ensures
        ({
            let text = http_data_text(HttpData::Response { status, headers, body });
            &&& ("Response { status: "@ + decimal(status as nat)
                + ", headers: {"@ + fields_text(headers@)).is_prefix_of(text)
            &&& ("}, body: "@ + decimal(body@.len()) + " B }"@).is_suffix_of(text)
            &&& text.len() == ("Response { status: "@ + decimal(status as nat)
                + ", headers: {"@ + fields_text(headers@)).len() + ("}, body: "@ + decimal(
                body@.len(),
            ) + " B }"@).len()
        }),
        ({
            let text = http_data_text(HttpData::BodyChunk { stream_id, data: body, is_end });
            let front = "BodyChunk { stream_id: "@ + decimal(stream_id as nat) + ", data: "@
                + decimal(body@.len()) + " B, is_end: "@;
            &&& is_end ==> text == front + "true }"@
            &&& !is_end ==> text == front + "false }"@
        }),
        ({
            let text = http_data_text(HttpData::Request(request));
            let front = "Request { method: "@ + debug_quoted(request.method@) + ", url: "@
                + debug_quoted(request.url@) + ", headers: {"@ + fields_text(request.headers@);
            let back = "}, body: "@ + body_reader_text(request.body_reader) + ", version: "@
                + decimal(request.version as nat) + " }"@;
            &&& front.is_prefix_of(text)
            &&& back.is_suffix_of(text)
            &&& text.len() == front.len() + back.len()
        }),
        ({
            let text = body_reader_text(BodyReader::Fixed(body@.len() as usize));
            &&& "Fixed("@.is_prefix_of(text)
            &&& ")"@.is_suffix_of(text)
            &&& body@.len() <= usize::MAX ==> text.subrange(
                "Fixed("@.len() as int,
                text.len() - ")"@.len(),
            ) == decimal(body@.len())
        }),
        body_reader_text(BodyReader::Chunked) == "Chunked"@,
{
    reveal_strlit("true");
    reveal_strlit("false");
    reveal_strlit(" }");
    reveal_strlit("true }");
    reveal_strlit("false }");
    {
        let text = http_data_text(HttpData::Response { status, headers, body });
        let front = "Response { status: "@ + decimal(status as nat) + ", headers: {"@ + fields_text(
            headers@,
        );
        let back = "}, body: "@ + decimal(body@.len()) + " B }"@;
        assert(text == front + back);
        assert(text.subrange(0, front.len() as int) == front);
        assert(text.subrange(front.len() as int, text.len() as int) == back);
    }
    {
        let text = http_data_text(HttpData::BodyChunk { stream_id, data: body, is_end });
        let front = "BodyChunk { stream_id: "@ + decimal(stream_id as nat) + ", data: "@ + decimal(
            body@.len(),
        ) + " B, is_end: "@;
        assert("true"@ + " }"@ == "true }"@);
        assert("false"@ + " }"@ == "false }"@);
        assert(text == front + (bool_text(is_end) + " }"@));
    }
    {
        let text = http_data_text(HttpData::Request(request));
        let front = "Request { method: "@ + debug_quoted(request.method@) + ", url: "@
            + debug_quoted(request.url@) + ", headers: {"@ + fields_text(request.headers@);
        let back = "}, body: "@ + body_reader_text(request.body_reader) + ", version: "@ + decimal(
            request.version as nat,
        ) + " }"@;
        assert(text == front + back);
        assert(text.subrange(0, front.len() as int) == front);
        assert(text.subrange(front.len() as int, text.len() as int) == back);
    }
    {
        let text = body_reader_text(BodyReader::Fixed(body@.len() as usize));
        let digits = decimal((body@.len() as usize) as nat);
        assert(text == "Fixed("@ + digits + ")"@);
        assert(text.subrange(0, "Fixed("@.len() as int) == "Fixed("@);
        assert(text.subrange(text.len() - ")"@.len(), text.len() as int) == ")"@);
        assert(text.subrange("Fixed("@.len() as int, text.len() - ")"@.len()) == digits);
    }
}

/// What stands for a request, for the end of the tunnel that shares files and for a tunnel is all
/// that each of them holds.
pub proof fn law_views_of_connections(request: HttpRequest, client: UpstreamClient, tunnel: Tunnel)
    ensures
        request@.method == request.method@,
        request@.url == request.url@,
        request@.version == request.version,
        request@.headers == request.headers@,
        request@.body_reader == request.body_reader,
        client@.0 == client.stream,
        client@.1 == client.protocols@,
        tunnel@.0 == tunnel.upstream@,
        tunnel@.1 == tunnel.downstream.stream,
{
}

} // verus!
