//! What the end of the tunnel that shares files does with what comes through it.

use dashmap::DashMap;
use vstd::prelude::*;
use vstd::string::*;

use crate::client::utils::{asks_for_video, is_video_request};
use crate::headers::{
    collected, fields_of, law_first_field_is_found, lookup, Fields, Headers,
};
use crate::number::{
    decimal, law_number_round_trip, lemma_digits_are_alphanumeric, parse_number, push_decimal,
    read_number, socket_address,
};
use crate::protocol::{
    copy_protocols, Data, Error, HttpData, HttpRequest, Message, ProtocolType,
    STREAMING_THRESHOLD,
};
use crate::registry::{
    add_stream, find_stream, no_streams, remove_stream, streams_in, ChannelId,
};
use crate::text::{chars_of, same_text};

verus! {

/// How many messages a channel holds.
pub const CHANNEL_BUF_SIZE: usize = 8192;

/// How long the client waits, in milliseconds, before it repeats a handshake.
pub const HANDSHAKE_RETRY_MILLIS: u64 = 1000;

/// How long the client waits, in milliseconds, once it has closed a stream.
pub const CLOSE_DELAY_MILLIS: u64 = 100;

/// What the client is told to do.
pub struct Config {
    file_server_port: u16,
    remote_host: String,
    remote_port: u16,
    supported_protocols: Vec<ProtocolType>,
    supported_version: u32,
    auth_token: Option<String>,
}

/// What stands for what the client is told to do.
pub struct ConfigView {
    pub file_server_port: u16,
    pub remote_host: Seq<char>,
    pub remote_port: u16,
    pub supported_protocols: Seq<ProtocolType>,
    pub supported_version: u32,
    pub auth_token: Option<Seq<char>>,
}

/// The end of the tunnel that shares files.
pub struct Client {
    config: Config,
    active_streams: DashMap<u32, ChannelId>,
}

/// What stands for the end of the tunnel that shares files.
pub struct ClientView {
    pub config: ConfigView,
    /// The channels of the streams that are open.
    pub streams: Map<u32, ChannelId>,
}

/// What a token that may be missing stands for.
pub open spec fn token_view(token: Option<String>) -> Option<Seq<char>> {
    match token {
        Some(token) => Some(token@),
        None => None,
    }
}

impl View for Config {
    type V = ConfigView;

    closed spec fn view(&self) -> ConfigView {
        ConfigView {
            file_server_port: self.file_server_port,
            remote_host: self.remote_host@,
            remote_port: self.remote_port,
            supported_protocols: self.supported_protocols@,
            supported_version: self.supported_version,
            auth_token: token_view(self.auth_token),
        }
    }
}

impl View for Client {
    type V = ClientView;

    closed spec fn view(&self) -> ClientView {
        ClientView { config: self.config@, streams: streams_in(self.active_streams) }
    }
}

impl Config {
    pub fn new(
        file_server_port: u16,
        remote_host: String,
        remote_port: u16,
        supported_protocols: Vec<ProtocolType>,
        supported_version: u32,
        auth_token: Option<String>,
    ) -> (config: Self)
        ensures
            config@ == (ConfigView {
                file_server_port,
                remote_host: remote_host@,
                remote_port,
                supported_protocols: supported_protocols@,
                supported_version,
                auth_token: token_view(auth_token),
            }),
    {
        Self {
            file_server_port,
            remote_host,
            remote_port,
            supported_protocols,
            supported_version,
            auth_token,
        }
    }
}

/// What a handshake's reply means.
pub enum HandshakeStep {
    /// Files are now shared under this subdomain.
    Registered(String),
    /// The handshake is repeated after so many milliseconds.
    RetryAfter(u64),
}

/// What is done with a message that came through the tunnel.
pub enum Action {
    /// A stream is handled that takes its messages from a new channel; the channel that the
    /// stream had before, where it had one, is dropped.
    HandleStream { stream_id: u32, replaced: Option<ChannelId> },
    /// A file is fetched; where `force_stream` holds, it is sent back as a stream.
    Fetch { url: String, force_stream: bool },
    /// A message goes into a channel.
    Forward { channel: ChannelId, message: Message },
    /// So many milliseconds pass, and then a channel is dropped.
    CloseStream { channel: ChannelId, wait_millis: u64 },
    /// A channel is dropped.
    DropStream { channel: ChannelId },
    /// Nothing.
    Ignore,
}

/// Whether the client knows what to do with a message.
pub open spec fn handled(message: Message) -> bool {
    match message {
        Message::StreamOpen { .. } => true,
        Message::StreamClose { .. } => true,
        Message::Data(Data::Http(_)) => true,
        Message::Error(Error::Stream(_)) => true,
        _ => false,
    }
}

/// The streams that are open once a message has come; where it opens a stream, `channel` is the
/// new channel.
pub open spec fn streams_after(
    streams: Map<u32, ChannelId>,
    message: Message,
    channel: ChannelId,
) -> Map<u32, ChannelId> {
    match message {
        Message::StreamOpen { stream_id, .. } => streams.insert(stream_id, channel),
        Message::StreamClose { stream_id } => streams.remove(stream_id),
        Message::Error(Error::Stream(stream_id)) => streams.remove(stream_id),
        _ => streams,
    }
}

/// What is done with a message, where these streams are open.
pub open spec fn action_for(streams: Map<u32, ChannelId>, message: Message) -> Action {
    match message {
        Message::StreamOpen { stream_id, .. } => Action::HandleStream {
            stream_id,
            replaced: streams.get(stream_id),
        },
        Message::Data(Data::Http(HttpData::Request(request))) => Action::Fetch {
            url: request.url,
            force_stream: asks_for_video(request.headers@, request.url@),
        },
        Message::Data(Data::Http(HttpData::BodyChunk { stream_id, .. })) => {
            match streams.get(stream_id) {
                Some(channel) => Action::Forward { channel, message },
                None => Action::Ignore,
            }
        },
        Message::StreamClose { stream_id } => match streams.get(stream_id) {
            Some(channel) => Action::CloseStream { channel, wait_millis: CLOSE_DELAY_MILLIS },
            None => Action::Ignore,
        },
        Message::Error(Error::Stream(stream_id)) => match streams.get(stream_id) {
            Some(channel) => Action::DropStream { channel },
            None => Action::Ignore,
        },
        _ => Action::Ignore,
    }
}

/// The URL under which a file is fetched.
pub open spec fn local_url(port: u16, url: Seq<char>) -> Seq<char> {
    "http://localhost:"@ + decimal(port as nat) + url
}

/// The URL under which a file is fetched.
pub fn file_url(file_server_port: u16, url: &str) -> (full: String)
    ensures
        full@ == local_url(file_server_port, url@),
{
    let mut full = "http://localhost:".to_owned();
    push_decimal(&mut full, file_server_port as u64);
    full.append(url);
    full
}

/// What a handshake's reply means: where it is none, the handshake is repeated.
pub open spec fn handshake_step(reply: Message) -> HandshakeStep {
    match reply {
        Message::HandshakeResponse { subdomain, .. } => HandshakeStep::Registered(subdomain),
        _ => HandshakeStep::RetryAfter(HANDSHAKE_RETRY_MILLIS),
    }
}

/// What a handshake's reply means: where it is none, the handshake is repeated.
pub fn read_handshake(reply: Message) -> (step: HandshakeStep)
    ensures
        step == handshake_step(reply),
{
    match reply {
        Message::HandshakeResponse { subdomain, .. } => HandshakeStep::Registered(subdomain),
        _ => HandshakeStep::RetryAfter(HANDSHAKE_RETRY_MILLIS),
    }
}

/// Whether the client knows what to do with a message.
pub fn is_handled(message: &Message) -> (known: bool)
    ensures
        known == handled(*message),
{
    match message {
        Message::StreamOpen { .. } => true,
        Message::StreamClose { .. } => true,
        Message::Data(Data::Http(_)) => true,
        Message::Error(Error::Stream(_)) => true,
        _ => false,
    }
}

impl Client {
    pub fn new(config: Config) -> (client: Self)
        ensures
            client@.config == config@,
            client@.streams.is_empty(),
    {
        Self { config, active_streams: no_streams() }
    }

    /// The port at which files are asked for.
    pub fn file_server_port(&self) -> (port: u16)
        ensures
            port == self@.config.file_server_port,
    {
        self.config.file_server_port
    }

    /// The address of the public end of the tunnel.
    pub fn server_address(&self) -> (address: String)
        ensures
            address@ == self@.config.remote_host + ":"@ + decimal(
                self@.config.remote_port as nat,
            ),
            address@ == socket_address(self@.config.remote_host, self@.config.remote_port),
    {
        let mut address = self.config.remote_host.clone();
        address.append(":");
        push_decimal(&mut address, self.config.remote_port as u64);
        address
    }

    /// The message with which the client asks to share files.
    pub fn handshake_request(&self) -> (request: Message)
        ensures
            request matches Message::HandshakeRequest {
                supported_version,
                supported_protocols,
                auth_token,
            } && {
                &&& supported_version == self@.config.supported_version
                &&& supported_protocols@ == self@.config.supported_protocols
                &&& token_view(auth_token) == self@.config.auth_token
            },
    {
        let auth_token = match &self.config.auth_token {
            Some(token) => Some(token.clone()),
            None => None,
        };
        Message::HandshakeRequest {
            supported_version: self.config.supported_version,
            supported_protocols: copy_protocols(&self.config.supported_protocols),
            auth_token,
        }
    }

    /// Decides what is done with a message that came through the tunnel; where it opens a stream,
    /// the stream takes its messages from `channel`.
    pub fn handle_message(&mut self, message: Message, channel: ChannelId) -> (action: Action)
        requires
            handled(message),
        ensures
            action == action_for(old(self)@.streams, message),
            final(self)@ == (ClientView {
                config: old(self)@.config,
                streams: streams_after(old(self)@.streams, message, channel),
            }),
    {
        match message {
            Message::StreamOpen { stream_id, .. } => {
                let replaced = add_stream(&mut self.active_streams, stream_id, channel);
                Action::HandleStream { stream_id, replaced }
            },
            Message::Data(Data::Http(HttpData::Request(request))) => {
                let force_stream = is_video_request(&request.headers, request.url.as_str());
                Action::Fetch { url: request.url, force_stream }
            },
            Message::Data(Data::Http(HttpData::BodyChunk { stream_id, data, is_end })) => {
                let message = Message::http_chunk(stream_id, data, is_end);
                match find_stream(&self.active_streams, stream_id) {
                    Some(channel) => Action::Forward { channel, message },
                    None => Action::Ignore,
                }
            },
            Message::StreamClose { stream_id } => {
                match remove_stream(&mut self.active_streams, stream_id) {
                    Some(channel) => Action::CloseStream {
                        channel,
                        wait_millis: CLOSE_DELAY_MILLIS,
                    },
                    None => Action::Ignore,
                }
            },
            Message::Error(Error::Stream(stream_id)) => {
                match remove_stream(&mut self.active_streams, stream_id) {
                    Some(channel) => Action::DropStream { channel },
                    None => Action::Ignore,
                }
            },
            _ => Action::Ignore,
        }
    }
}

/// What comes of a file while it is sent back in parts.
pub enum RelayEvent {
    /// A part of the file.
    Part(Vec<u8>),
    /// The file cannot be read any further.
    ReadFailed,
    /// The last part could not be sent.
    SendFailed,
    /// The file has ended.
    Ended,
}

/// What is sent of a file next.
pub enum RelayStep {
    /// This message.
    Send(Message),
    /// These two messages, in this order, and nothing behind them.
    Finish { end: Message, close: Message },
}

/// What is sent back before the parts of a file.
pub struct BegunAnswer {
    /// The number of the stream over which the parts follow.
    pub stream_id: u32,
    pub first: Message,
    pub second: Message,
}

/// How a file that was fetched is sent back.
pub enum AnswerPlan {
    /// As a stream, which begins so.
    Streamed(BegunAnswer),
    /// In one piece, once all of it is there.
    Whole { status: u16, headers: Headers },
}

/// Why a stream is not answered.
#[derive(Clone, Copy, Debug, PartialEq, Eq, Structural)]
pub enum StreamError {
    /// Its first message is no request.
    NotARequest,
}

/// Whether an answer with these header fields is sent back as a stream.
pub open spec fn streams_answer(force_stream: bool, fields: Fields) -> bool {
    ||| force_stream
    ||| lookup(fields, "transfer-encoding"@) == Some("chunked"@)
    ||| match lookup(fields, "content-length"@) {
        Some(text) => match parse_number(text, 10, usize::MAX as nat) {
            Some(length) => length > STREAMING_THRESHOLD,
            None => false,
        },
        None => false,
    }
}

/// Whether a message is a response with this status, these header fields and this body.
pub open spec fn is_response(message: Message, status: u16, fields: Fields, body: Seq<u8>) -> bool {
    &&& message matches Message::Data(
        Data::Http(HttpData::Response { status: s, headers: h, body: b }),
    )
    &&& s == status
    &&& h@ == fields
    &&& b@ == body
}

/// Whether a message carries this part of a body.
pub open spec fn is_part(message: Message, stream_id: u32, part: Seq<u8>, last: bool) -> bool {
    &&& message matches Message::Data(
        Data::Http(HttpData::BodyChunk { stream_id: id, data, is_end }),
    )
    &&& id == stream_id
    &&& data@ == part
    &&& is_end == last
}

/// Whether a file begins to be sent back as a stream so: the stream is opened, then comes the head
/// of the answer.
pub open spec fn begins_answer(begun: BegunAnswer, status: u16, fields: Fields) -> bool {
    &&& begun.first == (Message::StreamOpen {
        stream_id: begun.stream_id,
        protocol: ProtocolType::Http,
    })
    &&& is_response(begun.second, status, fields, seq![])
}

/// What is sent of a file next.
pub open spec fn relays(step: RelayStep, stream_id: u32, event: RelayEvent) -> bool {
    match event {
        RelayEvent::Part(part) => step matches RelayStep::Send(message) && is_part(
            message,
            stream_id,
            part@,
            false,
        ),
        _ => step matches RelayStep::Finish { end, close } && is_part(end, stream_id, seq![], true)
            && close == (Message::StreamClose { stream_id }),
    }
}

/// Whether an answer is sent back as a stream: where that is asked for, where it comes in chunks
/// and where it is long. Of several header fields of one name the first counts.
pub fn should_stream_answer(force_stream: bool, headers: &Vec<(String, String)>) -> (streaming: bool)
    ensures
        streaming == streams_answer(force_stream, fields_of(headers@)),
{
    let chunked = match first_value(headers, "transfer-encoding") {
        Some(encoding) => same_text(encoding, "chunked"),
        None => false,
    };
    let long = match first_value(headers, "content-length") {
        Some(text) => match read_number(chars_of(text).as_slice(), 10, usize::MAX as u64) {
            Some(length) => length > STREAMING_THRESHOLD as u64,
            None => false,
        },
        None => false,
    };
    force_stream || chunked || long
}

/// The first value under a name.
fn first_value<'a>(headers: &'a Vec<(String, String)>, name: &str) -> (value: Option<&'a str>)
    ensures
        match value {
            Some(v) => lookup(fields_of(headers@), name@) == Some(v@),
            None => lookup(fields_of(headers@), name@) is None,
        },
{
    let ghost fields = fields_of(headers@);
    assert(fields.skip(0) == fields);
    for i in 0..headers.len()
        invariant
            fields == fields_of(headers@),
            lookup(fields.skip(i as int), name@) == lookup(fields, name@),
    {
        if same_text(headers[i].0.as_str(), name) {
            return Some(headers[i].1.as_str());
        }
        assert(fields.skip(i as int).drop_first() == fields.skip(i + 1));
    }
    assert(fields.skip(fields.len() as int) == Fields::empty());
    None
}

/// Begins to send a file back as a stream: the stream is opened under a number drawn at random,
/// then comes the head of the answer.
pub fn begin_answer(status: u16, headers: Headers) -> (begun: BegunAnswer)
    ensures
        begins_answer(begun, status, headers@),
{
    match Message::stream_open(ProtocolType::Http) {
        Message::StreamOpen { stream_id, .. } => BegunAnswer {
            stream_id,
            first: Message::stream_open_as(stream_id, ProtocolType::Http),
            second: whole_answer(status, headers, Vec::new()),
        },
        _ => vstd::pervasive::unreached(),
    }
}

/// Begins to answer a stream: first comes the head of the answer, then a stream of its own is
/// opened under a number drawn at random.
pub fn begin_stream_answer(status: u16, headers: Headers) -> (begun: BegunAnswer)
    ensures
        is_response(begun.first, status, headers@, seq![]),
        begun.second == (Message::StreamOpen {
            stream_id: begun.stream_id,
            protocol: ProtocolType::Http,
        }),
{
    let begun = begin_answer(status, headers);
    BegunAnswer { stream_id: begun.stream_id, first: begun.second, second: begun.first }
}

/// Decides how the file that was fetched is sent back, by its status and its header fields. Of
/// several header fields of one name the last is sent back.
pub fn plan_answer(
    force_stream: bool,
    status: u16,
    headers: Vec<(String, String)>,
) -> (plan: AnswerPlan)
    ensures
        if streams_answer(force_stream, fields_of(headers@)) {
            &&& plan matches AnswerPlan::Streamed(begun)
            &&& begins_answer(begun, status, collected(fields_of(headers@)))
        } else {
            &&& plan matches AnswerPlan::Whole { status: s, headers: h }
            &&& s == status
            &&& h@ == collected(fields_of(headers@))
        },
{
    if should_stream_answer(force_stream, &headers) {
        AnswerPlan::Streamed(begin_answer(status, Headers::from_pairs(headers)))
    } else {
        AnswerPlan::Whole { status, headers: Headers::from_pairs(headers) }
    }
}

/// An answer in one piece.
pub fn whole_answer(status: u16, headers: Headers, body: Vec<u8>) -> (message: Message)
    ensures
        message == Message::Data(Data::Http(HttpData::Response { status, headers, body })),
{
    Message::Data(Data::Http(HttpData::Response { status, headers, body }))
}

/// Decides what is sent of a file next, over the stream of the given number: each part as it comes
/// and, at the end or once something fails, an empty last part and the end of the stream.
pub fn relay_step(stream_id: u32, event: RelayEvent) -> (step: RelayStep)
    ensures
        relays(step, stream_id, event),
{
    match event {
        RelayEvent::Part(part) => RelayStep::Send(Message::http_chunk(stream_id, part, false)),
        _ => {
            let end = Message::http_chunk(stream_id, Vec::new(), true);
            RelayStep::Finish { end, close: Message::stream_close(stream_id) }
        },
    }
}

impl Client {
    /// Decides what a stream is about, by the first message out of its channel: nothing where the
    /// channel was closed.
    pub fn handle_stream(first: Option<Message>) -> (request: Result<
        Option<HttpRequest>,
        StreamError,
    >)
        ensures
            request == match first {
                None => Ok::<Option<HttpRequest>, StreamError>(None),
                Some(Message::Data(Data::Http(HttpData::Request(request)))) => Ok(Some(request)),
                Some(_) => Err(StreamError::NotARequest),
            },
    {
        match first {
            None => Ok(None),
            Some(Message::Data(Data::Http(HttpData::Request(request)))) => Ok(Some(request)),
            Some(_) => Err(StreamError::NotARequest),
        }
    }

    /// The part of a request's body that a message out of a stream's channel carries, where it
    /// carries one.
    pub fn body_part(message: Message) -> (part: Option<Vec<u8>>)
        ensures
            part == match message {
                Message::Data(Data::Http(HttpData::BodyChunk { data, .. })) => Some(data),
                _ => None,
            },
    {
        match message {
            Message::Data(Data::Http(HttpData::BodyChunk { data, .. })) => Some(data),
            _ => None,
        }
    }

    /// What is sent back once a stream has been handled: nothing, but where that has failed.
    pub fn finish_stream(stream_id: u32, failed: bool) -> (message: Option<Message>)
        ensures
            message == if failed {
                Some(Message::Error(Error::Stream(stream_id)))
            } else {
                None
            },
    {
        if failed {
            Some(Message::Error(Error::Stream(stream_id)))
        } else {
            None
        }
    }
}

/// A stream that was opened gets its parts into the channel that was opened for it, whatever
/// happens to other streams in between.
pub proof fn law_open_stream_gets_its_parts(
    streams: Map<u32, ChannelId>,
    opening: Message,
    channel: ChannelId,
    between: Seq<Message>,
    channels: Seq<ChannelId>,
    part: Message,
    stream_id: u32,
)
    requires
        opening matches Message::StreamOpen { stream_id: id, .. } && id == stream_id,
        part matches Message::Data(Data::Http(HttpData::BodyChunk { stream_id: id, .. })) && id
            == stream_id,
        between.len() == channels.len(),
        forall|i: int| 0 <= i < between.len() ==> !concerns(#[trigger] between[i], stream_id),
    ensures
        action_for(
            streams_after_all(streams_after(streams, opening, channel), between, channels),
            part,
        ) == (Action::Forward { channel, message: part }),
{
    law_other_messages_change_nothing(
        streams_after(streams, opening, channel),
        between,
        channels,
        stream_id,
    );
}

/// Whether a message opens or closes the stream of this number.
pub open spec fn concerns(message: Message, stream_id: u32) -> bool {
    match message {
        Message::StreamOpen { stream_id: id, .. } => id == stream_id,
        Message::StreamClose { stream_id: id } => id == stream_id,
        Message::Error(Error::Stream(id)) => id == stream_id,
        _ => false,
    }
}

/// The streams that are open once all of these messages have come.
pub open spec fn streams_after_all(
    streams: Map<u32, ChannelId>,
    messages: Seq<Message>,
    channels: Seq<ChannelId>,
) -> Map<u32, ChannelId>
    decreases messages.len(),
{
    if messages.len() == 0 {
        streams
    } else {
        streams_after(
            streams_after_all(streams, messages.drop_last(), channels.drop_last()),
            messages.last(),
            channels.last(),
        )
    }
}

/// What opens or closes other streams does not change whether a stream is open, nor its channel.
pub proof fn law_other_messages_change_nothing(
    streams: Map<u32, ChannelId>,
    messages: Seq<Message>,
    channels: Seq<ChannelId>,
    stream_id: u32,
)
    requires
        messages.len() == channels.len(),
        forall|i: int| 0 <= i < messages.len() ==> !concerns(#[trigger] messages[i], stream_id),
    ensures
        streams_after_all(streams, messages, channels).get(stream_id) == streams.get(stream_id),
    decreases messages.len(),
{
    if messages.len() > 0 {
        let front = messages.drop_last();
        assert forall|i: int| 0 <= i < front.len() implies !concerns(
            #[trigger] front[i],
            stream_id,
        ) by {
            assert(front[i] == messages[i]);
        }
        law_other_messages_change_nothing(streams, front, channels.drop_last(), stream_id);
        assert(!concerns(messages[messages.len() - 1], stream_id));
    }
}

/// Once a stream is closed, or has failed, its parts are ignored until it is opened anew.
pub proof fn law_closed_stream_gets_nothing(
    streams: Map<u32, ChannelId>,
    closing: Message,
    between: Seq<Message>,
    channels: Seq<ChannelId>,
    channel: ChannelId,
    part: Message,
    stream_id: u32,
)
    requires
        closing == (Message::StreamClose { stream_id }) || closing == Message::Error(
            Error::Stream(stream_id),
        ),
        part matches Message::Data(Data::Http(HttpData::BodyChunk { stream_id: id, .. })) && id
            == stream_id,
        between.len() == channels.len(),
        forall|i: int| 0 <= i < between.len() ==> !concerns(#[trigger] between[i], stream_id),
    ensures
        action_for(
            streams_after_all(streams_after(streams, closing, channel), between, channels),
            part,
        ) == Action::Ignore,
{
    law_other_messages_change_nothing(
        streams_after(streams, closing, channel),
        between,
        channels,
        stream_id,
    );
}

/// The URL under which a file is fetched is that of this machine, at the port of the file server,
/// with the URL that was asked for behind it: the port can be read back from it, whichever it is,
/// so different ports give different URLs.
pub proof fn law_file_url_names_port(port: u16, url: Seq<char>, other: u16)
    ensures
        ({
            let host = seq![
                'h', 't', 't', 'p', ':', '/', '/', 'l', 'o', 'c', 'a', 'l', 'h', 'o', 's', 't', ':',
            ];
            let full = local_url(port, url);
            &&& host.is_prefix_of(full)
            &&& url.is_suffix_of(full)
            &&& full.len() > host.len() + url.len()
            &&& parse_number(
                full.subrange(host.len() as int, full.len() - url.len()),
                10,
                u16::MAX as nat,
            ) == Some(port as nat)
        }),
        local_url(other, url) == local_url(port, url) ==> other == port,
{
    reveal_strlit("http://localhost:");
    let host = seq![
        'h', 't', 't', 'p', ':', '/', '/', 'l', 'o', 'c', 'a', 'l', 'h', 'o', 's', 't', ':',
    ];
    assert("http://localhost:"@ == host);
    let full = local_url(port, url);
    let digits = decimal(port as nat);
    lemma_digits_are_alphanumeric(port as nat, 10);
    lemma_digits_are_alphanumeric(other as nat, 10);
    assert(full.subrange(0, host.len() as int) == host);
    assert(full.subrange(full.len() - url.len(), full.len() as int) == url);
    assert(full.subrange(host.len() as int, full.len() - url.len()) == digits);
    law_number_round_trip(port as nat, 10, u16::MAX as nat);
    law_number_round_trip(other as nat, 10, u16::MAX as nat);
    if local_url(other, url) == full {
        let same = local_url(other, url);
        assert(same.subrange(host.len() as int, same.len() - url.len()) == decimal(other as nat));
    }
}

/// An answer is streamed where its length is above a mebibyte, where it comes in chunks, or where
/// that is asked for; a length no greater does not make it a stream, and other fields do not matter.
pub proof fn law_answer_is_streamed(
    front: Fields,
    back: Fields,
    length: nat,
    value: Seq<char>,
)
    requires
        length <= usize::MAX,
        forall|i: int|
            0 <= i < front.len() ==> (#[trigger] front[i]).0 != "content-length"@ && front[i].0
                != "transfer-encoding"@,
    ensures
        streams_answer(true, front),
        !streams_answer(false, front),
        streams_answer(
            false,
            front + seq![("transfer-encoding"@, "chunked"@)] + back,
        ),
        length > 1048576 ==> streams_answer(
            false,
            front + seq![("content-length"@, decimal(length))] + back,
        ),
        length <= 1048576 ==> !streams_answer(
            false,
            front + seq![("content-length"@, decimal(length))],
        ),
        value != "chunked"@ ==> !streams_answer(
            false,
            front + seq![("transfer-encoding"@, value)],
        ),
{
    reveal_strlit("content-length");
    reveal_strlit("transfer-encoding");
    assert("content-length"@.len() == 14 && "transfer-encoding"@.len() == 17);
    law_first_field_is_found(front, "transfer-encoding"@, "chunked"@, back);
    law_first_field_is_found(front, "content-length"@, decimal(length), back);
    law_first_field_is_found(front, "content-length"@, decimal(length), seq![]);
    law_first_field_is_found(front, "transfer-encoding"@, value, seq![]);
    let sized = front + seq![("content-length"@, decimal(length))];
    let coded = front + seq![("transfer-encoding"@, value)];
    assert(sized + Fields::empty() == sized);
    assert(coded + Fields::empty() == coded);
    assert forall|i: int| 0 <= i < sized.len() implies (#[trigger] sized[i]).0
        != "transfer-encoding"@ by {
        if i < front.len() {
            assert(sized[i] == front[i]);
        }
    }
    assert forall|i: int| 0 <= i < coded.len() implies (#[trigger] coded[i]).0
        != "content-length"@ by {
        if i < front.len() {
            assert(coded[i] == front[i]);
        }
    }
    law_first_field_is_found(sized, "transfer-encoding"@, value, seq![]);
    law_first_field_is_found(coded, "content-length"@, value, seq![]);
    law_number_round_trip(length, 10, usize::MAX as nat);
}

/// A message that carries a part of a body names its stream, holds the whole part and says whether
/// it is the last; a message that is a response holds its status, all its fields and its body.
pub proof fn law_messages_hold_what_they_carry(
    message: Message,
    stream_id: u32,
    part: Seq<u8>,
    last: bool,
    status: u16,
    fields: Fields,
)
    ensures
        is_part(message, stream_id, part, last) <==> (message matches Message::Data(
            Data::Http(HttpData::BodyChunk { stream_id: id, data, is_end }),
        ) && id == stream_id && data@ == part && is_end == last),
        is_response(message, status, fields, part) <==> (message matches Message::Data(
            Data::Http(HttpData::Response { status: s, headers, body }),
        ) && s == status && headers@ == fields && body@ == part),
{
}

/// What is sent of a file next carries the whole part that came; whatever else came, what is sent
/// ends the body and the stream.
pub proof fn law_relay(step: RelayStep, stream_id: u32, event: RelayEvent)
    requires
        relays(step, stream_id, event),
    ensures
        event matches RelayEvent::Part(part) ==> (step matches RelayStep::Send(
            Message::Data(Data::Http(HttpData::BodyChunk { stream_id: id, data, is_end })),
        ) && id == stream_id && data@ == part@ && !is_end),
        !(event is Part) ==> (step matches RelayStep::Finish {
            end: Message::Data(Data::Http(HttpData::BodyChunk { stream_id: id, data, is_end })),
            close: Message::StreamClose { stream_id: closed },
        } && id == stream_id && data@.len() == 0 && is_end && closed == stream_id),
{
}

/// A stream that is closed or has failed hands its channel back, where it was open; closing waits a
/// tenth of a second, failing does not. A stream that is opened anew hands its old channel back.
pub proof fn law_channel_is_handed_back(
    streams: Map<u32, ChannelId>,
    stream_id: u32,
    channel: ChannelId,
    protocol: ProtocolType,
    new: ChannelId,
)
    ensures
        ({
            let open = streams.insert(stream_id, channel);
            let close = Message::StreamClose { stream_id };
            let fail = Message::Error(Error::Stream(stream_id));
            let again = Message::StreamOpen { stream_id, protocol };
            &&& action_for(open, close) == (Action::CloseStream { channel, wait_millis: 100 })
            &&& action_for(open, fail) == (Action::DropStream { channel })
            &&& action_for(open, again) == (Action::HandleStream {
                stream_id,
                replaced: Some(channel),
            })
            &&& streams_after(open, close, new) == streams.remove(stream_id)
            &&& streams_after(open, fail, new) == streams.remove(stream_id)
            &&& streams_after(open, again, new)[stream_id] == new
            &&& !streams.contains_key(stream_id) ==> action_for(streams, close) == Action::Ignore
                && action_for(streams, fail) == Action::Ignore && action_for(streams, again) == (
            Action::HandleStream { stream_id, replaced: None })
        }),
{
    let open = streams.insert(stream_id, channel);
    let close = Message::StreamClose { stream_id };
    assert(streams_after(open, close, new) == streams.remove(stream_id));
}

/// A reply is a handshake's where it gives a subdomain, and that is then the one under which files
/// are shared; to anything else the handshake is repeated after a second.
pub proof fn law_handshake_reply(
    reply: Message,
    accepted_version: u32,
    accepted_protocols: Vec<ProtocolType>,
    subdomain: String,
)
    ensures
        handshake_step(
            Message::HandshakeResponse { accepted_version, accepted_protocols, subdomain },
        ) == HandshakeStep::Registered(subdomain),
        !(reply is HandshakeResponse) ==> handshake_step(reply) == HandshakeStep::RetryAfter(1000),
{
}

/// A response that comes through the tunnel is ignored and changes nothing; neither do requests and
/// parts change which streams are open.
pub proof fn law_data_changes_no_streams(
    streams: Map<u32, ChannelId>,
    data: Data,
    channel: ChannelId,
)
    ensures
        streams_after(streams, Message::Data(data), channel) == streams,
        data matches Data::Http(HttpData::Response { .. }) ==> action_for(
            streams,
            Message::Data(data),
        ) == Action::Ignore,
        data matches Data::Http(HttpData::BodyChunk { stream_id, .. }) && !streams.contains_key(
            stream_id,
        ) ==> action_for(streams, Message::Data(data)) == Action::Ignore,
{
}

} // verus!
