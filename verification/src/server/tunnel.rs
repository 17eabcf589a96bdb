//! What the public end of the tunnel does with those who connect to it.

use dashmap::DashMap;
use std::collections::HashSet;
use vstd::prelude::*;
use vstd::string::*;
use vstd::utf8::*;

use crate::headers::{law_lookup_after_put, lookup, put, Fields, Headers};
use crate::number::{
    decimal, law_number_round_trip, parse_number, push_decimal, read_number, socket_address,
};
use crate::protocol::{
    copy_protocols, ConnectionId, Data, DownstreamClient, HttpData, Message, ProtocolType, Tunnel,
    UpstreamClient, STREAMING_THRESHOLD,
};
use crate::registry::{
    add_client, add_tunnel, clients_in, copy_clients, copy_tunnels, find_client, has_client,
    no_clients, no_tunnels, tunnels_in, Clients, Tunnels,
};
use crate::server::constants::{DEFAULT_BIND_ADDR, HTTPS_LISTEN_PORT, MAX_SUBDOMAIN_ATTEMPTS};
use crate::server::utils::{build_response, response_bytes, Output, TlsWriter};
use crate::text::{
    before_char, chars_of, contains, contains_text, find_char, law_contained_text,
    lemma_no_split, lemma_split, lower_case, lowercased, string_of, to_lowercase,
};

verus! {

/// What the server is told to do.
pub struct Config {
    pub domain: String,
    pub upstream_listen: u16,
    pub require_auth: bool,
    pub auth_tokens: HashSet<String>,
    pub supported_protocols: Vec<ProtocolType>,
    pub cert_path: String,
    pub key_path: String,
}

/// The public end of the tunnel.
pub struct Server {
    /// Who shares files, each under its subdomain.
    pub upstream_clients: DashMap<String, UpstreamClient>,
    /// The tunnels, each under the number of its stream.
    pub tunnels: DashMap<u32, Tunnel>,
    pub config: Config,
}

/// Why a connection is not served.
pub enum TunnelError {
    /// No subdomain is free.
    NoSubdomain,
    /// What a browser sent is no request.
    NotARequest,
    /// The request does not say which host it is meant for.
    NoHost,
    /// Nobody shares files under this subdomain.
    NoClient(String),
    /// Who shares files under this subdomain sent something else than an answer.
    Unexpected { subdomain: String, message: Message },
    /// The stream of this number does not begin with the head of a response.
    NoHead(u32),
    /// The answer is no response.
    NotAResponse,
}

/// A handshake that was accepted.
pub struct Handshake {
    /// What is to be sent back.
    pub response: Message,
    pub subdomain: String,
    pub protocols: Vec<ProtocolType>,
}

/// The subdomain that is given out.
pub open spec fn offered_subdomain() -> Seq<char> {
    "todo"@
}

/// Those of the requested protocols that are supported, in the order of the request.
pub open spec fn accepted(
    requested: Seq<ProtocolType>,
    supported: Seq<ProtocolType>,
) -> Seq<ProtocolType> {
    requested.filter(|protocol: ProtocolType| supported.contains(protocol))
}

/// What a handshake in which these protocols and this version are offered is answered.
pub open spec fn accepts(
    handshake: Handshake,
    version: u32,
    requested: Seq<ProtocolType>,
    supported: Seq<ProtocolType>,
) -> bool {
    &&& handshake.subdomain@ == offered_subdomain()
    &&& handshake.protocols@ == accepted(requested, supported)
    &&& handshake.response matches Message::HandshakeResponse {
        accepted_version,
        accepted_protocols,
        subdomain,
    }
    &&& accepted_version == version
    &&& accepted_protocols@ == handshake.protocols@
    &&& subdomain@ == handshake.subdomain@
}

/// Whether `protocol` is one of `supported`.
fn supports(supported: &Vec<ProtocolType>, protocol: ProtocolType) -> (found: bool)
    ensures
        found == supported@.contains(protocol),
{
    for i in 0..supported.len()
        invariant
            forall|j: int| 0 <= j < i ==> supported@[j] != protocol,
    {
        if supported[i] == protocol {
            return true;
        }
    }
    false
}

/// Those of the requested protocols that are supported.
fn accept_protocols(requested: &Vec<ProtocolType>, supported: &Vec<ProtocolType>) -> (kept: Vec<
    ProtocolType,
>)
    ensures
        kept@ == accepted(requested@, supported@),
{
    let mut kept: Vec<ProtocolType> = Vec::new();
    assert(accepted(requested@.take(0), supported@) == Seq::<ProtocolType>::empty()) by {
        reveal(Seq::filter);
    }
    for i in 0..requested.len()
        invariant
            kept@ == accepted(requested@.take(i as int), supported@),
    {
        proof {
            reveal(Seq::filter);
            assert(requested@.take(i + 1).drop_last() == requested@.take(i as int));
        }
        if supports(supported, requested[i]) {
            kept.push(requested[i]);
        }
    }
    assert(requested@.take(requested@.len() as int) == requested@);
    kept
}

/// A protocol is accepted where it is requested and supported, and only there.
pub proof fn law_accepted_protocols(
    requested: Seq<ProtocolType>,
    supported: Seq<ProtocolType>,
    protocol: ProtocolType,
)
    ensures
        accepted(requested, supported).contains(protocol) <==> requested.contains(protocol)
            && supported.contains(protocol),
    decreases requested.len(),
{
    reveal(Seq::filter);
    if requested.len() > 0 {
        let front = requested.drop_last();
        law_accepted_protocols(front, supported, protocol);
        let last = requested.last();
        let kept = accepted(requested, supported);
        let before = accepted(front, supported);
        if before.contains(protocol) {
            assert(kept[before.index_of(protocol)] == protocol);
        }
        if supported.contains(last) {
            assert(kept.last() == last);
        }
        if kept.contains(protocol) && !before.contains(protocol) {
            assert(protocol == last);
        }
        if requested.contains(protocol) && protocol != last {
            let at = requested.index_of(protocol);
            assert(front[at] == protocol);
        }
        if front.contains(protocol) {
            assert(requested[front.index_of(protocol)] == protocol);
        }
        assert(requested[requested.len() - 1] == last);
    }
}

impl Server {
    pub fn new(config: Config) -> (server: Self)
        ensures
            clients_in(server.upstream_clients).is_empty(),
            tunnels_in(server.tunnels).is_empty(),
            server.config == config,
    {
        Self { upstream_clients: no_clients(), tunnels: no_tunnels(), config }
    }

    /// The address at which those who share files are listened for.
    pub fn upstream_address(&self) -> (address: String)
        ensures
            address@ == DEFAULT_BIND_ADDR@ + ":"@ + decimal(self.config.upstream_listen as nat),
            address@ == socket_address(DEFAULT_BIND_ADDR@, self.config.upstream_listen),
    {
        let mut address = DEFAULT_BIND_ADDR.to_owned();
        address.append(":");
        push_decimal(&mut address, self.config.upstream_listen as u64);
        address
    }

    /// The address at which browsers are listened for.
    pub fn downstream_address() -> (address: String)
        ensures
            address@ == DEFAULT_BIND_ADDR@ + ":"@ + HTTPS_LISTEN_PORT@,
    {
        let mut address = DEFAULT_BIND_ADDR.to_owned();
        address.append(":");
        address.append(HTTPS_LISTEN_PORT);
        address
    }

    /// A subdomain that is free.
    pub fn generate_subdomain(&self) -> (subdomain: Result<String, TunnelError>)
        ensures
            if clients_in(self.upstream_clients).contains_key(offered_subdomain()) {
                subdomain == Err::<String, TunnelError>(TunnelError::NoSubdomain)
            } else {
                subdomain matches Ok(s) && s@ == offered_subdomain()
            },
    {
        for _attempt in 0..MAX_SUBDOMAIN_ATTEMPTS
            invariant
                _attempt > 0 ==> clients_in(self.upstream_clients).contains_key(
                    offered_subdomain(),
                ),
        {
            let subdomain = "todo".to_owned();
            if !has_client(&self.upstream_clients, subdomain.as_str()) {
                return Ok(subdomain);
            }
        }
        Err(TunnelError::NoSubdomain)
    }

    /// Decides what the first message of someone who connects to share files is answered: nothing
    /// where it is no handshake.
    pub fn handle_upstream_connection(&self, handshake: Message) -> (accepted: Result<
        Option<Handshake>,
        TunnelError,
    >)
        ensures
            match handshake {
                Message::HandshakeRequest { supported_version, supported_protocols, .. } => {
                    if clients_in(self.upstream_clients).contains_key(offered_subdomain()) {
                        accepted == Err::<Option<Handshake>, TunnelError>(
                            TunnelError::NoSubdomain,
                        )
                    } else {
                        accepted matches Ok(Some(h)) && accepts(
                            h,
                            supported_version,
                            supported_protocols@,
                            self.config.supported_protocols@,
                        )
                    }
                },
                _ => accepted matches Ok(None),
            },
    {
        match handshake {
            Message::HandshakeRequest { supported_version, supported_protocols, .. } => {
                match self.process_handshake(supported_version, supported_protocols) {
                    Ok(handshake) => Ok(Some(handshake)),
                    Err(error) => Err(error),
                }
            },
            _ => Ok(None),
        }
    }

    /// Decides what a handshake is answered.
    pub fn process_handshake(
        &self,
        supported_version: u32,
        supported_protocols: Vec<ProtocolType>,
    ) -> (handshake: Result<Handshake, TunnelError>)
        ensures
            if clients_in(self.upstream_clients).contains_key(offered_subdomain()) {
                handshake == Err::<Handshake, TunnelError>(TunnelError::NoSubdomain)
            } else {
                handshake matches Ok(h) && accepts(
                    h,
                    supported_version,
                    supported_protocols@,
                    self.config.supported_protocols@,
                )
            },
    {
        let protocols = accept_protocols(&supported_protocols, &self.config.supported_protocols);
        match self.generate_subdomain() {
            Ok(subdomain) => {
                let response = Message::HandshakeResponse {
                    accepted_version: supported_version,
                    accepted_protocols: copy_protocols(&protocols),
                    subdomain: subdomain.clone(),
                };
                Ok(Handshake { response, subdomain, protocols })
            },
            Err(error) => Err(error),
        }
    }

    /// Adds the one on the other side of `stream` to those who share files, once its handshake has
    /// been answered.
    pub fn complete_handshake(&mut self, handshake: Handshake, stream: ConnectionId)
        ensures
            clients_in(final(self).upstream_clients) == clients_in(
                old(self).upstream_clients,
            ).insert(handshake.subdomain@, (stream, handshake.protocols@)),
            final(self).tunnels == old(self).tunnels,
            final(self).config == old(self).config,
    {
        let connection = UpstreamClient::new(stream, handshake.protocols);
        add_client(&mut self.upstream_clients, handshake.subdomain, connection);
    }

    /// What a browser's connection is served with from now on: who shares files at this moment,
    /// and the tunnels of this moment.
    pub fn spawn_downstream_handler(&self) -> (snapshot: (
        DashMap<String, UpstreamClient>,
        DashMap<u32, Tunnel>,
    ))
        ensures
            clients_in(snapshot.0) == clients_in(self.upstream_clients),
            tunnels_in(snapshot.1) == tunnels_in(self.tunnels),
    {
        (copy_clients(&self.upstream_clients), copy_tunnels(&self.tunnels))
    }
}

/// A request that someone can answer.
pub struct Route {
    /// Under which subdomain files are shared that the request is meant for.
    pub subdomain: String,
    pub client: UpstreamClient,
    /// Whether the request is sent on as a stream.
    pub streaming: bool,
}

/// What came back for a request.
pub enum Answer {
    /// A stream of this number follows.
    Streaming(u32),
    /// This alone.
    Simple(HttpData),
    /// Something that is no answer.
    Other(Message),
}

/// A request that is sent on as a stream.
pub struct StreamingRequest {
    /// What is sent first: it opens a stream.
    pub opening: Message,
    /// What is sent then: it holds the request.
    pub request: Message,
    /// The tunnels that the answer is served with.
    pub tunnels: DashMap<u32, Tunnel>,
}

/// The subdomain that a host's name begins with.
pub open spec fn subdomain_of(host: Seq<char>) -> Seq<char> {
    before_char(host, '.')
}

/// The length of a body by which it is decided whether it is streamed.
pub open spec fn stated_length(fields: Fields) -> Option<nat> {
    match lookup(fields, "Content-Length"@) {
        Some(text) => parse_number(text, 10, usize::MAX as nat),
        None => None,
    }
}

/// Whether a body of the given length, sent in the given encoding, is streamed: a length decides
/// where there is one.
pub open spec fn streams(length: Option<nat>, encoding: Option<Seq<char>>) -> bool {
    match (length, encoding) {
        (Some(length), _) => length > STREAMING_THRESHOLD,
        (None, Some(encoding)) => contains_text(encoding, "chunked"@),
        (None, None) => false,
    }
}

/// The encoding of a body, in lower case.
pub open spec fn stated_encoding(fields: Fields) -> Option<Seq<char>> {
    match lookup(fields, "Transfer-Encoding"@) {
        Some(text) => Some(lowercased(text)),
        None => None,
    }
}

/// What a text that may be missing stands for.
pub open spec fn optional_text(text: Option<&str>) -> Option<Seq<char>> {
    match text {
        Some(text) => Some(text@),
        None => None,
    }
}

/// What a length that may be missing stands for.
pub open spec fn optional_length(length: Option<usize>) -> Option<nat> {
    match length {
        Some(length) => Some(length as nat),
        None => None,
    }
}

/// What a message means that comes back for a request.
pub open spec fn answer_of(message: Message) -> Answer {
    match message {
        Message::StreamOpen { stream_id, .. } => Answer::Streaming(stream_id),
        Message::Data(Data::Http(response)) => Answer::Simple(response),
        _ => Answer::Other(message),
    }
}

/// Where a request goes.
pub enum Destination {
    /// It does not say which host it is meant for.
    NoHost,
    /// Nobody shares files under this subdomain.
    Nobody(Seq<char>),
    /// To the one who shares files under this subdomain.
    Found { subdomain: Seq<char>, client: (ConnectionId, Seq<ProtocolType>) },
}

/// Where a request with these header fields goes: to the one under the subdomain that the name of
/// its host begins with.
pub open spec fn destination(clients: Clients, fields: Fields) -> Destination {
    match lookup(fields, "Host"@) {
        None => Destination::NoHost,
        Some(host) => {
            let subdomain = subdomain_of(host);
            if clients.contains_key(subdomain) {
                Destination::Found { subdomain, client: clients[subdomain] }
            } else {
                Destination::Nobody(subdomain)
            }
        },
    }
}

/// Whether an error tells why a request goes nowhere.
pub open spec fn explains(error: TunnelError, destination: Destination) -> bool {
    match destination {
        Destination::NoHost => error == TunnelError::NoHost,
        Destination::Nobody(subdomain) => error matches TunnelError::NoClient(s) && s@
            == subdomain,
        Destination::Found { .. } => false,
    }
}

/// Whether a body with these header fields is streamed.
pub open spec fn body_streams(fields: Fields) -> bool {
    streams(stated_length(fields), stated_encoding(fields))
}

/// Whether a request is sent on as a stream: one is opened, then comes the request; and a tunnel
/// is kept under some number.
pub open spec fn sends_on(
    sent: StreamingRequest,
    request: HttpData,
    client: (ConnectionId, Seq<ProtocolType>),
    downstream: ConnectionId,
    tunnels: Tunnels,
) -> bool {
    &&& sent.opening matches Message::StreamOpen { protocol, .. }
    &&& protocol == ProtocolType::Http
    &&& sent.request == Message::Data(Data::Http(request))
    &&& exists|stream_id: u32| #[trigger]
        tunnels.insert(stream_id, (client, downstream)) == tunnels_in(sent.tunnels)
}

/// Whether a body of the given length, sent in the given encoding, is streamed.
pub fn decide_streaming(length: Option<usize>, encoding: Option<&str>) -> (streaming: bool)
    ensures
        streaming == streams(optional_length(length), optional_text(encoding)),
{
    match (length, encoding) {
        (Some(length), _) => length > STREAMING_THRESHOLD,
        (None, Some(encoding)) => contains(encoding, "chunked"),
        (None, None) => false,
    }
}

/// What a message means that comes back for a request.
pub fn read_answer(message: Message) -> (answer: Answer)
    ensures
        answer == answer_of(message),
{
    match message {
        Message::StreamOpen { stream_id, .. } => Answer::Streaming(stream_id),
        Message::Data(Data::Http(response)) => Answer::Simple(response),
        other => Answer::Other(other),
    }
}

impl Server {
    /// Whether the body of a request with these header fields is streamed.
    pub fn should_use_streaming(headers: &Headers) -> (streaming: bool)
        ensures
            streaming == body_streams(headers@),
            match lookup(headers@, "Transfer-Encoding"@) {
                Some(text) => is_ascii_chars(text) ==> streaming == streams(
                    stated_length(headers@),
                    Some(lower_case(text)),
                ),
                None => true,
            },
    {
        let length = match headers.get("Content-Length") {
            Some(text) => match read_number(chars_of(text).as_slice(), 10, usize::MAX as u64) {
                Some(length) => Some(length as usize),
                None => None,
            },
            None => None,
        };
        match headers.get("Transfer-Encoding") {
            Some(text) => {
                let lower = to_lowercase(text);
                decide_streaming(length, Some(lower.as_str()))
            },
            None => decide_streaming(length, None),
        }
    }

    /// Who answers a request: the one under the subdomain that the request's host begins with.
    pub fn get_upstream_client(
        request: &HttpData,
        upstream_clients: &DashMap<String, UpstreamClient>,
    ) -> (found: Result<(String, UpstreamClient), TunnelError>)
        ensures
            match request {
                HttpData::Request(request) => match destination(
                    clients_in(*upstream_clients),
                    request.headers@,
                ) {
                    Destination::Found { subdomain, client } => found matches Ok(pair) && pair.0@
                        == subdomain && pair.1@ == client,
                    nowhere => found matches Err(error) && explains(error, nowhere),
                },
                _ => found == Err::<(String, UpstreamClient), TunnelError>(
                    TunnelError::NotARequest,
                ),
            },
    {
        let HttpData::Request(request) = request else {
            return Err(TunnelError::NotARequest);
        };
        let Some(host) = request.headers.get("Host") else {
            return Err(TunnelError::NoHost);
        };
        let chars = chars_of(host);
        let dot = find_char(chars.as_slice(), '.');
        let front = vstd::slice::slice_subrange(chars.as_slice(), 0, dot);
        assert(front@ == subdomain_of(host@));
        let subdomain = string_of(front);
        match find_client(upstream_clients, subdomain.as_str()) {
            Some(client) => Ok((subdomain, client)),
            None => Err(TunnelError::NoClient(subdomain)),
        }
    }

    /// Decides how a browser's request is served.
    pub fn process_downstream_request(
        request: &HttpData,
        upstream_clients: &DashMap<String, UpstreamClient>,
    ) -> (route: Result<Route, TunnelError>)
        ensures
            match request {
                HttpData::Request(request) => match destination(
                    clients_in(*upstream_clients),
                    request.headers@,
                ) {
                    Destination::Found { subdomain, client } => route matches Ok(r) && r.subdomain@
                        == subdomain && r.client@ == client && r.streaming == body_streams(
                        request.headers@,
                    ),
                    nowhere => route matches Err(error) && explains(error, nowhere),
                },
                _ => route == Err::<Route, TunnelError>(TunnelError::NotARequest),
            },
    {
        match Self::get_upstream_client(request, upstream_clients) {
            Ok((subdomain, client)) => {
                let HttpData::Request(request) = request else {
                    return Err(TunnelError::NotARequest);
                };
                let streaming = Self::should_use_streaming(&request.headers);
                Ok(Route { subdomain, client, streaming })
            },
            Err(error) => Err(error),
        }
    }

    /// Sends a request on as a stream.
    ///
    /// The tunnel is kept under a number drawn at random, and the stream is opened under another
    /// one, drawn anew.
    pub fn handle_streaming_request(
        request: HttpData,
        downstream_client: DownstreamClient,
        upstream_client: &UpstreamClient,
        tunnels: &DashMap<u32, Tunnel>,
    ) -> (sent: StreamingRequest)
        ensures
            sends_on(
                sent,
                request,
                upstream_client@,
                downstream_client.stream,
                tunnels_in(*tunnels),
            ),
    {
        let kept = Message::stream_open(ProtocolType::Http);
        let opened = Message::stream_open(ProtocolType::Http);
        match (kept, opened) {
            (
                Message::StreamOpen { stream_id: kept_id, .. },
                Message::StreamOpen { stream_id: opened_id, .. },
            ) => Self::open_streaming_request(
                request,
                downstream_client,
                upstream_client,
                tunnels,
                kept_id,
                opened_id,
            ),
            _ => vstd::pervasive::unreached(),
        }
    }

    /// Sends a request on as a stream: the tunnel is kept under one number, and the stream is
    /// opened under another.
    pub fn open_streaming_request(
        request: HttpData,
        downstream_client: DownstreamClient,
        upstream_client: &UpstreamClient,
        tunnels: &DashMap<u32, Tunnel>,
        kept_id: u32,
        opened_id: u32,
    ) -> (sent: StreamingRequest)
        ensures
            sent.opening == (Message::StreamOpen {
                stream_id: opened_id,
                protocol: ProtocolType::Http,
            }),
            sent.request == Message::Data(Data::Http(request)),
            tunnels_in(sent.tunnels) == tunnels_in(*tunnels).insert(
                kept_id,
                (upstream_client@, downstream_client.stream),
            ),
    {
        let tunnel = Tunnel::new(upstream_client.clone(), downstream_client);
        let mut own = copy_tunnels(tunnels);
        add_tunnel(&mut own, kept_id, tunnel);
        StreamingRequest {
            opening: Message::stream_open_as(opened_id, ProtocolType::Http),
            request: Message::Data(Data::Http(request)),
            tunnels: own,
        }
    }

    /// Sends a request on as it is.
    pub fn handle_simple_request(request: HttpData) -> (message: Message)
        ensures
            message == Message::Data(Data::Http(request)),
    {
        Message::Data(Data::Http(request))
    }

    /// Decides what is done with what comes back after a request: where a stream follows, its
    /// tunnel is kept; what is no answer ends the connection.
    pub fn process_upstream_response(
        downstream_client: DownstreamClient,
        upstream_client: &UpstreamClient,
        subdomain: &str,
        tunnels: &mut DashMap<u32, Tunnel>,
        response: Message,
    ) -> (answer: Result<Answer, TunnelError>)
        ensures
            match answer_of(response) {
                Answer::Other(message) => {
                    &&& answer matches Err(TunnelError::Unexpected { subdomain: s, message: m })
                    &&& s@ == subdomain@
                    &&& m == message
                },
                expected => answer == Ok::<Answer, TunnelError>(expected),
            },
            tunnels_in(*final(tunnels)) == match answer_of(response) {
                Answer::Streaming(stream_id) => tunnels_in(*old(tunnels)).insert(
                    stream_id,
                    (upstream_client@, downstream_client.stream),
                ),
                _ => tunnels_in(*old(tunnels)),
            },
    {
        match read_answer(response) {
            Answer::Streaming(stream_id) => {
                let tunnel = Tunnel::new(upstream_client.clone(), downstream_client);
                add_tunnel(tunnels, stream_id, tunnel);
                Ok(Answer::Streaming(stream_id))
            },
            Answer::Simple(response) => Ok(Answer::Simple(response)),
            Answer::Other(message) => Err(
                TunnelError::Unexpected { subdomain: subdomain.to_owned(), message },
            ),
        }
    }

    /// Sends an answer that came in one piece to a browser.
    pub fn handle_simple_response(response: HttpData) -> (writer: Result<TlsWriter, TunnelError>)
        ensures
            match response {
                HttpData::Response { status, headers, body } => writer matches Ok(w) && w@ == (
                Output { bytes: response_bytes(status, headers@, body@), flush: true }),
                _ => writer == Err::<TlsWriter, TunnelError>(TunnelError::NotAResponse),
            },
    {
        let HttpData::Response { status, headers, body } = response else {
            return Err(TunnelError::NotAResponse);
        };
        let bytes = build_response(status, &headers, body);
        let mut writer = TlsWriter::new();
        writer.write_simple_response(bytes.as_slice());
        assert(Seq::<u8>::empty() + bytes@ == bytes@);
        Ok(writer)
    }
}

/// Once someone's handshake is complete, the requests for every host under the subdomain that was
/// given out go to that one, and the requests for other hosts go where they went before.
pub proof fn law_registered_client_is_found(
    clients: Clients,
    subdomain: Seq<char>,
    client: (ConnectionId, Seq<ProtocolType>),
    fields: Fields,
    host: Seq<char>,
)
    requires
        !subdomain.contains('.'),
        lookup(fields, "Host"@) == Some(host),
    ensures
        (host == subdomain || exists|domain: Seq<char>| host == #[trigger] (subdomain + seq!['.']
            + domain)) ==> destination(clients.insert(subdomain, client), fields) == (
        Destination::Found { subdomain, client }),
        subdomain_of(host) != subdomain ==> destination(clients.insert(subdomain, client), fields)
            == destination(clients, fields),
{
    if host == subdomain {
        lemma_no_split(subdomain, '.');
    } else if exists|domain: Seq<char>| host == #[trigger] (subdomain + seq!['.'] + domain) {
        let domain = choose|domain: Seq<char>| host == #[trigger] (subdomain + seq!['.'] + domain);
        lemma_split(subdomain, '.', domain);
    }
}

/// The subdomain that is given out has no dot in it, so that the requests for the hosts under it
/// can be told apart from others; and while someone has it, no other handshake is accepted.
pub proof fn law_subdomain_is_given_out_once(
    clients: Clients,
    handshake: Handshake,
    version: u32,
    requested: Seq<ProtocolType>,
    supported: Seq<ProtocolType>,
    stream: ConnectionId,
)
    requires
        accepts(handshake, version, requested, supported),
    ensures
        !handshake.subdomain@.contains('.'),
        clients.insert(handshake.subdomain@, (stream, handshake.protocols@)).contains_key(
            offered_subdomain(),
        ),
{
    reveal_strlit("todo");
}

/// Of two lists of requested protocols, those that are accepted are those of the first and then
/// those of the second, as often as they are requested.
pub proof fn law_accepted_protocols_keep_their_order(
    a: Seq<ProtocolType>,
    b: Seq<ProtocolType>,
    supported: Seq<ProtocolType>,
    protocol: ProtocolType,
)
    ensures
        accepted(a + b, supported) == accepted(a, supported) + accepted(b, supported),
        supported.contains(protocol) ==> accepted(seq![protocol], supported) == seq![protocol],
        !supported.contains(protocol) ==> accepted(seq![protocol], supported).len() == 0,
    decreases b.len(),
{
    reveal(Seq::filter);
    let one = seq![protocol];
    assert(one.drop_last() == Seq::<ProtocolType>::empty());
    assert(accepted(one.drop_last(), supported) == Seq::<ProtocolType>::empty());
    if b.len() == 0 {
        assert(a + b == a);
        assert(accepted(a, supported) + accepted(b, supported) == accepted(a, supported));
    } else {
        let front = b.drop_last();
        law_accepted_protocols_keep_their_order(a, front, supported, protocol);
        assert((a + b).drop_last() == a + front);
        assert((a + b).last() == b.last());
        assert(accepted(a + b, supported) == accepted(a, supported) + accepted(b, supported));
    }
}

/// Whoever is accepted is told the version that was offered, the protocols that were accepted and
/// the subdomain, and is kept with the same.
pub proof fn law_handshake_tells_what_is_kept(
    handshake: Handshake,
    version: u32,
    requested: Seq<ProtocolType>,
    supported: Seq<ProtocolType>,
)
    requires
        accepts(handshake, version, requested, supported),
    ensures
        handshake.response matches Message::HandshakeResponse {
            accepted_version,
            accepted_protocols,
            subdomain,
        } && accepted_version == version && accepted_protocols@ == handshake.protocols@
            && subdomain@ == handshake.subdomain@,
        handshake.protocols@ == accepted(requested, supported),
        handshake.subdomain@ == seq!['t', 'o', 'd', 'o'],
{
    reveal_strlit("todo");
    assert("todo"@ == seq!['t', 'o', 'd', 'o']);
}

/// A request's body is streamed where its length is above a mebibyte; where no length is given,
/// where its encoding, in lower case, says that it comes in chunks; and not where neither is given.
/// Other fields do not matter.
pub proof fn law_body_is_streamed(
    fields: Fields,
    length: nat,
    name: Seq<char>,
    value: Seq<char>,
    text: Seq<char>,
)
    requires
        length <= usize::MAX,
    ensures
        body_streams(put(fields, "Content-Length"@, decimal(length))) <==> length > 1048576,
        lookup(fields, "Content-Length"@) is None ==> (body_streams(
            put(fields, "Transfer-Encoding"@, text),
        ) <==> exists|a: Seq<char>, b: Seq<char>|
            lowercased(text) == #[trigger] (a + "chunked"@ + b)),
        lookup(fields, "Content-Length"@) is None && lookup(fields, "Transfer-Encoding"@) is None
            ==> !body_streams(fields),
        name != "Content-Length"@ && name != "Transfer-Encoding"@ ==> body_streams(
            put(fields, name, value),
        ) == body_streams(fields),
        parse_number(value, 10, usize::MAX as nat) is None && lookup(
            fields,
            "Content-Length"@,
        ) is None ==> body_streams(put(fields, "Content-Length"@, value)) == body_streams(fields),
{
    reveal_strlit("Content-Length");
    reveal_strlit("Transfer-Encoding");
    assert("Content-Length"@.len() == 14 && "Transfer-Encoding"@.len() == 17);
    law_lookup_after_put(fields, "Content-Length"@, decimal(length), "Content-Length"@);
    law_lookup_after_put(fields, "Transfer-Encoding"@, text, "Content-Length"@);
    law_lookup_after_put(fields, "Transfer-Encoding"@, text, "Transfer-Encoding"@);
    law_lookup_after_put(fields, name, value, "Content-Length"@);
    law_lookup_after_put(fields, name, value, "Transfer-Encoding"@);
    law_lookup_after_put(fields, "Content-Length"@, value, "Content-Length"@);
    law_lookup_after_put(fields, "Content-Length"@, value, "Transfer-Encoding"@);
    law_number_round_trip(length, 10, usize::MAX as nat);
    law_contained_text(lowercased(text), "chunked"@);
}

/// Whatever its protocol, a stream that is opened is an answer, and so is all HTTP data, as it is;
/// every other message is none and stays as it is.
pub proof fn law_answer(message: Message, stream_id: u32, protocol: ProtocolType, data: HttpData)
    ensures
        answer_of(Message::StreamOpen { stream_id, protocol }) == Answer::Streaming(stream_id),
        answer_of(Message::Data(Data::Http(data))) == Answer::Simple(data),
        !(message is StreamOpen) && !(message matches Message::Data(Data::Http(_))) ==> answer_of(
            message,
        ) == Answer::Other(message),
{
}

/// A request for a host under whose subdomain nobody shares files goes nowhere, and so does one
/// without a host; why is said with that subdomain.
pub proof fn law_unknown_host_goes_nowhere(
    clients: Clients,
    fields: Fields,
    subdomain: Seq<char>,
    domain: Seq<char>,
    error: TunnelError,
)
    requires
        !subdomain.contains('.'),
        !clients.contains_key(subdomain),
    ensures
        ({
            let asked = put(fields, "Host"@, subdomain + seq!['.'] + domain);
            let nowhere = destination(clients, asked);
            &&& nowhere == Destination::Nobody(subdomain)
            &&& explains(error, nowhere) <==> (error matches TunnelError::NoClient(s) && s@
                == subdomain)
        }),
        lookup(fields, "Host"@) is None ==> destination(clients, fields) == Destination::NoHost && (
        explains(error, destination(clients, fields)) <==> error == TunnelError::NoHost),
{
    let host = subdomain + seq!['.'] + domain;
    law_lookup_after_put(fields, "Host"@, host, "Host"@);
    lemma_split(subdomain, '.', domain);
}

/// A request that is sent on as a stream keeps a tunnel between the two connections, and every
/// tunnel that was there stays, but for one that had its number.
pub proof fn law_sent_request_keeps_tunnels(
    sent: StreamingRequest,
    request: HttpData,
    client: (ConnectionId, Seq<ProtocolType>),
    downstream: ConnectionId,
    tunnels: Tunnels,
)
    requires
        sends_on(sent, request, client, downstream, tunnels),
    ensures
        sent.opening matches Message::StreamOpen { protocol: ProtocolType::Http, .. },
        sent.request == Message::Data(Data::Http(request)),
        exists|kept: u32|
            {
                &&& #[trigger] tunnels_in(sent.tunnels).contains_key(kept)
                &&& tunnels_in(sent.tunnels)[kept] == (client, downstream)
                &&& forall|id: u32|
                    id != kept ==> #[trigger] tunnels_in(sent.tunnels).get(id) == tunnels.get(id)
            },
{
    let kept = choose|stream_id: u32| #[trigger]
        tunnels.insert(stream_id, (client, downstream)) == tunnels_in(sent.tunnels);
    assert(tunnels_in(sent.tunnels).contains_key(kept));
}

} // verus!
