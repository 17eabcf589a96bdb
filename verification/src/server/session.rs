//! A browser's connection, from one request to the next.

use dashmap::DashMap;
use vstd::prelude::*;

use crate::headers::Headers;
use crate::protocol::{
    ConnectionId, Data, DownstreamClient, HttpData, Message, ProtocolType, Tunnel, UpstreamClient,
};
use crate::registry::{clients_in, copy_tunnels, tunnels_in, Clients, Tunnels};
use crate::server::stream::{
    arrival_of, stream_start, stream_step, StreamStage, StreamState, StreamingResponse,
};
use crate::server::tunnel::{
    answer_of, body_streams, destination, explains, read_answer, sends_on, Answer, Destination,
    Server, StreamingRequest, TunnelError,
};
use crate::server::utils::{law_response_ends_with_whole_body, response_bytes, Output};

verus! {

/// What follows once a message has been dealt with.
pub enum Progress {
    /// Another message.
    More,
    /// Nothing: all has been dealt with.
    Finished,
    /// Nothing: something is wrong.
    Failed(TunnelError),
}

/// What is to be sent to the browser, and what follows.
pub struct Step {
    pub bytes: Vec<u8>,
    pub flush: bool,
    pub progress: Progress,
}

/// How far the answer to a request has come.
enum Stage {
    /// It has not begun.
    Reply,
    /// It comes as a stream.
    Stream(StreamingResponse),
    /// All of it has been dealt with.
    Done,
}

/// The answer to a request that was sent on.
pub struct Exchange {
    stage: Stage,
    tunnels: DashMap<u32, Tunnel>,
}

/// What stands for how far the answer to a request has come.
pub enum ExchangeStage {
    Reply,
    Stream(StreamState),
    Done,
}

/// What stands for the answer to a request that was sent on.
pub struct ExchangeState {
    pub stage: ExchangeStage,
    pub tunnels: Tunnels,
}

/// Nothing to be sent.
pub open spec fn no_output() -> Output {
    Output { bytes: seq![], flush: false }
}

/// A stream of which all that was to be sent has been handed out.
pub open spec fn drained(stream: StreamState) -> StreamState {
    StreamState { output: no_output(), ..stream }
}

/// The answer once a message has come.
pub open spec fn exchange_after(state: ExchangeState, message: Message) -> ExchangeState {
    ExchangeState {
        stage: match state.stage {
            ExchangeStage::Reply => match answer_of(message) {
                Answer::Streaming(stream_id) => ExchangeStage::Stream(
                    stream_start(state.tunnels, stream_id),
                ),
                _ => ExchangeStage::Done,
            },
            ExchangeStage::Stream(stream) => {
                let after = stream_step(stream, arrival_of(message));
                if after.stage == StreamStage::Closed {
                    ExchangeStage::Done
                } else {
                    ExchangeStage::Stream(drained(after))
                }
            },
            ExchangeStage::Done => ExchangeStage::Done,
        },
        tunnels: state.tunnels,
    }
}

/// What an answer that comes in one piece is sent to the browser as.
pub open spec fn simple_output(response: HttpData) -> Output {
    match response {
        HttpData::Response { status, headers, body } => Output {
            bytes: response_bytes(status, headers@, body@),
            flush: true,
        },
        _ => no_output(),
    }
}

/// What follows an answer that comes in one piece.
pub open spec fn simple_progress(response: HttpData) -> Progress {
    match response {
        HttpData::Response { .. } => Progress::Finished,
        _ => Progress::Failed(TunnelError::NotAResponse),
    }
}

/// What is to be sent to the browser once a message has come.
pub open spec fn exchange_output(state: ExchangeState, message: Message) -> Output {
    match state.stage {
        ExchangeStage::Reply => match answer_of(message) {
            Answer::Simple(response) => simple_output(response),
            _ => no_output(),
        },
        ExchangeStage::Stream(stream) => stream_step(stream, arrival_of(message)).output,
        ExchangeStage::Done => no_output(),
    }
}

/// What follows once a message has come. A message that is no answer is passed over.
pub open spec fn exchange_progress(state: ExchangeState, message: Message) -> Progress {
    match state.stage {
        ExchangeStage::Reply => match answer_of(message) {
            Answer::Streaming(_) => Progress::More,
            Answer::Simple(response) => simple_progress(response),
            Answer::Other(_) => Progress::Finished,
        },
        ExchangeStage::Stream(stream) => {
            let arrival = arrival_of(message);
            if stream.stage == StreamStage::Head && !(arrival is Head) {
                Progress::Failed(TunnelError::NoHead(stream.stream_id))
            } else if stream_step(stream, arrival).stage == StreamStage::Closed {
                Progress::Finished
            } else {
                Progress::More
            }
        },
        ExchangeStage::Done => Progress::Finished,
    }
}

/// A step that sends nothing.
fn quiet(progress: Progress) -> (step: Step)
    ensures
        step.bytes@ == no_output().bytes,
        step.flush == no_output().flush,
        step.progress == progress,
{
    Step { bytes: Vec::new(), flush: false, progress }
}

/// The step that deals with an answer in one piece.
fn simple_step(response: HttpData) -> (step: Step)
    ensures
        step.bytes@ == simple_output(response).bytes,
        step.flush == simple_output(response).flush,
        step.progress == simple_progress(response),
{
    match Server::handle_simple_response(response) {
        Ok(writer) => {
            let mut writer = writer;
            let (bytes, flush) = writer.take();
            Step { bytes, flush, progress: Progress::Finished }
        },
        Err(error) => quiet(Progress::Failed(error)),
    }
}

impl View for Exchange {
    type V = ExchangeState;

    closed spec fn view(&self) -> ExchangeState {
        ExchangeState {
            stage: match self.stage {
                Stage::Reply => ExchangeStage::Reply,
                Stage::Stream(stream) => ExchangeStage::Stream(stream@),
                Stage::Done => ExchangeStage::Done,
            },
            tunnels: tunnels_in(self.tunnels),
        }
    }
}

impl Exchange {
    /// The answer to a request that was just sent on.
    pub fn new(tunnels: DashMap<u32, Tunnel>) -> (exchange: Self)
        ensures
            exchange@ == (ExchangeState {
                stage: ExchangeStage::Reply,
                tunnels: tunnels_in(tunnels),
            }),
    {
        Exchange { stage: Stage::Reply, tunnels }
    }

    /// An answer that comes as a stream of the given number.
    pub fn streaming(tunnels: DashMap<u32, Tunnel>, stream_id: u32) -> (exchange: Self)
        ensures
            exchange@ == (ExchangeState {
                stage: ExchangeStage::Stream(stream_start(tunnels_in(tunnels), stream_id)),
                tunnels: tunnels_in(tunnels),
            }),
    {
        Exchange { stage: Stage::Stream(StreamingResponse::new(&tunnels, stream_id)), tunnels }
    }

    /// Takes the next message of the answer.
    pub fn handle_reply(&mut self, message: Message) -> (step: Step)
        ensures
            final(self)@ == exchange_after(old(self)@, message),
            step.bytes@ == exchange_output(old(self)@, message).bytes,
            step.flush == exchange_output(old(self)@, message).flush,
            step.progress == exchange_progress(old(self)@, message),
    {
        let mut stage = Stage::Done;
        std::mem::swap(&mut stage, &mut self.stage);
        match stage {
            Stage::Reply => match read_answer(message) {
                Answer::Streaming(stream_id) => {
                    self.stage = Stage::Stream(StreamingResponse::new(&self.tunnels, stream_id));
                    quiet(Progress::More)
                },
                Answer::Simple(response) => simple_step(response),
                Answer::Other(_) => quiet(Progress::Finished),
            },
            Stage::Stream(stream) => {
                let mut stream = stream;
                let taken = stream.handle_streaming_response(message);
                let closed = stream.is_closed();
                let (bytes, flush) = stream.take_output();
                if !closed {
                    self.stage = Stage::Stream(stream);
                }
                let progress = match taken {
                    Err(error) => Progress::Failed(error),
                    Ok(()) => if closed {
                        Progress::Finished
                    } else {
                        Progress::More
                    },
                };
                Step { bytes, flush, progress }
            },
            Stage::Done => quiet(Progress::Finished),
        }
    }
}

/// What a browser's connection waits for.
enum Wait {
    /// A request.
    Request,
    /// The answer to a request that was sent on as it is.
    First { exchange: Exchange, subdomain: String, client: UpstreamClient },
    /// What comes behind that answer, or the answer to a request that was sent on as a stream.
    Second { subdomain: String, client: UpstreamClient },
    /// More of a stream.
    Streaming { exchange: Exchange, upstream: ConnectionId },
    /// Nothing: the connection is given up.
    Stopped,
}

/// A browser's connection.
pub struct Session {
    upstream_clients: DashMap<String, UpstreamClient>,
    tunnels: DashMap<u32, Tunnel>,
    downstream: DownstreamClient,
    wait: Wait,
}

/// What stands for what a browser's connection waits for.
pub enum SessionStage {
    Request,
    First {
        exchange: ExchangeState,
        subdomain: Seq<char>,
        client: (ConnectionId, Seq<ProtocolType>),
    },
    Second { subdomain: Seq<char>, client: (ConnectionId, Seq<ProtocolType>) },
    Streaming { exchange: ExchangeState, upstream: ConnectionId },
    Stopped,
}

/// What stands for a browser's connection.
pub struct SessionState {
    pub clients: Clients,
    pub tunnels: Tunnels,
    pub downstream: ConnectionId,
    pub stage: SessionStage,
}

/// What a browser's connection waits for next.
pub enum Next {
    /// A request of the browser's.
    Request,
    /// A message from this connection.
    Reply(ConnectionId),
    /// Nothing: the connection is given up; the error says why, where it is not one of reading or
    /// writing.
    Stop(Option<TunnelError>),
}

/// What is done for a browser's connection, in this order.
pub struct SessionStep {
    /// This message is sent on to the one who answers.
    pub send: Option<Message>,
    /// This is sent on beside, and its answer dealt with there.
    pub spawn: Option<StreamingRequest>,
    /// This is sent to the browser.
    pub bytes: Vec<u8>,
    pub flush: bool,
    /// This is waited for.
    pub next: Next,
}

/// What is waited for at a stage.
pub open spec fn awaited(stage: SessionStage) -> Next {
    match stage {
        SessionStage::Request => Next::Request,
        SessionStage::First { client, .. } => Next::Reply(client.0),
        SessionStage::Second { client, .. } => Next::Reply(client.0),
        SessionStage::Streaming { upstream, .. } => Next::Reply(upstream),
        SessionStage::Stopped => Next::Stop(None),
    }
}

/// Whether the connection waits for a message.
pub open spec fn awaits_reply(stage: SessionStage) -> bool {
    awaited(stage) is Reply
}

/// The tunnels once what came behind a request has been looked at.
pub open spec fn tunnels_after(
    tunnels: Tunnels,
    message: Message,
    client: (ConnectionId, Seq<ProtocolType>),
    downstream: ConnectionId,
) -> Tunnels {
    match answer_of(message) {
        Answer::Streaming(stream_id) => tunnels.insert(stream_id, (client, downstream)),
        _ => tunnels,
    }
}

/// The connection once a message has come.
pub open spec fn session_after(state: SessionState, message: Message) -> SessionState {
    match state.stage {
        SessionStage::First { exchange, subdomain, client } => SessionState {
            stage: match exchange_progress(exchange, message) {
                Progress::More => SessionStage::First {
                    exchange: exchange_after(exchange, message),
                    subdomain,
                    client,
                },
                Progress::Finished => SessionStage::Second { subdomain, client },
                Progress::Failed(_) => SessionStage::Stopped,
            },
            ..state
        },
        SessionStage::Second { subdomain, client } => {
            let tunnels = tunnels_after(state.tunnels, message, client, state.downstream);
            SessionState {
                stage: match answer_of(message) {
                    Answer::Streaming(stream_id) => SessionStage::Streaming {
                        exchange: ExchangeState {
                            stage: ExchangeStage::Stream(stream_start(tunnels, stream_id)),
                            tunnels,
                        },
                        upstream: client.0,
                    },
                    Answer::Simple(HttpData::Response { .. }) => SessionStage::Request,
                    _ => SessionStage::Stopped,
                },
                tunnels,
                ..state
            }
        },
        SessionStage::Streaming { exchange, upstream } => SessionState {
            stage: match exchange_progress(exchange, message) {
                Progress::More => SessionStage::Streaming {
                    exchange: exchange_after(exchange, message),
                    upstream,
                },
                _ => SessionStage::Request,
            },
            ..state
        },
        _ => state,
    }
}

/// What is to be sent to the browser once a message has come.
pub open spec fn session_output(state: SessionState, message: Message) -> Output {
    match state.stage {
        SessionStage::First { exchange, .. } => exchange_output(exchange, message),
        SessionStage::Second { .. } => match answer_of(message) {
            Answer::Simple(response) => simple_output(response),
            _ => no_output(),
        },
        SessionStage::Streaming { exchange, .. } => exchange_output(exchange, message),
        _ => no_output(),
    }
}

/// What is waited for once a message has come, and why the connection is given up where it is: an
/// answer is wrong, a stream that answers a request that was sent on as it is has no head, or what
/// comes behind is no answer.
pub open spec fn session_next(state: SessionState, message: Message, next: Next) -> bool {
    match state.stage {
        SessionStage::First { exchange, .. } => match exchange_progress(exchange, message) {
            Progress::Failed(error) => next == Next::Stop(Some(error)),
            _ => next == awaited(session_after(state, message).stage),
        },
        SessionStage::Second { subdomain, .. } => match answer_of(message) {
            Answer::Simple(response) => match simple_progress(response) {
                Progress::Failed(error) => next == Next::Stop(Some(error)),
                _ => next == awaited(session_after(state, message).stage),
            },
            Answer::Other(other) => {
                &&& next matches Next::Stop(Some(TunnelError::Unexpected {
                    subdomain: s,
                    message: m,
                }))
                &&& s@ == subdomain
                &&& m == other
            },
            _ => next == awaited(session_after(state, message).stage),
        },
        _ => next == awaited(session_after(state, message).stage),
    }
}

/// Whether a step sends nothing on.
pub open spec fn sends_nothing_on(step: SessionStep) -> bool {
    step.send is None && step.spawn is None
}

/// A step that sends nothing.
fn idle(next: Next) -> (step: SessionStep)
    ensures
        sends_nothing_on(step),
        step.bytes@ == no_output().bytes,
        step.flush == no_output().flush,
        step.next == next,
{
    SessionStep { send: None, spawn: None, bytes: Vec::new(), flush: false, next }
}

impl View for Session {
    type V = SessionState;

    closed spec fn view(&self) -> SessionState {
        SessionState {
            clients: clients_in(self.upstream_clients),
            tunnels: tunnels_in(self.tunnels),
            downstream: self.downstream.stream,
            stage: match self.wait {
                Wait::Request => SessionStage::Request,
                Wait::First { exchange, subdomain, client } => SessionStage::First {
                    exchange: exchange@,
                    subdomain: subdomain@,
                    client: client@,
                },
                Wait::Second { subdomain, client } => SessionStage::Second {
                    subdomain: subdomain@,
                    client: client@,
                },
                Wait::Streaming { exchange, upstream } => SessionStage::Streaming {
                    exchange: exchange@,
                    upstream,
                },
                Wait::Stopped => SessionStage::Stopped,
            },
        }
    }
}

impl Session {
    /// A browser's connection that was just made: it is served with those who share files at this
    /// moment, and with tunnels of its own.
    pub fn new(server: &Server, downstream: DownstreamClient) -> (session: Self)
        ensures
            session@ == (SessionState {
                clients: clients_in(server.upstream_clients),
                tunnels: tunnels_in(server.tunnels),
                downstream: downstream.stream,
                stage: SessionStage::Request,
            }),
    {
        let (upstream_clients, tunnels) = server.spawn_downstream_handler();
        Session { upstream_clients, tunnels, downstream, wait: Wait::Request }
    }

    /// Takes a request of the browser's.
    ///
    /// One whose body is streamed is sent on beside, and what comes behind it is waited for at
    /// once; another one is sent on as it is, and its answer is waited for.
    pub fn handle_request(&mut self, request: HttpData) -> (step: SessionStep)
        requires
            old(self)@.stage is Request,
        ensures
            final(self)@ == (SessionState { stage: final(self)@.stage, ..old(self)@ }),
            step.bytes@ == no_output().bytes,
            step.flush == no_output().flush,
            match request {
                HttpData::Request(r) => match destination(old(self)@.clients, r.headers@) {
                    Destination::Found { subdomain, client } => {
                        &&& step.next == Next::Reply(client.0)
                        &&& if body_streams(r.headers@) {
                            &&& final(self)@.stage == (SessionStage::Second { subdomain, client })
                            &&& step.send is None
                            &&& step.spawn matches Some(sent)
                            &&& sends_on(
                                sent,
                                request,
                                client,
                                old(self)@.downstream,
                                old(self)@.tunnels,
                            )
                        } else {
                            &&& final(self)@.stage == (SessionStage::First {
                                exchange: ExchangeState {
                                    stage: ExchangeStage::Reply,
                                    tunnels: old(self)@.tunnels,
                                },
                                subdomain,
                                client,
                            })
                            &&& step.send == Some(Message::Data(Data::Http(request)))
                            &&& step.spawn is None
                        }
                    },
                    nowhere => {
                        &&& final(self)@.stage is Stopped
                        &&& sends_nothing_on(step)
                        &&& step.next matches Next::Stop(Some(error))
                        &&& explains(error, nowhere)
                    },
                },
                _ => {
                    &&& final(self)@.stage is Stopped
                    &&& sends_nothing_on(step)
                    &&& step.next == Next::Stop(Some(TunnelError::NotARequest))
                },
            },
    {
        match Server::process_downstream_request(&request, &self.upstream_clients) {
            Ok(route) => {
                let upstream = route.client.stream;
                if route.streaming {
                    let sent = Server::handle_streaming_request(
                        request,
                        self.downstream,
                        &route.client,
                        &self.tunnels,
                    );
                    self.wait = Wait::Second { subdomain: route.subdomain, client: route.client };
                    let quiet = idle(Next::Reply(upstream));
                    SessionStep { spawn: Some(sent), ..quiet }
                } else {
                    let message = Server::handle_simple_request(request);
                    self.wait = Wait::First {
                        exchange: Exchange::new(copy_tunnels(&self.tunnels)),
                        subdomain: route.subdomain,
                        client: route.client,
                    };
                    let quiet = idle(Next::Reply(upstream));
                    SessionStep { send: Some(message), ..quiet }
                }
            },
            Err(error) => {
                self.wait = Wait::Stopped;
                idle(Next::Stop(Some(error)))
            },
        }
    }

    /// Takes the message that was waited for.
    pub fn handle_reply(&mut self, message: Message) -> (step: SessionStep)
        requires
            awaits_reply(old(self)@.stage),
        ensures
            final(self)@ == session_after(old(self)@, message),
            step.bytes@ == session_output(old(self)@, message).bytes,
            step.flush == session_output(old(self)@, message).flush,
            sends_nothing_on(step),
            session_next(old(self)@, message, step.next),
    {
        let mut wait = Wait::Stopped;
        std::mem::swap(&mut wait, &mut self.wait);
        match wait {
            Wait::First { exchange, subdomain, client } => {
                let mut exchange = exchange;
                let upstream = client.stream;
                let step = exchange.handle_reply(message);
                let next = match step.progress {
                    Progress::More => {
                        self.wait = Wait::First { exchange, subdomain, client };
                        Next::Reply(upstream)
                    },
                    Progress::Finished => {
                        self.wait = Wait::Second { subdomain, client };
                        Next::Reply(upstream)
                    },
                    Progress::Failed(error) => Next::Stop(Some(error)),
                };
                let quiet = idle(next);
                SessionStep { bytes: step.bytes, flush: step.flush, ..quiet }
            },
            Wait::Second { subdomain, client } => {
                match Server::process_upstream_response(
                    self.downstream,
                    &client,
                    subdomain.as_str(),
                    &mut self.tunnels,
                    message,
                ) {
                    Ok(Answer::Streaming(stream_id)) => {
                        let own = copy_tunnels(&self.tunnels);
                        let upstream = client.stream;
                        let exchange = Exchange::streaming(own, stream_id);
                        self.wait = Wait::Streaming { exchange, upstream };
                        idle(Next::Reply(upstream))
                    },
                    Ok(Answer::Simple(response)) => {
                        let step = simple_step(response);
                        let next = match step.progress {
                            Progress::Failed(error) => Next::Stop(Some(error)),
                            _ => {
                                self.wait = Wait::Request;
                                Next::Request
                            },
                        };
                        let quiet = idle(next);
                        SessionStep { bytes: step.bytes, flush: step.flush, ..quiet }
                    },
                    Ok(Answer::Other(_)) => vstd::pervasive::unreached(),
                    Err(error) => idle(Next::Stop(Some(error))),
                }
            },
            Wait::Streaming { exchange, upstream } => {
                let mut exchange = exchange;
                let step = exchange.handle_reply(message);
                let next = match step.progress {
                    Progress::More => {
                        self.wait = Wait::Streaming { exchange, upstream };
                        Next::Reply(upstream)
                    },
                    _ => {
                        self.wait = Wait::Request;
                        Next::Request
                    },
                };
                let quiet = idle(next);
                SessionStep { bytes: step.bytes, flush: step.flush, ..quiet }
            },
            Wait::Request => vstd::pervasive::unreached(),
            Wait::Stopped => vstd::pervasive::unreached(),
        }
    }

    /// Takes note that reading or writing has failed: the connection is given up, but for a stream
    /// that came behind a request, of which only the rest is lost.
    pub fn handle_failure(&mut self) -> (next: Next)
        ensures
            final(self)@ == (SessionState {
                stage: if old(self)@.stage is Streaming {
                    SessionStage::Request
                } else {
                    SessionStage::Stopped
                },
                ..old(self)@
            }),
            next == awaited(final(self)@.stage),
    {
        let mut wait = Wait::Stopped;
        std::mem::swap(&mut wait, &mut self.wait);
        match wait {
            Wait::Streaming { .. } => {
                self.wait = Wait::Request;
                Next::Request
            },
            _ => Next::Stop(None),
        }
    }
}

/// An answer in one piece is sent to the browser whole, with its status and all its fields,
/// whenever a reply is waited for that may be one; then what comes behind it is waited for, or the
/// next request.
pub proof fn law_whole_answer_reaches_browser(
    state: SessionState,
    status: u16,
    headers: Headers,
    body: Vec<u8>,
    next: Next,
)
    requires
        state.stage is Second || (state.stage matches SessionStage::First { exchange, .. }
            && exchange.stage is Reply),
        session_next(
            state,
            Message::Data(Data::Http(HttpData::Response { status, headers, body })),
            next,
        ),
    ensures
        ({
            let message = Message::Data(
                Data::Http(HttpData::Response { status, headers, body }),
            );
            let sent = session_output(state, message);
            let after = session_after(state, message);
            &&& sent.bytes == response_bytes(status, headers@, seq![]) + body@
            &&& sent.flush
            &&& match state.stage {
                SessionStage::First { subdomain, client, .. } => {
                    &&& after == (SessionState {
                        stage: SessionStage::Second { subdomain, client },
                        ..state
                    })
                    &&& next == Next::Reply(client.0)
                },
                _ => {
                    &&& after == (SessionState { stage: SessionStage::Request, ..state })
                    &&& next == Next::Request
                },
            }
        }),
{
    law_response_ends_with_whole_body(status, headers@, body@);
}

/// A message that is no answer is passed over where an answer to a request is waited for, and ends
/// the connection where it comes behind one; nothing is sent for it. HTTP data that is no response
/// ends the connection at either place.
pub proof fn law_wrong_reply(state: SessionState, message: Message, next: Next)
    requires
        state.stage is Second || (state.stage matches SessionStage::First { exchange, .. }
            && exchange.stage is Reply),
        !(message is StreamOpen),
        !(message matches Message::Data(Data::Http(HttpData::Response { .. }))),
        session_next(state, message, next),
    ensures
        session_output(state, message).bytes.len() == 0,
        !session_output(state, message).flush,
        session_after(state, message).tunnels == state.tunnels,
        message matches Message::Data(Data::Http(_)) ==> next == Next::Stop(
            Some(TunnelError::NotAResponse),
        ) && session_after(state, message).stage is Stopped,
        !(message matches Message::Data(Data::Http(_))) ==> match state.stage {
            SessionStage::First { subdomain, client, .. } => {
                &&& next == Next::Reply(client.0)
                &&& session_after(state, message).stage == (SessionStage::Second {
                    subdomain,
                    client,
                })
            },
            SessionStage::Second { subdomain, .. } => {
                &&& next matches Next::Stop(Some(TunnelError::Unexpected {
                    subdomain: s,
                    message: m,
                }))
                &&& s@ == subdomain
                &&& m == message
                &&& session_after(state, message).stage is Stopped
            },
            _ => true,
        },
{
}

/// Whatever comes, a connection serves the same ones who share files and the same browser, and the
/// tunnels that it has stay, but for one that is replaced.
pub proof fn law_session_keeps_its_clients(state: SessionState, message: Message, id: u32)
    ensures
        session_after(state, message).clients == state.clients,
        session_after(state, message).downstream == state.downstream,
        state.tunnels.contains_key(id) ==> session_after(state, message).tunnels.contains_key(id),
        !(message matches Message::StreamOpen { stream_id, .. } && stream_id == id) ==> session_after(
            state,
            message,
        ).tunnels.get(id) == state.tunnels.get(id),
{
}

/// What is waited for is a request, or a message from the connection of the one who answers.
pub proof fn law_what_is_waited_for(
    exchange: ExchangeState,
    subdomain: Seq<char>,
    client: (ConnectionId, Seq<ProtocolType>),
    upstream: ConnectionId,
)
    ensures
        awaited(SessionStage::Request) == Next::Request,
        awaited(SessionStage::First { exchange, subdomain, client }) == Next::Reply(client.0),
        awaited(SessionStage::Second { subdomain, client }) == Next::Reply(client.0),
        awaited(SessionStage::Streaming { exchange, upstream }) == Next::Reply(upstream),
        awaited(SessionStage::Stopped) == Next::Stop(None),
{
}

/// While an answer comes as a stream, what is sent to the browser for each message is what the
/// stream sends, and more is waited for until the stream ends; without a head it fails.
pub proof fn law_exchange_follows_stream(
    tunnels: Tunnels,
    stream: StreamState,
    message: Message,
    stream_id: u32,
    protocol: ProtocolType,
)
    ensures
        ({
            let state = ExchangeState { stage: ExchangeStage::Stream(stream), tunnels };
            let after = stream_step(stream, arrival_of(message));
            let progress = exchange_progress(state, message);
            &&& exchange_output(state, message) == after.output
            &&& after.stage != StreamStage::Closed ==> progress == Progress::More
                && exchange_after(state, message).stage == ExchangeStage::Stream(
                StreamState { output: Output { bytes: seq![], flush: false }, ..after },
            )
            &&& after.stage == StreamStage::Closed ==> exchange_after(state, message).stage is Done
            &&& stream.stage == StreamStage::Head && after.stage == StreamStage::Closed ==> progress
                == Progress::Failed(TunnelError::NoHead(stream.stream_id))
            &&& stream.stage == StreamStage::Body && after.stage == StreamStage::Closed ==> progress
                == Progress::Finished
        }),
        ({
            let state = ExchangeState { stage: ExchangeStage::Reply, tunnels };
            let opening = Message::StreamOpen { stream_id, protocol };
            &&& exchange_after(state, opening).stage == ExchangeStage::Stream(
                stream_start(tunnels, stream_id),
            )
            &&& exchange_output(state, opening).bytes.len() == 0
            &&& exchange_progress(state, opening) == Progress::More
        }),
{
}

} // verus!
