//! What holds of the two ends of the tunnel together.

use vstd::prelude::*;

use crate::body::{body_start, bytes_view, joined, read_body};
use crate::client::tunnel::{
    action_for, begins_answer, handled, handshake_step, is_part, is_response, relays,
    streams_after, Action, BegunAnswer, HandshakeStep, RelayEvent, RelayStep,
};
use crate::client::utils::asks_for_video;
use crate::headers::Fields;
use crate::protocol::{
    BodyReader, ConnectionId, Data, HttpData, HttpRequest, Message, ProtocolType,
};
use crate::registry::{ChannelId, Tunnels};
use crate::server::session::{
    drained, no_output, session_after, session_output, ExchangeStage, ExchangeState, SessionStage,
    SessionState,
};
use crate::server::stream::{
    arrival_of, law_output_is_appended, law_stream_reaches_browser, law_streamed_body_is_read_back,
    lemma_open_until_end, stream_arrivals, stream_run, stream_start, stream_step, Arrival,
    StreamStage, StreamState,
};
use crate::server::tunnel::{
    accepts, answer_of, sends_on, Answer, Handshake, StreamingRequest,
};
use crate::server::utils::response_bytes;

verus! {

/// Whether these messages are what is sent back of a file that comes in these parts: the stream is
/// opened, then come the head of the answer, the parts, an empty last part and the end of the
/// stream.
pub open spec fn carries_file(
    messages: Seq<Message>,
    stream_id: u32,
    status: u16,
    fields: Fields,
    parts: Seq<Seq<u8>>,
) -> bool {
    let count = parts.len() as int;
    &&& messages.len() == count + 4
    &&& messages[0] == (Message::StreamOpen { stream_id, protocol: ProtocolType::Http })
    &&& is_response(messages[1], status, fields, seq![])
    &&& forall|i: int|
        0 <= i < count ==> #[trigger] is_part(messages[i + 2], stream_id, parts[i], false)
    &&& is_part(messages[count + 2], stream_id, seq![], true)
    &&& messages[count + 3] == (Message::StreamClose { stream_id })
}

/// The messages that a step of sending a file back sends.
pub open spec fn messages_of(step: RelayStep) -> Seq<Message> {
    match step {
        RelayStep::Send(message) => seq![message],
        RelayStep::Finish { end, close } => seq![end, close],
    }
}

/// The messages that the beginning of an answer and the steps behind it send, in order.
pub open spec fn messages_sent(begun: BegunAnswer, steps: Seq<RelayStep>) -> Seq<Message>
    decreases steps.len(),
{
    if steps.len() == 0 {
        seq![begun.first, begun.second]
    } else {
        messages_sent(begun, steps.drop_last()) + messages_of(steps.last())
    }
}

/// The parts of a file that have been sent stand behind the beginning, in order.
proof fn lemma_parts_sent(begun: BegunAnswer, steps: Seq<RelayStep>, parts: Seq<Vec<u8>>)
    requires
        steps.len() == parts.len(),
        forall|i: int|
            0 <= i < parts.len() ==> #[trigger] relays(
                steps[i],
                begun.stream_id,
                RelayEvent::Part(parts[i]),
            ),
    ensures
        ({
            let messages = messages_sent(begun, steps);
            &&& messages.len() == parts.len() + 2
            &&& messages[0] == begun.first
            &&& messages[1] == begun.second
            &&& forall|i: int|
                0 <= i < parts.len() ==> #[trigger] is_part(
                    messages[i + 2],
                    begun.stream_id,
                    parts[i]@,
                    false,
                )
        }),
    decreases steps.len(),
{
    if steps.len() > 0 {
        let front = steps.drop_last();
        let before = parts.drop_last();
        assert forall|i: int| 0 <= i < before.len() implies #[trigger] relays(
            front[i],
            begun.stream_id,
            RelayEvent::Part(before[i]),
        ) by {
            assert(relays(steps[i], begun.stream_id, RelayEvent::Part(parts[i])));
        }
        lemma_parts_sent(begun, front, before);
        let last = parts.len() - 1;
        assert(relays(steps[last], begun.stream_id, RelayEvent::Part(parts[last])));
        let messages = messages_sent(begun, steps);
        assert forall|i: int| 0 <= i < parts.len() implies #[trigger] is_part(
            messages[i + 2],
            begun.stream_id,
            parts[i]@,
            false,
        ) by {
            if i < last {
                assert(is_part(
                    messages_sent(begun, front)[i + 2],
                    begun.stream_id,
                    before[i]@,
                    false,
                ));
            }
        }
    }
}

/// What is sent back of a file, from its beginning over a step for each part to the step that ends
/// it, carries the file: whether the file ended there or something failed, what was sent until
/// then arrives as a whole.
pub proof fn law_answer_carries_file(
    begun: BegunAnswer,
    status: u16,
    fields: Fields,
    steps: Seq<RelayStep>,
    parts: Seq<Vec<u8>>,
    last: RelayStep,
    ending: RelayEvent,
)
    requires
        begins_answer(begun, status, fields),
        steps.len() == parts.len(),
        forall|i: int|
            0 <= i < parts.len() ==> #[trigger] relays(
                steps[i],
                begun.stream_id,
                RelayEvent::Part(parts[i]),
            ),
        relays(last, begun.stream_id, ending),
        !(ending is Part),
    ensures
        carries_file(
            messages_sent(begun, steps.push(last)),
            begun.stream_id,
            status,
            fields,
            bytes_view(parts),
        ),
{
    lemma_parts_sent(begun, steps, parts);
    assert(steps.push(last).drop_last() == steps);
    let front = messages_sent(begun, steps);
    let messages = messages_sent(begun, steps.push(last));
    assert(messages == front + messages_of(last));
    assert forall|i: int| 0 <= i < parts.len() implies #[trigger] is_part(
        messages[i + 2],
        begun.stream_id,
        bytes_view(parts)[i],
        false,
    ) by {
        assert(is_part(front[i + 2], begun.stream_id, parts[i]@, false));
    }
}

/// What messages mean to a stream.
pub open spec fn meanings(messages: Seq<Message>) -> Seq<Arrival> {
    messages.map_values(|message: Message| arrival_of(message))
}

/// What the messages behind the one that opens the stream mean.
pub open spec fn arrivals_of(messages: Seq<Message>) -> Seq<Arrival> {
    meanings(messages.skip(1))
}

/// The messages that carry a file mean the head of the answer, the parts and the end.
proof fn lemma_arrivals(
    messages: Seq<Message>,
    stream_id: u32,
    status: u16,
    fields: Fields,
    parts: Seq<Seq<u8>>,
)
    requires
        carries_file(messages, stream_id, status, fields, parts),
    ensures
        arrivals_of(messages) == stream_arrivals(status, fields, parts, stream_id),
{
    let got = arrivals_of(messages);
    let want = stream_arrivals(status, fields, parts, stream_id);
    assert forall|i: int| 0 <= i < got.len() implies got[i] == want[i] by {
        assert(got[i] == arrival_of(messages[i + 1]));
        if 1 <= i <= parts.len() {
            assert(is_part(messages[i - 1 + 2], stream_id, parts[i - 1], false));
        }
    }
    assert(got == want);
}

/// A file that one end of the tunnel sends back as a stream reaches the browser whole.
///
/// The other end takes the first message for a stream that follows; from the rest it sends the
/// head of the answer and a body in chunks that is read as the parts of the file, one behind the
/// other; then the stream is closed and its tunnel is gone.
pub proof fn law_file_reaches_browser(
    tunnels: Tunnels,
    messages: Seq<Message>,
    stream_id: u32,
    status: u16,
    fields: Fields,
    parts: Seq<Seq<u8>>,
)
    requires
        carries_file(messages, stream_id, status, fields, parts),
        forall|i: int| 0 <= i < parts.len() ==> (#[trigger] parts[i]).len() <= usize::MAX,
    ensures
        answer_of(messages[0]) == Answer::Streaming(stream_id),
        ({
            let end = stream_run(stream_start(tunnels, stream_id), arrivals_of(messages));
            let head = response_bytes(status, fields, seq![]);
            &&& end.stage == StreamStage::Closed
            &&& end.tunnels == tunnels.remove(stream_id)
            &&& end.output.flush
            &&& head.is_prefix_of(end.output.bytes)
            &&& read_body(
                body_start(BodyReader::Chunked),
                end.output.bytes.skip(head.len() as int),
            ) == Some((joined(parts), Seq::<u8>::empty()))
        }),
{
    lemma_arrivals(messages, stream_id, status, fields, parts);
    law_stream_reaches_browser(tunnels, stream_id, status, fields, parts);
    law_streamed_body_is_read_back(tunnels, stream_id, status, fields, parts);
}

/// A browser's connection once all of these messages have come, and what was sent to the browser
/// meanwhile.
pub open spec fn session_run(state: SessionState, messages: Seq<Message>) -> (SessionState, Seq<u8>)
    decreases messages.len(),
{
    if messages.len() == 0 {
        (state, seq![])
    } else {
        let (before, sent) = session_run(state, messages.drop_last());
        (
            session_after(before, messages.last()),
            sent + session_output(before, messages.last()).bytes,
        )
    }
}

/// The same stage with another answer under way.
spec fn with_exchange(stage: SessionStage, exchange: ExchangeState) -> SessionStage {
    match stage {
        SessionStage::First { subdomain, client, .. } => SessionStage::First {
            exchange,
            subdomain,
            client,
        },
        SessionStage::Streaming { upstream, .. } => SessionStage::Streaming { exchange, upstream },
        other => other,
    }
}

/// What comes first may be dealt with first.
proof fn lemma_run_from_front(state: SessionState, messages: Seq<Message>)
    requires
        messages.len() > 0,
    ensures
        ({
            let (end, sent) = session_run(
                session_after(state, messages[0]),
                messages.drop_first(),
            );
            session_run(state, messages) == (
                end,
                session_output(state, messages[0]).bytes + sent,
            )
        }),
    decreases messages.len(),
{
    let rest = messages.drop_first();
    let first = session_output(state, messages[0]).bytes;
    if messages.len() == 1 {
        assert(messages.drop_last() == Seq::<Message>::empty());
        assert(session_run(state, messages.drop_last()) == (state, Seq::<u8>::empty()));
        assert(rest == Seq::<Message>::empty());
        assert(Seq::<u8>::empty() + first == first);
        assert(first + Seq::<u8>::empty() == first);
    } else {
        let front = messages.drop_last();
        lemma_run_from_front(state, front);
        assert(front.drop_first() == rest.drop_last());
        let (before, sent) = session_run(session_after(state, messages[0]), rest.drop_last());
        let last = session_output(before, messages.last()).bytes;
        assert(first + sent + last == first + (sent + last));
    }
}

/// While a stream is open, the connection stays where it is, and what is sent to the browser is
/// what the stream sends.
proof fn lemma_open_stream(state: SessionState, start: StreamState, messages: Seq<Message>)
    requires
        state.stage is First || state.stage is Streaming,
        start.output == no_output(),
        state.stage == with_exchange(
            state.stage,
            ExchangeState { stage: ExchangeStage::Stream(start), tunnels: start.tunnels },
        ),
        stream_run(start, meanings(messages)).stage != StreamStage::Closed,
    ensures
        ({
            let now = stream_run(start, meanings(messages));
            session_run(state, messages) == (
                SessionState {
                    stage: with_exchange(
                        state.stage,
                        ExchangeState {
                            stage: ExchangeStage::Stream(drained(now)),
                            tunnels: start.tunnels,
                        },
                    ),
                    ..state
                },
                now.output.bytes,
            )
        }),
    decreases messages.len(),
{
    if messages.len() == 0 {
        assert(drained(start) == start);
    } else {
        let front = messages.drop_last();
        assert(meanings(messages).drop_last() == meanings(front));
        let before = stream_run(start, meanings(front));
        let arrival = arrival_of(messages.last());
        assert(meanings(messages).last() == arrival);
        lemma_open_stream(state, start, front);
        law_output_is_appended(before, arrival);
        let now = stream_step(before, arrival);
        assert(drained(stream_step(drained(before), arrival)) == drained(now));
    }
}

/// A browser whose request was sent on gets the file that is sent back as a stream: the head of
/// the answer, and a body in chunks that is read as the parts of the file, one behind the other.
///
/// Behind the answer to a request that was sent on as it is, something more is waited for; behind
/// that, the next request. The tunnel of a stream that comes there is kept.
pub proof fn law_browser_gets_file(
    state: SessionState,
    messages: Seq<Message>,
    stream_id: u32,
    status: u16,
    fields: Fields,
    parts: Seq<Seq<u8>>,
)
    requires
        carries_file(messages, stream_id, status, fields, parts),
        forall|i: int| 0 <= i < parts.len() ==> (#[trigger] parts[i]).len() <= usize::MAX,
        state.stage is Second || (state.stage matches SessionStage::First { exchange, .. }
            && exchange.stage is Reply),
    ensures
        ({
            let (end, sent) = session_run(state, messages);
            let head = response_bytes(status, fields, seq![]);
            &&& head.is_prefix_of(sent)
            &&& read_body(body_start(BodyReader::Chunked), sent.skip(head.len() as int)) == Some(
                (joined(parts), Seq::<u8>::empty()),
            )
            &&& match state.stage {
                SessionStage::First { subdomain, client, .. } => end == (SessionState {
                    stage: SessionStage::Second { subdomain, client },
                    ..state
                }),
                SessionStage::Second { client, .. } => end == (SessionState {
                    stage: SessionStage::Request,
                    tunnels: state.tunnels.insert(stream_id, (client, state.downstream)),
                    ..state
                }),
                _ => true,
            }
        }),
{
    let rest = messages.drop_first();
    let open = rest.drop_last();
    let begun = session_after(state, messages[0]);
    lemma_run_from_front(state, messages);
    lemma_arrivals(messages, stream_id, status, fields, parts);
    assert(rest == messages.skip(1));
    assert(meanings(rest) == arrivals_of(messages));
    let tunnels = match state.stage {
        SessionStage::First { exchange, .. } => exchange.tunnels,
        _ => begun.tunnels,
    };
    let start = stream_start(tunnels, stream_id);
    let arrivals = stream_arrivals(status, fields, parts, stream_id);
    law_stream_reaches_browser(tunnels, stream_id, status, fields, parts);
    law_streamed_body_is_read_back(tunnels, stream_id, status, fields, parts);
    lemma_open_until_end(tunnels, stream_id, status, fields, parts);
    assert(meanings(open) == arrivals.drop_last());
    lemma_open_stream(begun, start, open);
    let now = stream_run(start, arrivals.drop_last());
    assert(arrivals.last() == Arrival::Close(stream_id));
    assert(rest.last() == messages[messages.len() - 1]);
    let (before, sent) = session_run(begun, open);
    assert(session_output(before, rest.last()).bytes == Seq::<u8>::empty());
    assert(sent + Seq::<u8>::empty() == sent);
    assert(Seq::<u8>::empty() + sent == sent);
    assert(stream_run(start, arrivals).output.bytes == now.output.bytes);
}

/// An answer in one piece is taken for one, with its status, its header fields and its body.
pub proof fn law_whole_answer_is_understood(
    message: Message,
    status: u16,
    fields: Fields,
    body: Seq<u8>,
)
    requires
        is_response(message, status, fields, body),
    ensures
        answer_of(message) matches Answer::Simple(HttpData::Response {
            status: s,
            headers: h,
            body: b,
        }) && s == status && h@ == fields && b@ == body,
{
}

/// A request that is sent through the tunnel as it is makes the other end fetch the file that the
/// request's URL names, whatever streams are open there.
pub proof fn law_request_is_fetched(streams: Map<u32, ChannelId>, request: HttpRequest)
    ensures
        ({
            let message = Message::Data(Data::Http(HttpData::Request(request)));
            &&& handled(message)
            &&& action_for(streams, message) == (Action::Fetch {
                url: request.url,
                force_stream: asks_for_video(request.headers@, request.url@),
            })
        }),
{
}

/// A request that is sent through the tunnel as a stream makes the other end open a stream with a
/// new channel and then fetch the file that the request's URL names.
pub proof fn law_streamed_request_is_handled(
    streams: Map<u32, ChannelId>,
    channel: ChannelId,
    sent: StreamingRequest,
    request: HttpRequest,
    client: (ConnectionId, Seq<ProtocolType>),
    downstream: ConnectionId,
    tunnels: Tunnels,
)
    requires
        sends_on(sent, HttpData::Request(request), client, downstream, tunnels),
    ensures
        handled(sent.opening) && handled(sent.request),
        sent.opening matches Message::StreamOpen { stream_id, .. } && {
            let opened = streams_after(streams, sent.opening, channel);
            &&& action_for(streams, sent.opening) == (Action::HandleStream {
                stream_id,
                replaced: streams.get(stream_id),
            })
            &&& opened == streams.insert(stream_id, channel)
            &&& action_for(opened, sent.request) == (Action::Fetch {
                url: request.url,
                force_stream: asks_for_video(request.headers@, request.url@),
            })
            &&& streams_after(opened, sent.request, channel) == opened
        },
{
}

/// A handshake that one end accepts is understood by the other as the subdomain that was given
/// out.
pub proof fn law_handshake_is_understood(
    handshake: Handshake,
    version: u32,
    requested: Seq<ProtocolType>,
    supported: Seq<ProtocolType>,
)
    requires
        accepts(handshake, version, requested, supported),
    ensures
        handshake_step(handshake.response) matches HandshakeStep::Registered(subdomain)
            && subdomain@ == handshake.subdomain@,
{
}

} // verus!
