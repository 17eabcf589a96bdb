//! A response that reaches a browser piece by piece.

use dashmap::DashMap;
use vstd::prelude::*;

use crate::body::{
    body_start, chunk_frame, chunk_frames, joined, last_chunk, law_chunked_round_trip, read_body,
};
use crate::headers::{Fields, Headers};
use crate::protocol::{BodyReader, Data, HttpData, Message, Tunnel};
use crate::registry::{copy_tunnels, remove_tunnel, tunnels_in, Tunnels};
use crate::server::tunnel::TunnelError;
use crate::server::utils::{build_response, response_bytes, Output, TlsWriter};

verus! {

/// How far a response has come.
#[derive(Clone, Copy, Debug, PartialEq, Eq, Structural)]
pub enum StreamStage {
    /// The head of the response comes next.
    Head,
    /// A part of the body comes next.
    Body,
    /// Nothing comes any more.
    Closed,
}

/// A response that reaches a browser piece by piece.
pub struct StreamingResponse {
    stage: StreamStage,
    writer: TlsWriter,
    tunnels: DashMap<u32, Tunnel>,
    stream_id: u32,
}

/// What stands for a response that reaches a browser piece by piece.
pub struct StreamState {
    pub stage: StreamStage,
    /// What is still to be sent to the browser.
    pub output: Output,
    /// The tunnels that the response is served with.
    pub tunnels: Tunnels,
    /// The number under which the stream was opened.
    pub stream_id: u32,
}

/// What a message means to a stream.
pub enum Arrival {
    /// The head of a response.
    Head { status: u16, fields: Fields },
    /// A part of a body, the last one or not.
    Chunk { data: Seq<u8>, is_end: bool },
    /// The end of the stream of this number.
    Close(u32),
    /// Nothing that belongs in a stream.
    Other,
}

/// What a message means to a stream.
pub open spec fn arrival_of(message: Message) -> Arrival {
    match message {
        Message::Data(Data::Http(HttpData::Response { status, headers, .. })) => Arrival::Head {
            status,
            fields: headers@,
        },
        Message::Data(Data::Http(HttpData::BodyChunk { data, is_end, .. })) => Arrival::Chunk {
            data: data@,
            is_end,
        },
        Message::StreamClose { stream_id } => Arrival::Close(stream_id),
        _ => Arrival::Other,
    }
}

/// A response of which nothing has come.
pub open spec fn stream_start(
    tunnels: Tunnels,
    stream_id: u32,
) -> StreamState {
    StreamState {
        stage: StreamStage::Head,
        output: Output { bytes: seq![], flush: false },
        tunnels,
        stream_id,
    }
}

/// What a part of a body adds to what is to be sent: a chunk, and the last chunk where it is the
/// last part.
pub open spec fn with_chunk(output: Output, data: Seq<u8>, is_end: bool) -> Output {
    if is_end {
        Output { bytes: output.bytes + chunk_frame(data) + last_chunk(), flush: true }
    } else {
        Output { bytes: output.bytes + chunk_frame(data), flush: output.flush }
    }
}

/// The response once something has come.
pub open spec fn stream_step(state: StreamState, arrival: Arrival) -> StreamState {
    match (state.stage, arrival) {
        (StreamStage::Head, Arrival::Head { status, fields }) => StreamState {
            stage: StreamStage::Body,
            output: Output {
                bytes: state.output.bytes + response_bytes(status, fields, seq![]),
                flush: true,
            },
            ..state
        },
        (StreamStage::Body, Arrival::Chunk { data, is_end }) => StreamState {
            output: with_chunk(state.output, data, is_end),
            ..state
        },
        (StreamStage::Body, Arrival::Close(stream_id)) => StreamState {
            stage: StreamStage::Closed,
            tunnels: state.tunnels.remove(stream_id),
            ..state
        },
        _ => StreamState { stage: StreamStage::Closed, ..state },
    }
}

/// The response once all of these have come.
pub open spec fn stream_run(state: StreamState, arrivals: Seq<Arrival>) -> StreamState
    decreases arrivals.len(),
{
    if arrivals.len() == 0 {
        state
    } else {
        stream_step(stream_run(state, arrivals.drop_last()), arrivals.last())
    }
}

impl View for StreamingResponse {
    type V = StreamState;

    closed spec fn view(&self) -> StreamState {
        StreamState {
            stage: self.stage,
            output: self.writer@,
            tunnels: tunnels_in(self.tunnels),
            stream_id: self.stream_id,
        }
    }
}

impl StreamingResponse {
    /// A response of which nothing has come, served with tunnels of its own.
    pub fn new(tunnels: &DashMap<u32, Tunnel>, stream_id: u32) -> (response: Self)
        ensures
            response@ == stream_start(tunnels_in(*tunnels), stream_id),
    {
        StreamingResponse {
            stage: StreamStage::Head,
            writer: TlsWriter::new(),
            tunnels: copy_tunnels(tunnels),
            stream_id,
        }
    }

    /// Whether nothing comes any more.
    pub fn is_closed(&self) -> (closed: bool)
        ensures
            closed == (self@.stage == StreamStage::Closed),
    {
        self.stage == StreamStage::Closed
    }

    /// The tunnels that the response is served with.
    pub fn tunnels(&self) -> (tunnels: &DashMap<u32, Tunnel>)
        ensures
            tunnels_in(*tunnels) == self@.tunnels,
    {
        &self.tunnels
    }

    /// Takes the next message of the stream.
    ///
    /// Where it should be the head of a response and is not, the response has failed.
    pub fn handle_streaming_response(&mut self, message: Message) -> (taken: Result<
        (),
        TunnelError,
    >)
        ensures
            final(self)@ == stream_step(old(self)@, arrival_of(message)),
            if old(self)@.stage == StreamStage::Head && !(arrival_of(message) is Head) {
                taken == Err::<(), TunnelError>(TunnelError::NoHead(old(self)@.stream_id))
            } else {
                taken is Ok
            },
    {
        match (self.stage, message) {
            (
                StreamStage::Head,
                Message::Data(Data::Http(HttpData::Response { status, headers, .. })),
            ) => {
                let head = build_response(status, &headers, Vec::new());
                self.writer.write_simple_response(head.as_slice());
                self.stage = StreamStage::Body;
                assert(head@ == response_bytes(status, headers@, seq![]));
                Ok(())
            },
            (StreamStage::Head, _) => {
                self.stage = StreamStage::Closed;
                Err(TunnelError::NoHead(self.stream_id))
            },
            (
                StreamStage::Body,
                Message::Data(Data::Http(HttpData::BodyChunk { data, is_end, .. })),
            ) => {
                self.writer.write_chunk(data.as_slice());
                if is_end {
                    self.writer.write_final_chunk();
                }
                Ok(())
            },
            (StreamStage::Body, Message::StreamClose { stream_id }) => {
                remove_tunnel(&mut self.tunnels, stream_id);
                self.stage = StreamStage::Closed;
                Ok(())
            },
            _ => {
                self.stage = StreamStage::Closed;
                Ok(())
            },
        }
    }

    /// Hands out what is to be sent to the browser, so that it is not sent twice.
    pub fn take_output(&mut self) -> (output: (Vec<u8>, bool))
        ensures
            output.0@ == old(self)@.output.bytes,
            output.1 == old(self)@.output.flush,
            final(self)@ == (StreamState {
                output: Output { bytes: seq![], flush: false },
                ..old(self)@
            }),
    {
        self.writer.take()
    }
}

/// What comes of a response that is streamed in parts.
pub open spec fn stream_arrivals(
    status: u16,
    fields: Fields,
    parts: Seq<Seq<u8>>,
    stream_id: u32,
) -> Seq<Arrival> {
    part_arrivals(status, fields, parts).push(
        Arrival::Chunk { data: seq![], is_end: true },
    ).push(Arrival::Close(stream_id))
}

/// What comes of a response that is streamed in parts, but for its end.
pub open spec fn part_arrivals(status: u16, fields: Fields, parts: Seq<Seq<u8>>) -> Seq<Arrival> {
    seq![Arrival::Head { status, fields }] + parts.map_values(
        |data: Seq<u8>| Arrival::Chunk { data, is_end: false },
    )
}

/// The parts of a body that have come stand behind the head, each as a chunk.
proof fn lemma_parts(state: StreamState, status: u16, fields: Fields, parts: Seq<Seq<u8>>)
    requires
        state.stage == StreamStage::Head,
    ensures
        stream_run(state, part_arrivals(status, fields, parts)) == (StreamState {
            stage: StreamStage::Body,
            output: Output {
                bytes: state.output.bytes + response_bytes(status, fields, seq![])
                    + chunk_frames(parts),
                flush: true,
            },
            ..state
        }),
    decreases parts.len(),
{
    let arrivals = part_arrivals(status, fields, parts);
    let head = state.output.bytes + response_bytes(status, fields, seq![]);
    if parts.len() == 0 {
        assert(arrivals.drop_last() == Seq::<Arrival>::empty());
        assert(stream_run(state, arrivals.drop_last()) == state);
        assert(head + chunk_frames(parts) == head);
    } else {
        let front = parts.drop_last();
        lemma_parts(state, status, fields, front);
        assert(arrivals.drop_last() == part_arrivals(status, fields, front));
        assert(head + chunk_frames(front) + chunk_frame(parts.last()) == head + chunk_frames(
            parts,
        ));
    }
}

/// A response that is streamed in parts reaches the browser as its head, its parts as chunks and
/// the last chunk, and its tunnel is gone.
pub proof fn law_stream_reaches_browser(
    tunnels: Tunnels,
    stream_id: u32,
    status: u16,
    fields: Fields,
    parts: Seq<Seq<u8>>,
)
    ensures
        stream_run(
            stream_start(tunnels, stream_id),
            stream_arrivals(status, fields, parts, stream_id),
        ) == (StreamState {
            stage: StreamStage::Closed,
            output: Output {
                bytes: response_bytes(status, fields, seq![]) + chunk_frames(parts)
                    + last_chunk(),
                flush: true,
            },
            tunnels: tunnels.remove(stream_id),
            stream_id,
        }),
{
    let start = stream_start(tunnels, stream_id);
    let arrivals = stream_arrivals(status, fields, parts, stream_id);
    let front = part_arrivals(status, fields, parts);
    let last = Arrival::Chunk { data: seq![], is_end: true };
    lemma_parts(start, status, fields, parts);
    let sent = stream_run(start, front);
    let ended = stream_step(sent, last);
    assert(front.push(last).drop_last() == front);
    assert(stream_run(start, front.push(last)) == ended);
    assert(arrivals.drop_last() == front.push(last));
    assert(stream_run(start, arrivals) == stream_step(ended, Arrival::Close(stream_id)));
    let head = response_bytes(status, fields, seq![]);
    assert(sent.output.bytes == head + chunk_frames(parts));
    assert(ended.output.bytes == head + chunk_frames(parts) + last_chunk());
}

/// A response that is streamed in parts is open until its end comes.
pub proof fn lemma_open_until_end(
    tunnels: Tunnels,
    stream_id: u32,
    status: u16,
    fields: Fields,
    parts: Seq<Seq<u8>>,
)
    ensures
        stream_run(
            stream_start(tunnels, stream_id),
            stream_arrivals(status, fields, parts, stream_id).drop_last(),
        ).stage == StreamStage::Body,
{
    let start = stream_start(tunnels, stream_id);
    let front = part_arrivals(status, fields, parts);
    let last = Arrival::Chunk { data: seq![], is_end: true };
    lemma_parts(start, status, fields, parts);
    assert(stream_arrivals(status, fields, parts, stream_id).drop_last() == front.push(last));
    assert(front.push(last).drop_last() == front);
}

/// What a browser reads behind the head of a response that is streamed is the body that was sent,
/// however it was cut into parts, and nothing is left.
pub proof fn law_streamed_body_is_read_back(
    tunnels: Tunnels,
    stream_id: u32,
    status: u16,
    fields: Fields,
    parts: Seq<Seq<u8>>,
)
    requires
        forall|i: int| 0 <= i < parts.len() ==> (#[trigger] parts[i]).len() <= usize::MAX,
    ensures
        ({
            let sent = stream_run(
                stream_start(tunnels, stream_id),
                stream_arrivals(status, fields, parts, stream_id),
            ).output.bytes;
            let head = response_bytes(status, fields, seq![]);
            &&& head.is_prefix_of(sent)
            &&& read_body(body_start(BodyReader::Chunked), sent.skip(head.len() as int)) == Some(
                (joined(parts), Seq::<u8>::empty()),
            )
        }),
{
    law_stream_reaches_browser(tunnels, stream_id, status, fields, parts);
    law_chunked_round_trip(parts, seq![]);
    let head = response_bytes(status, fields, seq![]);
    let body = chunk_frames(parts) + last_chunk();
    let sent = head + chunk_frames(parts) + last_chunk();
    assert(sent.take(head.len() as int) == head);
    assert(sent.skip(head.len() as int) == body + Seq::<u8>::empty());
}

/// What is to be sent is only added to: whether something was handed out before does not change
/// what comes behind it.
pub proof fn law_output_is_appended(state: StreamState, arrival: Arrival)
    ensures
        ({
            let emptied = StreamState { output: Output { bytes: seq![], flush: false }, ..state };
            let after = stream_step(state, arrival);
            let fresh = stream_step(emptied, arrival);
            &&& after.output.bytes == state.output.bytes + fresh.output.bytes
            &&& after.output.flush == (state.output.flush || fresh.output.flush)
            &&& after.stage == fresh.stage
            &&& after.tunnels == fresh.tunnels
        }),
{
    let emptied = StreamState { output: Output { bytes: seq![], flush: false }, ..state };
    let after = stream_step(state, arrival);
    let fresh = stream_step(emptied, arrival);
    assert(after.output.bytes == state.output.bytes + fresh.output.bytes);
}

/// A response that has ended takes nothing more.
pub proof fn law_closed_stream_stays_closed(state: StreamState, arrivals: Seq<Arrival>)
    requires
        state.stage == StreamStage::Closed,
    ensures
        stream_run(state, arrivals) == state,
    decreases arrivals.len(),
{
    if arrivals.len() > 0 {
        law_closed_stream_stays_closed(state, arrivals.drop_last());
    }
}

/// The last part of a body may have bytes too: behind the parts that came before, they are read
/// back with these, whatever their number and their length.
pub proof fn law_last_part_is_read_back(
    tunnels: Tunnels,
    stream_id: u32,
    status: u16,
    fields: Fields,
    parts: Seq<Seq<u8>>,
    last: Seq<u8>,
)
    requires
        forall|i: int| 0 <= i < parts.len() ==> (#[trigger] parts[i]).len() <= usize::MAX,
        last.len() <= usize::MAX,
    ensures
        ({
            let arrivals = part_arrivals(status, fields, parts).push(
                Arrival::Chunk { data: last, is_end: true },
            );
            let state = stream_run(stream_start(tunnels, stream_id), arrivals);
            let head = response_bytes(status, fields, seq![]);
            &&& state.stage == StreamStage::Body
            &&& state.output.flush
            &&& head.is_prefix_of(state.output.bytes)
            &&& read_body(
                body_start(BodyReader::Chunked),
                state.output.bytes.skip(head.len() as int),
            ) == Some((joined(parts) + last, Seq::<u8>::empty()))
        }),
{
    let start = stream_start(tunnels, stream_id);
    let front = part_arrivals(status, fields, parts);
    let end = Arrival::Chunk { data: last, is_end: true };
    lemma_parts(start, status, fields, parts);
    assert(front.push(end).drop_last() == front);
    let state = stream_run(start, front.push(end));
    let head = response_bytes(status, fields, seq![]);
    let all = parts.push(last);
    assert(all.drop_last() == parts);
    assert(start.output.bytes + head == head);
    assert(state.output.bytes == head + (chunk_frames(all) + last_chunk() + Seq::<u8>::empty()));
    assert(state.output.bytes.subrange(0, head.len() as int) == head);
    assert(state.output.bytes.skip(head.len() as int) == chunk_frames(all) + last_chunk()
        + Seq::<u8>::empty());
    assert forall|i: int| 0 <= i < all.len() implies (#[trigger] all[i]).len() <= usize::MAX by {
        if i < parts.len() {
            assert(all[i] == parts[i]);
        }
    }
    law_chunked_round_trip(all, seq![]);
}

/// What does not belong in a stream ends it, and nothing of it is sent; so does the end of any
/// stream, whose tunnel is then gone. Where the head should come and does not, nothing is sent at
/// all.
pub proof fn law_stream_ends(state: StreamState, arrival: Arrival, stream_id: u32)
    ensures
        ({
            let after = stream_step(state, arrival);
            &&& state.stage == StreamStage::Head && !(arrival is Head) ==> after == (StreamState {
                stage: StreamStage::Closed,
                ..state
            })
            &&& state.stage == StreamStage::Body && !(arrival is Chunk) ==> after.stage
                == StreamStage::Closed && after.output == state.output
            &&& state.stage == StreamStage::Body && (arrival is Head || arrival is Other)
                ==> after.tunnels == state.tunnels
            &&& arrival is Chunk || arrival is Head ==> after.tunnels == state.tunnels
        }),
        state.stage == StreamStage::Body ==> stream_step(state, Arrival::Close(stream_id)).tunnels
            == state.tunnels.remove(stream_id),
{
}

/// What a message means to a stream is what it holds: a response's status and all its fields, a
/// part's bytes, the number of a stream that ends; of whatever stream, and nothing else counts.
pub proof fn law_arrivals(
    status: u16,
    headers: Headers,
    body: Vec<u8>,
    stream_id: u32,
    is_end: bool,
    message: Message,
)
    ensures
        arrival_of(Message::Data(Data::Http(HttpData::Response { status, headers, body }))) == (
        Arrival::Head { status, fields: headers@ }),
        arrival_of(
            Message::Data(Data::Http(HttpData::BodyChunk { stream_id, data: body, is_end })),
        ) == (Arrival::Chunk { data: body@, is_end }),
        arrival_of(Message::StreamClose { stream_id }) == Arrival::Close(stream_id),
        arrival_of(message) is Other <==> !(message is StreamClose) && !(message matches
            Message::Data(Data::Http(HttpData::Response { .. }))) && !(message matches
            Message::Data(Data::Http(HttpData::BodyChunk { .. }))),
{
}

} // verus!
