use http_tunnel::body::{BodyAssembly, Need};
use http_tunnel::client::tunnel::{
    plan_answer, relay_step, read_handshake, whole_answer, Action, AnswerPlan, Client, Config,
    HandshakeStep, RelayEvent, RelayStep,
};
use http_tunnel::headers::Headers;
use http_tunnel::protocol::{
    BodyReader, DownstreamClient, HttpData, HttpRequest, Message, ProtocolType,
};
use http_tunnel::server::args::Args;
use http_tunnel::server::session::{Next, Session};
use http_tunnel::server::tunnel::Server;

fn client() -> Client {
    Client::new(Config::new(3001, "h".to_string(), 1, vec![ProtocolType::Http], 1, None))
}

fn connected() -> Server {
    let mut server = Server::new(
        Args {
            listen: 1,
            cert_path: String::new(),
            key_path: String::new(),
            protocols: vec![ProtocolType::Http],
        }
        .into_config(),
    );
    let accepted = server
        .handle_upstream_connection(client().handshake_request())
        .ok()
        .unwrap()
        .unwrap();
    server.complete_handshake(accepted, 11);
    server
}

fn request() -> HttpData {
    let mut headers = Headers::new();
    headers.insert("Host".to_string(), "todo.com".to_string());
    HttpData::Request(HttpRequest {
        method: "GET".to_string(),
        url: "/f".to_string(),
        version: 1,
        headers,
        body_reader: BodyReader::Fixed(0),
    })
}

/// What the client sends back of a file that comes in the given parts.
fn streamed_file(parts: &[&[u8]]) -> Vec<Message> {
    let AnswerPlan::Streamed(begun) = plan_answer(true, 200, vec![]) else {
        panic!("expected a stream");
    };
    let mut messages = vec![begun.first, begun.second];
    for part in parts {
        match relay_step(begun.stream_id, RelayEvent::Part(part.to_vec())) {
            RelayStep::Send(message) => messages.push(message),
            RelayStep::Finish { .. } => panic!("ended early"),
        }
    }
    match relay_step(begun.stream_id, RelayEvent::Ended) {
        RelayStep::Finish { end, close } => {
            messages.push(end);
            messages.push(close);
        }
        RelayStep::Send(_) => panic!("did not end"),
    }
    messages
}

/// The body that a browser reads in chunks.
fn read_chunks(mut input: &[u8]) -> Vec<u8> {
    let mut assembly = BodyAssembly::new(BodyReader::Chunked);
    loop {
        match assembly.need() {
            Need::Nothing => {
                assert!(input.is_empty());
                return assembly.finish();
            }
            Need::Exact(count) => {
                assembly.supply_bytes(&input[..count]);
                input = &input[count..];
            }
            Need::Line => {
                let count = input.iter().position(|b| *b == b'\n').unwrap() + 1;
                assembly.supply_line(std::str::from_utf8(&input[..count]).unwrap()).unwrap();
                input = &input[count..];
            }
        }
    }
}

#[test]
fn the_client_understands_the_servers_handshake() {
    let server = Server::new(
        Args { listen: 1, cert_path: String::new(), key_path: String::new(), protocols: vec![] }
            .into_config(),
    );
    let accepted = server
        .handle_upstream_connection(client().handshake_request())
        .ok()
        .unwrap()
        .unwrap();
    match read_handshake(accepted.response) {
        HandshakeStep::Registered(subdomain) => assert_eq!(subdomain, accepted.subdomain),
        HandshakeStep::RetryAfter(_) => panic!("expected a subdomain"),
    }
}

#[test]
fn a_request_that_is_sent_on_is_fetched() {
    let server = connected();
    let mut session = Session::new(&server, DownstreamClient::new(21));
    let step = session.handle_request(request());
    match client().handle_message(step.send.unwrap(), 1) {
        Action::Fetch { url, force_stream } => assert_eq!((url.as_str(), force_stream), ("/f", false)),
        _ => panic!("expected a fetch"),
    }
}

#[test]
fn a_streamed_request_opens_a_stream_and_is_fetched() {
    let server = connected();
    let HttpData::Request(mut asked) = request() else {
        panic!("expected a request");
    };
    asked.headers.insert("Transfer-Encoding".to_string(), "chunked".to_string());
    let mut session = Session::new(&server, DownstreamClient::new(21));
    let sent = session.handle_request(HttpData::Request(asked)).spawn.unwrap();
    let mut client = client();
    assert!(matches!(
        client.handle_message(sent.opening, 5),
        Action::HandleStream { replaced: None, .. }
    ));
    match client.handle_message(sent.request, 6) {
        Action::Fetch { url, .. } => assert_eq!(url, "/f"),
        _ => panic!("expected a fetch"),
    }
}

#[test]
fn a_file_that_is_sent_back_reaches_the_browser() {
    let server = connected();
    let parts: [&[u8]; 4] = [b"one", b"", b"\r\n0\r\n\r\n", &[1u8; 4096]];
    let mut session = Session::new(&server, DownstreamClient::new(21));
    session.handle_request(request());
    for pass in 0..2 {
        let mut received = Vec::new();
        let mut last = None;
        for message in streamed_file(&parts) {
            let step = session.handle_reply(message);
            received.extend_from_slice(&step.bytes);
            last = Some(step.next);
        }
        let head = b"HTTP/1.1 200\r\n\r\n";
        assert!(received.starts_with(head));
        assert_eq!(read_chunks(&received[head.len()..]), parts.concat());
        match last.unwrap() {
            Next::Reply(11) => assert_eq!(pass, 0),
            Next::Request => assert_eq!(pass, 1),
            _ => panic!("stopped"),
        }
    }
}

#[test]
fn an_answer_in_one_piece_reaches_the_browser() {
    let server = connected();
    let mut session = Session::new(&server, DownstreamClient::new(21));
    session.handle_request(request());
    let step = session.handle_reply(whole_answer(404, Headers::new(), b"no".to_vec()));
    assert_eq!(step.bytes, b"HTTP/1.1 404\r\n\r\nno".to_vec());
    assert!(step.flush);
}
