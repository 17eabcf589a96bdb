use http_tunnel::body::{BodyAssembly, InvalidChunkSize, Need};
use http_tunnel::headers::Headers;
use http_tunnel::protocol::{
    copy_protocols, read_message, write_message, BodyReader, Data, DownstreamClient, FrameRead,
    HttpData, HttpRequest, Message, ProtocolType, Tunnel, UpstreamClient, STREAMING_THRESHOLD,
};
use http_tunnel::server::utils::TlsWriter;

fn fields(pairs: &[(&str, &str)]) -> Headers {
    let mut headers = Headers::new();
    for (name, value) in pairs {
        headers.insert(name.to_string(), value.to_string());
    }
    headers
}

/// Reads a body from `input` as the assembly asks for it; gives the body and what is left.
fn gather(mut assembly: BodyAssembly, input: &[u8]) -> Result<(Vec<u8>, usize), InvalidChunkSize> {
    let mut at = 0;
    loop {
        match assembly.need() {
            Need::Nothing => return Ok((assembly.finish(), input.len() - at)),
            Need::Exact(count) => {
                assembly.supply_bytes(&input[at..at + count]);
                at += count;
            }
            Need::Line => {
                let end = at + input[at..].iter().position(|b| *b == b'\n').unwrap() + 1;
                assembly.supply_line(std::str::from_utf8(&input[at..end]).unwrap())?;
                at = end;
            }
        }
    }
}

#[test]
fn the_streaming_threshold_is_one_mebibyte() {
    assert_eq!(STREAMING_THRESHOLD, 1024 * 1024);
}

#[test]
fn messages_are_made() {
    assert!(matches!(
        Message::stream_open(ProtocolType::Http),
        Message::StreamOpen { protocol: ProtocolType::Http, .. }
    ));
    assert!(matches!(
        Message::stream_open_as(7, ProtocolType::Tcp),
        Message::StreamOpen { stream_id: 7, protocol: ProtocolType::Tcp }
    ));
    assert!(matches!(Message::stream_close(9), Message::StreamClose { stream_id: 9 }));
    match Message::http_chunk(3, vec![1, 2], true) {
        Message::Data(Data::Http(HttpData::BodyChunk { stream_id, data, is_end })) => {
            assert_eq!((stream_id, data, is_end), (3, vec![1, 2], true));
        }
        _ => panic!("expected a chunk"),
    }
}

#[test]
fn streams_are_opened_under_numbers_that_differ() {
    let mut numbers = Vec::new();
    for _ in 0..8 {
        if let Message::StreamOpen { stream_id, .. } = Message::stream_open(ProtocolType::Udp) {
            numbers.push(stream_id);
        }
    }
    numbers.sort();
    numbers.dedup();
    assert!(numbers.len() > 1);
}

#[test]
fn clients_and_tunnels_hold_what_they_are_made_of() {
    let client = UpstreamClient::new(5, vec![ProtocolType::Http, ProtocolType::Udp]);
    let tunnel = Tunnel::new(client.clone(), DownstreamClient::new(6)).clone();
    assert_eq!(tunnel.upstream.stream, 5);
    assert_eq!(tunnel.upstream.protocols, client.protocols);
    assert_eq!(tunnel.downstream.stream, 6);
    assert_eq!(copy_protocols(&client.protocols), vec![ProtocolType::Http, ProtocolType::Udp]);
}

#[test]
fn a_frame_is_the_length_and_the_message() {
    assert_eq!(write_message(b"abc"), vec![0, 0, 0, 3, b'a', b'b', b'c']);
    assert_eq!(write_message(b""), vec![0, 0, 0, 0]);
    let long = vec![7u8; 0x010203];
    assert_eq!(write_message(&long)[..5].to_vec(), vec![0, 1, 2, 3, 7]);
}

#[test]
fn a_frame_is_read_back_and_what_is_missing_is_asked_for() {
    let frame = write_message(b"hello");
    for have in 0..frame.len() {
        match read_message(&frame[..have]) {
            FrameRead::More(count) => {
                assert_eq!(count, if have < 4 { 4 - have } else { frame.len() - have });
            }
            FrameRead::Complete(_) => panic!("complete at {}", have),
        }
    }
    match read_message(&frame) {
        FrameRead::Complete(message) => assert_eq!(message, b"hello".to_vec()),
        FrameRead::More(_) => panic!("incomplete"),
    }
}

#[test]
fn bodies_are_shown_by_their_length() {
    assert_eq!(BodyReader::Fixed(12).fmt(), "Fixed(12)");
    assert_eq!(BodyReader::Chunked.fmt(), "Chunked");
    let chunk = HttpData::BodyChunk { stream_id: 4, data: vec![0; 10], is_end: false };
    assert_eq!(chunk.fmt(), "BodyChunk { stream_id: 4, data: 10 B, is_end: false }");
    let response = HttpData::Response {
        status: 200,
        headers: fields(&[("a", "1"), ("b", "x\"y")]),
        body: vec![0; 3],
    };
    assert_eq!(
        response.fmt(),
        "Response { status: 200, headers: {\"a\": \"1\", \"b\": \"x\\\"y\"}, body: 3 B }"
    );
    let request = HttpData::Request(HttpRequest {
        method: "GET".to_string(),
        url: "/\n".to_string(),
        version: 1,
        headers: fields(&[]),
        body_reader: BodyReader::Fixed(0),
    });
    assert_eq!(
        request.fmt(),
        "Request { method: \"GET\", url: \"/\\n\", headers: {}, body: Fixed(0), version: 1 }"
    );
}

#[test]
fn a_body_of_known_length_is_gathered() {
    let assembly = BodyAssembly::new(BodyReader::Fixed(3));
    assert_eq!(assembly.need(), Need::Exact(3));
    assert_eq!(gather(assembly, b"abcdef"), Ok((b"abc".to_vec(), 3)));
    assert_eq!(gather(BodyAssembly::new(BodyReader::Fixed(0)), b""), Ok((vec![], 0)));
}

#[test]
fn a_chunked_body_is_gathered() {
    let input = b"4\r\nWiki\r\n6 \r\npedia \r\nD\r\nin \r\n\r\nchunks\r\n0\r\n\r\nrest";
    assert_eq!(
        gather(BodyAssembly::new(BodyReader::Chunked), input),
        Ok((b"Wikipedia in \r\n\r\nchunks".to_vec(), 4))
    );
}

#[test]
fn a_chunk_size_that_is_no_number_is_refused() {
    for line in ["\r\n", "x\r\n", "4;name=value\r\n", "-1\r\n", "10000000000000000\r\n"] {
        let mut assembly = BodyAssembly::new(BodyReader::Chunked);
        assert_eq!(assembly.supply_line(line), Err(InvalidChunkSize));
        assert_eq!(assembly.need(), Need::Line);
    }
}

#[test]
fn a_request_gathers_its_body_as_its_head_says() {
    let request = HttpRequest {
        method: "POST".to_string(),
        url: "/".to_string(),
        version: 1,
        headers: fields(&[]),
        body_reader: BodyReader::Chunked,
    };
    assert_eq!(gather(request.bytes(), b"1\r\na\r\n0\r\n\r\n"), Ok((b"a".to_vec(), 0)));
}

#[test]
fn what_is_written_in_chunks_is_gathered_again() {
    let parts: [&[u8]; 4] = [b"one", b"", b"two\r\n0\r\n", &[0u8; 300]];
    let mut writer = TlsWriter::new();
    let mut whole = Vec::new();
    for part in parts {
        writer.write_chunk(part);
        whole.extend_from_slice(part);
    }
    writer.write_final_chunk();
    let (sent, flush) = writer.take();
    assert!(flush);
    assert!(sent.starts_with(b"3\r\none\r\n8\r\ntwo\r\n0\r\n\r\n12c\r\n"));
    assert_eq!(gather(BodyAssembly::new(BodyReader::Chunked), &sent), Ok((whole, 0)));
}

#[test]
fn a_writer_flushes_responses_and_last_chunks_only() {
    let mut writer = TlsWriter::new();
    assert_eq!(writer.take(), (vec![], false));
    writer.write_chunk(b"ab");
    assert_eq!(writer.take(), (b"2\r\nab\r\n".to_vec(), false));
    writer.write_chunk(b"");
    assert_eq!(writer.take(), (vec![], false));
    writer.write_simple_response(b"x");
    assert_eq!(writer.take(), (b"x".to_vec(), true));
    writer.write_final_chunk();
    assert_eq!(writer.take(), (b"0\r\n\r\n".to_vec(), true));
}
