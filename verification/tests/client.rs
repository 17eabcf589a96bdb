use http_tunnel::client::args::Args;
use http_tunnel::client::file_server::{
    FileError, FileProbe, FileResponse, FileServer, RangeHeader,
};
use http_tunnel::client::tunnel::{
    begin_answer, begin_stream_answer, file_url, is_handled, plan_answer, read_handshake,
    relay_step, should_stream_answer, whole_answer, Action, AnswerPlan, Client, Config,
    HandshakeStep, RelayEvent, RelayStep, StreamError, CHANNEL_BUF_SIZE,
};
use http_tunnel::client::utils::{
    decode_url, is_video_request, outgoing_request, to_reqwest_header, HttpVersion, RequestError,
};
use http_tunnel::headers::Headers;
use http_tunnel::protocol::{BodyReader, Data, Error, HttpData, HttpRequest, Message, ProtocolType};
use std::path::PathBuf;

fn fields(pairs: &[(&str, &str)]) -> Headers {
    let mut headers = Headers::new();
    for (name, value) in pairs {
        headers.insert(name.to_string(), value.to_string());
    }
    headers
}

fn pairs(pairs: &[(&str, &str)]) -> Vec<(String, String)> {
    pairs.iter().map(|(name, value)| (name.to_string(), value.to_string())).collect()
}

fn request(method: &str, url: &str, version: u8, pairs: &[(&str, &str)]) -> HttpRequest {
    HttpRequest {
        method: method.to_string(),
        url: url.to_string(),
        version,
        headers: fields(pairs),
        body_reader: BodyReader::Fixed(0),
    }
}

fn client() -> Client {
    Client::new(Config::new(
        3001,
        "tunnel.example".to_string(),
        4000,
        vec![ProtocolType::Http, ProtocolType::Tcp],
        7,
        Some("token".to_string()),
    ))
}

fn sent(response: Result<FileResponse, FileError>) -> FileResponse {
    match response {
        Ok(response) => response,
        Err(error) => panic!("refused with {}", error.status()),
    }
}

fn header(response: &FileResponse, name: &str) -> Option<String> {
    response.headers.iter().find(|field| field.0 == name).map(|field| field.1.clone())
}

#[test]
fn urls_are_decoded() {
    assert_eq!(decode_url("a%20b"), "a b");
    assert_eq!(decode_url("plain/path.txt"), "plain/path.txt");
    assert_eq!(decode_url("%41%7e%7E"), "A~~");
    assert_eq!(decode_url("%e9"), "\u{e9}");
    assert_eq!(decode_url("%zzx"), "%x");
    assert_eq!(decode_url("%+f!"), "\u{f}!");
    assert_eq!(decode_url("100%"), "100%");
    assert_eq!(decode_url("100%4"), "100%");
    assert_eq!(decode_url("caf\u{e9}%2F"), "caf\u{e9}/");
    assert_eq!(decode_url(""), "");
}

#[test]
fn every_escaped_byte_is_decoded_to_its_character() {
    for byte in 0..=255u8 {
        assert_eq!(decode_url(&format!("%{:02x}", byte)), (byte as char).to_string());
    }
}

#[test]
fn requests_for_videos_are_known() {
    assert!(is_video_request(&fields(&[("Accept", "text/html, video/webm")]), "/"));
    assert!(is_video_request(&fields(&[("Accept", "*/*")]), "/a.mp4"));
    assert!(is_video_request(&fields(&[("Accept", "*/*")]), "/a.webm"));
    assert!(is_video_request(&fields(&[("Accept", "*/*")]), "/a.mov"));
    assert!(is_video_request(&fields(&[("Sec-Fetch-Dest", "video")]), "/"));
    assert!(is_video_request(&fields(&[("Accept", "*/*"), ("Sec-Fetch-Dest", "video")]), "/"));
    assert!(!is_video_request(&fields(&[("Accept", "*/*")]), "/a.MP4"));
    assert!(!is_video_request(&fields(&[]), "/a.mp4"));
    assert!(!is_video_request(&fields(&[("Sec-Fetch-Dest", "document")]), "/a.mp4"));
}

#[test]
fn a_request_is_put_in_order() {
    let parts = outgoing_request(request("PUT", "/x", 0, &[("X-A", "1"), ("Host", "h")])).unwrap();
    assert_eq!(parts.method, "PUT");
    assert_eq!(parts.url, "/x");
    assert_eq!(parts.version, HttpVersion::Http10);
    assert_eq!(parts.headers.len(), 2);
    assert_eq!(parts.headers.get("x-a").unwrap(), "1");
    let fallback = outgoing_request(request("no method", "/", 9, &[])).unwrap();
    assert_eq!(fallback.method, "GET");
    assert_eq!(fallback.version, HttpVersion::Http11);
    assert_eq!(outgoing_request(request("", "/", 2, &[])).unwrap().version, HttpVersion::Http2);
    assert_eq!(outgoing_request(request("", "/", 3, &[])).unwrap().version, HttpVersion::Http3);
}

#[test]
fn header_fields_that_cannot_be_sent_are_refused() {
    assert!(matches!(
        outgoing_request(request("GET", "/", 1, &[("a b", "1")])),
        Err(RequestError::FieldName)
    ));
    assert!(matches!(
        outgoing_request(request("GET", "/", 1, &[("", "1")])),
        Err(RequestError::FieldName)
    ));
    assert!(matches!(
        outgoing_request(request("GET", "/", 1, &[("a", "1\n2")])),
        Err(RequestError::FieldValue)
    ));
    assert!(matches!(
        outgoing_request(request("GET", "/", 1, &[("a", "1\n2"), ("b c", "")])),
        Err(RequestError::FieldValue)
    ));
}

#[test]
fn a_request_that_can_be_sent_is_built() {
    let http = reqwest::Client::new();
    let built = to_reqwest_header(
        &http,
        request("POST", "http://localhost:3001/a b", 1, &[("Accept", "x")]),
    )
    .unwrap();
    assert_eq!(built.method, "POST");
    assert_eq!(built.url, "http://localhost:3001/a%20b");
    assert_eq!(built.version, "HTTP/1.1");
    assert_eq!(built.headers.get("accept").unwrap(), "x");
    assert_eq!(built.request.method().as_str(), "POST");
    assert_eq!(built.request.url().as_str(), "http://localhost:3001/a%20b");
    assert_eq!(built.request.headers().len(), 1);
    assert_eq!(built.request.headers().get("accept").unwrap(), "x");
    assert_eq!(format!("{:?}", built.request.version()), built.version);
    assert!(!built.has_body);
    assert!(built.request.body().is_none());
    let old = to_reqwest_header(&http, request("GET", "http://h/", 0, &[])).unwrap();
    assert_eq!(old.version, "HTTP/1.0");
    let two = to_reqwest_header(&http, request("GET", "http://h/", 2, &[])).unwrap();
    assert_eq!(two.version, "HTTP/2.0");
    let three = to_reqwest_header(&http, request("GET", "http://h/", 3, &[])).unwrap();
    assert_eq!(three.version, "HTTP/3.0");
}

#[test]
fn a_users_name_in_a_url_becomes_a_field() {
    let http = reqwest::Client::new();
    let built = to_reqwest_header(&http, request("GET", "http://u:p@h/", 1, &[("A", "1")])).unwrap();
    assert_eq!(built.url, "http://h/");
    assert_eq!(built.headers.get("authorization").unwrap(), "Basic dTpw");
    assert_eq!(built.headers.get("a").unwrap(), "1");
    let own = request("GET", "http://u:p@h/", 1, &[("Authorization", "mine")]);
    let built = to_reqwest_header(&http, own).unwrap();
    assert_eq!(built.headers.get("authorization").unwrap(), "mine");
    assert_eq!(built.headers.len(), 1);
}

#[test]
fn a_request_without_a_host_in_its_url_is_not_built() {
    let http = reqwest::Client::new();
    match to_reqwest_header(&http, request("GET", "/film.mp4", 1, &[])) {
        Err(RequestError::Url(text)) => assert!(text.contains("builder error")),
        _ => panic!("expected an error"),
    }
    assert!(matches!(
        to_reqwest_header(&http, request("GET", "http://h/", 1, &[("a b", "")])),
        Err(RequestError::FieldName)
    ));
}

#[test]
fn paths_are_taken_from_urls() {
    assert_eq!(FileServer::relative_path("/a%20b/c.txt"), "a b/c.txt");
    assert_eq!(FileServer::relative_path("//a"), "a");
    assert_eq!(FileServer::relative_path("/%2Fetc"), "/etc");
}

#[test]
fn types_are_guessed_from_extensions() {
    assert_eq!(FileServer::mime_type(Some("mp4")), "video/mp4");
    assert_eq!(FileServer::mime_type(Some("HTML")), "text/html");
    assert_eq!(FileServer::mime_type(Some("")), "application/octet-stream");
    assert_eq!(FileServer::mime_type(Some("no such extension")), "application/octet-stream");
    assert_eq!(FileServer::mime_type(None), "application/octet-stream");
}

#[test]
fn ranges_are_read() {
    let range = |header, size| FileServer::parse_range_header(header, size);
    assert_eq!(range("bytes=0-499", 1000), Some((0, 499)));
    assert_eq!(range("bytes=500-", 1000), Some((500, 999)));
    assert_eq!(range("bytes=500", 1000), Some((500, 999)));
    assert_eq!(range("bytes=999-999", 1000), Some((999, 999)));
    assert_eq!(range("bytes=0-1,5-6", 1000), Some((0, 1)));
    assert_eq!(range("bytes=0-1-7", 1000), Some((0, 1)));
    assert_eq!(range("bytes=+1-+2", 1000), Some((1, 2)));
    assert_eq!(range("bytes=0-1000", 1000), None);
    assert_eq!(range("bytes=5-4", 1000), None);
    assert_eq!(range("bytes=1000-", 1000), None);
    assert_eq!(range("bytes=-500", 1000), None);
    assert_eq!(range("bytes=", 1000), None);
    assert_eq!(range("bytes=a-b", 1000), None);
    assert_eq!(range("bytes=0-b", 1000), None);
    assert_eq!(range("items=0-1", 1000), None);
    assert_eq!(range("Bytes=0-1", 1000), None);
    assert_eq!(range("", 1000), None);
    assert_eq!(range("bytes=0-", 0), None);
    assert_eq!(range("bytes=0-0", 0), None);
    assert_eq!(range("bytes=18446744073709551616-", 1000), None);
    assert_eq!(
        range("bytes=0-18446744073709551614", u64::MAX),
        Some((0, 18446744073709551614))
    );
}

#[test]
fn every_range_that_a_file_has_is_read_back() {
    for size in [1u64, 2, 10, 11] {
        for first in 0..12 {
            for last in 0..12 {
                let expected = if first <= last && last < size { Some((first, last)) } else { None };
                let header = format!("bytes={}-{}", first, last);
                assert_eq!(FileServer::parse_range_header(&header, size), expected);
            }
            let expected = if first < size { Some((first, size - 1)) } else { None };
            let header = format!("bytes={}-", first);
            assert_eq!(FileServer::parse_range_header(&header, size), expected);
        }
    }
}

#[test]
fn a_whole_file_is_sent() {
    let response = sent(FileServer::answer_file(
        true,
        "video/mp4".to_string(),
        FileProbe::Size(1000),
        RangeHeader::Absent,
    ));
    assert_eq!((response.status, response.seek, response.length), (200, None, 1000));
    assert_eq!(response.headers.len(), 4);
    assert_eq!(header(&response, "content-type").unwrap(), "video/mp4");
    assert_eq!(header(&response, "content-length").unwrap(), "1000");
    assert_eq!(header(&response, "accept-ranges").unwrap(), "bytes");
    assert_eq!(header(&response, "content-disposition").unwrap(), "inline");
}

#[test]
fn a_part_of_a_file_is_sent() {
    let response = sent(FileServer::answer_file(
        true,
        "video/mp4".to_string(),
        FileProbe::Size(1000),
        RangeHeader::Text("bytes=10-19"),
    ));
    assert_eq!((response.status, response.seek, response.length), (206, Some(10), 10));
    assert_eq!(response.headers.len(), 5);
    assert_eq!(header(&response, "content-length").unwrap(), "10");
    assert_eq!(header(&response, "content-range").unwrap(), "bytes 10-19/1000");
    let whole = sent(FileServer::answer_file(
        true,
        "x/y".to_string(),
        FileProbe::Size(1000),
        RangeHeader::Text("bytes=2000-"),
    ));
    assert_eq!((whole.status, whole.seek, whole.length), (200, None, 1000));
}

#[test]
fn files_are_refused() {
    let refused = |shared, probe, range| {
        match FileServer::answer_file(shared, String::new(), probe, range) {
            Ok(_) => panic!("sent"),
            Err(error) => (error, error.status()),
        }
    };
    let size = FileProbe::Size(1);
    assert_eq!(refused(false, size, RangeHeader::Absent), (FileError::Forbidden, 403));
    assert_eq!(
        refused(false, FileProbe::NotOpened, RangeHeader::Unreadable),
        (FileError::Forbidden, 403)
    );
    assert_eq!(
        refused(true, FileProbe::NotOpened, RangeHeader::Unreadable),
        (FileError::NotFound, 404)
    );
    assert_eq!(
        refused(true, FileProbe::NotMeasured, RangeHeader::Absent),
        (FileError::NotFound, 404)
    );
    assert_eq!(refused(true, size, RangeHeader::Unreadable), (FileError::BadRequest, 400));
}

fn within(root: &[&str], whole: &[&str]) -> bool {
    let owned = |parts: &[&str]| -> Vec<String> { parts.iter().map(|p| p.to_string()).collect() };
    FileServer::leads_within(&owned(root), &owned(whole))
}

#[test]
fn paths_that_lead_out_are_told_apart() {
    let root = ["/", "srv"];
    assert!(within(&root, &["/", "srv"]));
    assert!(within(&root, &["/", "srv", "a", "b"]));
    assert!(within(&root, &["/", "srv", "a", "..", "b"]));
    assert!(within(&root, &["/", "srv", "..", "srv", "b"]));
    assert!(within(&root, &["/", "srv", "..", "..", "..", "srv", "b"]));
    assert!(within(&root, &["/", "srv", ".", "b"]));
    assert!(!within(&root, &["/", "srv", ".."]));
    assert!(!within(&root, &["/", "srv", "..", "secret"]));
    assert!(!within(&root, &["/", "srv", "a", "..", "..", "secret"]));
    assert!(!within(&root, &["/", "srv", "..", "srv2"]));
    assert!(!within(&root, &["srv", "a"]));
    assert!(within(&["/"], &["/", "..", "a"]));
    assert!(within(&["."], &[".", "a"]));
    assert!(!within(&["."], &[".", "..", "a"]));
    assert!(!within(&["."], &[".", "a", "..", "..", "b"]));
    assert!(within(&["..", "x"], &["..", "x", "a"]));
    assert!(!within(&["..", "x"], &["..", "x", "..", "a"]));
    assert!(!within(&[".."], &["..", "..", "a"]));
    assert!(!within(&[], &["/", "etc"]));
}

#[test]
fn files_are_located() {
    let root = PathBuf::from("/srv/share");
    let located = FileServer::locate(&root, "/a%20b/film.mp4");
    assert_eq!(located.path, PathBuf::from("/srv/share/a b/film.mp4"));
    assert!(located.shared);
    assert_eq!(located.mime, "video/mp4");
    let located = FileServer::locate(&root, "/plain");
    assert_eq!(located.mime, "application/octet-stream");
    let located = FileServer::locate(&root, "/%2Fetc/passwd.txt");
    assert_eq!(located.path, PathBuf::from("/etc/passwd.txt"));
    assert!(!located.shared);
    assert_eq!(located.mime, "text/plain");
    assert!(FileServer::locate(&root, "/%2Fsrv/share/x").shared);
    assert!(!FileServer::locate(&root, "/%2Fsrv/share/../x").shared);
    assert!(!FileServer::locate(&root, "/%2Fsrv/shared").shared);
}

#[test]
fn a_url_that_climbs_out_is_refused() {
    for root in ["/srv/share", "share", ".", "../share"] {
        let root = PathBuf::from(root);
        for url in ["/..%2Fsecret", "/../secret", "/a/..%2f..%2Fsecret", "/%2e%2e/x", "//..", "/.."] {
            let size = FileProbe::Size(5);
            let response = FileServer::stream_file(&root, url, size, RangeHeader::Absent);
            assert!(matches!(response, Err(FileError::Forbidden)), "{:?} {}", root, url);
        }
    }
}

#[test]
fn a_url_that_stays_or_comes_back_is_answered() {
    let root = PathBuf::from("/srv/share");
    for url in ["/a.mp4", "/a/../b.mp4", "/..%2Fshare/a.mp4", "/./a.mp4", "/a//b.mp4"] {
        let size = FileProbe::Size(5);
        let response = sent(FileServer::stream_file(&root, url, size, RangeHeader::Absent));
        assert_eq!((response.status, response.length), (200, 5));
        assert_eq!(header(&response, "content-type").unwrap(), "video/mp4");
    }
    let part = FileServer::stream_file(
        &root,
        "/a.txt",
        FileProbe::Size(5),
        RangeHeader::Text("bytes=1-2"),
    );
    assert_eq!(sent(part).status, 206);
}

#[test]
fn files_are_asked_for_on_this_machine() {
    assert_eq!(FileServer::new(PathBuf::from("/srv"), 3001).listen_address(), "127.0.0.1:3001");
}

#[test]
fn the_client_is_told_what_its_arguments_say() {
    let (config, files) = Args {
        share: PathBuf::from("/srv"),
        file_server_port: 3001,
        remote_host: "h".to_string(),
        remote_port: 9,
        protocols: vec![ProtocolType::Udp],
        auth_token: None,
    }
    .into_parts(2);
    assert_eq!(files.port, 3001);
    assert_eq!(files.into_parts(), (PathBuf::from("/srv"), 3001));
    let client = Client::new(config);
    assert_eq!(client.server_address(), "h:9");
    assert_eq!(client.file_server_port(), 3001);
    match client.handshake_request() {
        Message::HandshakeRequest { supported_version, supported_protocols, auth_token } => {
            assert_eq!(supported_version, 2);
            assert_eq!(supported_protocols, vec![ProtocolType::Udp]);
            assert_eq!(auth_token, None);
        }
        _ => panic!("expected a handshake"),
    }
}

#[test]
fn a_handshake_is_made_and_its_reply_understood() {
    match client().handshake_request() {
        Message::HandshakeRequest { supported_version, supported_protocols, auth_token } => {
            assert_eq!(supported_version, 7);
            assert_eq!(supported_protocols, vec![ProtocolType::Http, ProtocolType::Tcp]);
            assert_eq!(auth_token, Some("token".to_string()));
        }
        _ => panic!("expected a handshake"),
    }
    let reply = Message::HandshakeResponse {
        accepted_version: 7,
        accepted_protocols: vec![],
        subdomain: "todo".to_string(),
    };
    match read_handshake(reply) {
        HandshakeStep::Registered(subdomain) => assert_eq!(subdomain, "todo"),
        HandshakeStep::RetryAfter(_) => panic!("expected a subdomain"),
    }
    assert!(matches!(read_handshake(Message::Pong(1)), HandshakeStep::RetryAfter(1000)));
}

#[test]
fn messages_that_are_handled_are_known() {
    assert!(is_handled(&Message::stream_open_as(1, ProtocolType::Tcp)));
    assert!(is_handled(&Message::stream_close(1)));
    assert!(is_handled(&Message::http_chunk(1, vec![], false)));
    assert!(is_handled(&Message::Error(Error::Stream(1))));
    assert!(!is_handled(&Message::Error(Error::Connection(String::new()))));
    assert!(!is_handled(&Message::Error(Error::Protocol(String::new()))));
    assert!(!is_handled(&Message::Error(Error::Handshake(String::new()))));
    assert!(!is_handled(&Message::Data(Data::Tcp { stream_id: 1, data: vec![] })));
    assert!(!is_handled(&Message::Data(Data::Udp { addr: String::new(), port: 1, data: vec![] })));
    assert!(!is_handled(&Message::Ping(1)));
    assert!(!is_handled(&Message::Pong(1)));
    assert!(!is_handled(&client().handshake_request()));
    assert_eq!(CHANNEL_BUF_SIZE, 8192);
}

#[test]
fn an_open_stream_gets_its_parts_and_a_closed_one_does_not() {
    let mut client = client();
    assert!(matches!(
        client.handle_message(Message::stream_open_as(5, ProtocolType::Http), 100),
        Action::HandleStream { stream_id: 5, replaced: None }
    ));
    assert!(matches!(
        client.handle_message(Message::stream_open_as(6, ProtocolType::Http), 101),
        Action::HandleStream { stream_id: 6, replaced: None }
    ));
    match client.handle_message(Message::http_chunk(5, b"x".to_vec(), true), 102) {
        Action::Forward {
            channel: 100,
            message: Message::Data(Data::Http(HttpData::BodyChunk { stream_id, data, is_end })),
        } => assert_eq!((stream_id, data, is_end), (5, b"x".to_vec(), true)),
        _ => panic!("expected the part to be forwarded"),
    }
    assert!(matches!(
        client.handle_message(Message::stream_open_as(5, ProtocolType::Http), 103),
        Action::HandleStream { stream_id: 5, replaced: Some(100) }
    ));
    assert!(matches!(
        client.handle_message(Message::stream_close(6), 104),
        Action::CloseStream { channel: 101, wait_millis: 100 }
    ));
    assert!(matches!(
        client.handle_message(Message::http_chunk(6, vec![], false), 105),
        Action::Ignore
    ));
    assert!(matches!(
        client.handle_message(Message::http_chunk(5, vec![], false), 105),
        Action::Forward { channel: 103, .. }
    ));
    assert!(matches!(
        client.handle_message(Message::Error(Error::Stream(5)), 106),
        Action::DropStream { channel: 103 }
    ));
    assert!(matches!(client.handle_message(Message::Error(Error::Stream(5)), 107), Action::Ignore));
    assert!(matches!(client.handle_message(Message::stream_close(5), 107), Action::Ignore));
}

#[test]
fn a_request_makes_the_client_fetch_a_file() {
    let mut client = client();
    let asked = request("GET", "/a.mp4", 1, &[("Accept", "*/*")]);
    match client.handle_message(Message::Data(Data::Http(HttpData::Request(asked))), 1) {
        Action::Fetch { url, force_stream } => {
            assert_eq!(url, "/a.mp4");
            assert!(force_stream);
        }
        _ => panic!("expected a fetch"),
    }
    let asked = request("GET", "/a.txt", 1, &[("Accept", "*/*")]);
    assert!(matches!(
        client.handle_message(Message::Data(Data::Http(HttpData::Request(asked))), 1),
        Action::Fetch { force_stream: false, .. }
    ));
    assert!(matches!(
        client.handle_message(whole_answer(200, fields(&[]), vec![]), 1),
        Action::Ignore
    ));
    assert_eq!(file_url(3001, "/a.mp4"), "http://localhost:3001/a.mp4");
}

#[test]
fn long_and_chunked_answers_are_streamed() {
    let streamed = |force, fields: &[(&str, &str)]| should_stream_answer(force, &pairs(fields));
    assert!(streamed(true, &[]));
    assert!(!streamed(false, &[]));
    assert!(streamed(false, &[("transfer-encoding", "chunked")]));
    assert!(!streamed(false, &[("transfer-encoding", "gzip, chunked")]));
    assert!(streamed(false, &[("content-length", "1048577")]));
    assert!(!streamed(false, &[("content-length", "1048576")]));
    assert!(!streamed(false, &[("content-length", "many")]));
    assert!(streamed(false, &[("transfer-encoding", "chunked"), ("content-length", "1")]));
    assert!(!streamed(
        false,
        &[("transfer-encoding", "gzip"), ("transfer-encoding", "chunked")]
    ));
}

#[test]
fn answers_are_planned() {
    match plan_answer(false, 200, pairs(&[("content-length", "3"), ("a", "1"), ("a", "2")])) {
        AnswerPlan::Whole { status, headers } => {
            assert_eq!(status, 200);
            assert_eq!(headers.get("a"), Some("2"));
        }
        AnswerPlan::Streamed(_) => panic!("expected one piece"),
    }
    match plan_answer(true, 206, pairs(&[("a", "1")])) {
        AnswerPlan::Streamed(begun) => {
            assert!(matches!(
                begun.first,
                Message::StreamOpen { stream_id, protocol: ProtocolType::Http }
                    if stream_id == begun.stream_id
            ));
            match begun.second {
                Message::Data(Data::Http(HttpData::Response { status, headers, body })) => {
                    assert_eq!(status, 206);
                    assert_eq!(headers.get("a"), Some("1"));
                    assert!(body.is_empty());
                }
                _ => panic!("expected the head of a response"),
            }
        }
        AnswerPlan::Whole { .. } => panic!("expected a stream"),
    }
}

#[test]
fn a_stream_is_answered_with_the_head_first() {
    let begun = begin_answer(200, fields(&[]));
    assert!(matches!(begun.first, Message::StreamOpen { .. }));
    assert!(matches!(begun.second, Message::Data(_)));
    let begun = begin_stream_answer(200, fields(&[]));
    assert!(matches!(begun.first, Message::Data(Data::Http(HttpData::Response { .. }))));
    assert!(matches!(
        begun.second,
        Message::StreamOpen { stream_id, .. } if stream_id == begun.stream_id
    ));
}

#[test]
fn parts_are_relayed_and_the_stream_is_ended_whatever_happens() {
    match relay_step(4, RelayEvent::Part(b"ab".to_vec())) {
        RelayStep::Send(Message::Data(Data::Http(HttpData::BodyChunk {
            stream_id,
            data,
            is_end,
        }))) => assert_eq!((stream_id, data, is_end), (4, b"ab".to_vec(), false)),
        _ => panic!("expected a part"),
    }
    for event in [RelayEvent::Ended, RelayEvent::ReadFailed, RelayEvent::SendFailed] {
        match relay_step(4, event) {
            RelayStep::Finish {
                end:
                    Message::Data(Data::Http(HttpData::BodyChunk { stream_id: 4, data, is_end: true })),
                close: Message::StreamClose { stream_id: 4 },
            } => assert!(data.is_empty()),
            _ => panic!("expected the end"),
        }
    }
}

#[test]
fn a_stream_begins_with_a_request() {
    assert!(matches!(Client::handle_stream(None), Ok(None)));
    let asked = Message::Data(Data::Http(HttpData::Request(request("GET", "/u", 1, &[]))));
    match Client::handle_stream(Some(asked)) {
        Ok(Some(request)) => assert_eq!(request.url, "/u"),
        _ => panic!("expected a request"),
    }
    assert!(matches!(
        Client::handle_stream(Some(Message::http_chunk(1, vec![], true))),
        Err(StreamError::NotARequest)
    ));
    assert_eq!(Client::body_part(Message::http_chunk(1, b"q".to_vec(), true)), Some(b"q".to_vec()));
    assert_eq!(Client::body_part(Message::Ping(1)), None);
    assert!(matches!(
        Client::finish_stream(8, true),
        Some(Message::Error(Error::Stream(8)))
    ));
    assert!(Client::finish_stream(8, false).is_none());
}
