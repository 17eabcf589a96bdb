//! Requests as they are looked at and passed on.

use reqwest::header::{HeaderMap, HeaderName, HeaderValue};
use reqwest::Client as HttpClient;
use vstd::prelude::*;
use vstd::string::*;
use vstd::utf8::*;

use crate::headers::{law_lookup_after_put, lookup, put, Fields, Headers};
use crate::number::{
    digit_char, digit_value, digits_value, parse_number, read_number, unsigned_part,
};
use crate::protocol::HttpRequest;
use crate::text::{
    ascii_lower, chars_of, contains, contains_text, ends_with, law_contained_text, lower_case,
    same_text,
};

verus! {

/// What a text stands for in which `%` and two hexadecimal digits stand for a character.
///
/// A `%` that is not followed by such digits stands for itself, and the two characters behind it
/// are left out.
pub open spec fn url_decoded(s: Seq<char>) -> Seq<char>
    decreases s.len(),
{
    if s.len() == 0 {
        seq![]
    } else if s[0] != '%' {
        seq![s[0]] + url_decoded(s.drop_first())
    } else if s.len() < 3 {
        seq!['%']
    } else {
        seq![escaped_char(s.subrange(1, 3))] + url_decoded(s.skip(3))
    }
}

/// The character that two characters behind a `%` stand for.
pub open spec fn escaped_char(pair: Seq<char>) -> char {
    match parse_number(pair, 16, 255) {
        Some(value) => value as char,
        None => '%',
    }
}

/// Puts characters in place of what stands for them in a URL.
pub fn decode_url(input: &str) -> (output: String)
    ensures
        output@ == url_decoded(input@),
{
    let chars = chars_of(input);
    let mut output = String::new();
    let mut i: usize = 0;
    assert(chars@.skip(0) == chars@);
    while i < chars.len()
        invariant
            chars@ == input@,
            i <= chars@.len(),
            output@ + url_decoded(chars@.skip(i as int)) == url_decoded(chars@),
        decreases chars@.len() - i,
    {
        let ghost rest = chars@.skip(i as int);
        let ghost before = output@;
        let c = chars[i];
        if c != '%' {
            output.push(c);
            assert(rest.drop_first() == chars@.skip(i + 1));
            assert(before + (seq![c] + url_decoded(rest.drop_first())) == output@ + url_decoded(
                rest.drop_first(),
            ));
            i += 1;
        } else if chars.len() - i < 3 {
            output.push('%');
            assert(chars@.skip(chars@.len() as int) == Seq::<char>::empty());
            assert(before + seq!['%'] == output@ + Seq::<char>::empty());
            i = chars.len();
        } else {
            let pair = vstd::slice::slice_subrange(chars.as_slice(), i + 1, i + 3);
            assert(pair@ == rest.subrange(1, 3));
            let decoded = match read_number(pair, 16, 255) {
                Some(value) => value as u8 as char,
                None => '%',
            };
            output.push(decoded);
            assert(rest.skip(3) == chars@.skip(i + 3));
            assert(before + (seq![decoded] + url_decoded(rest.skip(3))) == output@ + url_decoded(
                rest.skip(3),
            ));
            i += 3;
        }
    }
    assert(chars@.skip(i as int) == Seq::<char>::empty());
    assert(output@ + Seq::<char>::empty() == output@);
    output
}

/// A text without `%` stands for itself.
pub proof fn law_plain_text_is_kept(s: Seq<char>)
    requires
        !s.contains('%'),
    ensures
        url_decoded(s) == s,
    decreases s.len(),
{
    if s.len() > 0 {
        assert(s[0] != '%');
        assert forall|i: int| 0 <= i < s.drop_first().len() implies s.drop_first()[i] != '%' by {
            assert(s.drop_first()[i] == s[i + 1]);
        }
        law_plain_text_is_kept(s.drop_first());
        assert(seq![s[0]] + s.drop_first() == s);
    }
}

/// A character below 256 as `%` and two hexadecimal digits.
pub open spec fn escape(c: char) -> Seq<char> {
    seq!['%', digit_char(c as nat / 16), digit_char(c as nat % 16)]
}

/// A text with every character as `%` and two hexadecimal digits.
pub open spec fn escape_all(s: Seq<char>) -> Seq<char>
    decreases s.len(),
{
    if s.len() == 0 {
        seq![]
    } else {
        escape(s[0]) + escape_all(s.drop_first())
    }
}

/// Two hexadecimal digits are read back as the character that they were written for.
proof fn lemma_escape(c: char)
    requires
        (c as nat) < 256,
    ensures
        escaped_char(escape(c).subrange(1, 3)) == c,
{
    let high = c as nat / 16;
    let low = c as nat % 16;
    let pair = escape(c).subrange(1, 3);
    assert(pair == seq![digit_char(high), digit_char(low)]);
    assert(unsigned_part(pair) == pair);
    assert(pair.drop_last() == seq![digit_char(high)]);
    assert(pair.drop_last().drop_last() == Seq::<char>::empty());
    assert(digits_value(pair.drop_last().drop_last(), 16) == Some(0nat));
    assert(digits_value(pair.drop_last(), 16) == Some(high));
    assert(digits_value(pair, 16) == Some(high * 16 + low));
}

/// What is escaped character by character is decoded to what it was, for characters below 256.
pub proof fn law_escape_round_trip(s: Seq<char>)
    requires
        forall|i: int| 0 <= i < s.len() ==> (#[trigger] s[i] as nat) < 256,
    ensures
        url_decoded(escape_all(s)) == s,
    decreases s.len(),
{
    if s.len() > 0 {
        let rest = s.drop_first();
        law_escape_round_trip(rest);
        lemma_escape(s[0]);
        let all = escape_all(s);
        assert(all.subrange(1, 3) == escape(s[0]).subrange(1, 3));
        assert(all.skip(3) == escape_all(rest));
        assert(seq![s[0]] + rest == s);
    }
}

/// Decoding makes no text longer.
pub proof fn law_decoding_never_grows(s: Seq<char>)
    ensures
        url_decoded(s).len() <= s.len(),
    decreases s.len(),
{
    if s.len() > 0 {
        if s[0] != '%' {
            law_decoding_never_grows(s.drop_first());
        } else if s.len() >= 3 {
            law_decoding_never_grows(s.skip(3));
        }
    }
}

/// Whether a request asks for a video.
pub open spec fn asks_for_video(fields: Fields, url: Seq<char>) -> bool {
    ||| match lookup(fields, "Accept"@) {
        Some(accept) => {
            ||| contains_text(accept, "video/"@)
            ||| ".mp4"@.is_suffix_of(url)
            ||| ".webm"@.is_suffix_of(url)
            ||| ".mov"@.is_suffix_of(url)
        },
        None => false,
    }
    ||| lookup(fields, "Sec-Fetch-Dest"@) == Some("video"@)
}

/// Whether a request asks for a video.
pub fn is_video_request(headers: &Headers, url: &str) -> (video: bool)
    ensures
        video == asks_for_video(headers@, url@),
{
    let accepted = match headers.get("Accept") {
        Some(accept) => contains(accept, "video/") || ends_with(url, ".mp4") || ends_with(
            url,
            ".webm",
        ) || ends_with(url, ".mov"),
        None => false,
    };
    if accepted {
        return true;
    }
    match headers.get("Sec-Fetch-Dest") {
        Some(dest) => same_text(dest, "video"),
        None => false,
    }
}

/// `reqwest::Client`, which sends requests.
#[verifier::external_type_specification]
#[verifier::external_body]
pub struct ExHttpClient(HttpClient);

/// `reqwest::Request`, a request that can be sent.
#[verifier::external_type_specification]
#[verifier::external_body]
pub struct ExRequest(reqwest::Request);

/// `reqwest::header::HeaderValue`, the value of a header field.
#[verifier::external_type_specification]
#[verifier::external_body]
pub struct ExHeaderValue(reqwest::header::HeaderValue);

/// `reqwest::header::HeaderMap`, the header fields of a request that can be sent.
#[verifier::external_type_specification]
#[verifier::external_body]
#[verifier::reject_recursive_types(T)]
pub struct ExHeaderMap<T>(reqwest::header::HeaderMap<T>);

/// The fields of a `HeaderMap`: the bytes of each value under its name.
pub uninterp spec fn map_fields(map: HeaderMap<HeaderValue>) -> Map<Seq<char>, Seq<u8>>;

/// How many fields a `HeaderMap` takes whatever they are called: with more, it may find no room.
pub const MAX_FIELDS: usize = 6553;

/// Whether `c` may stand in the name of a method or a header field.
pub open spec fn is_token_char(c: char) -> bool {
    ||| 'a' <= c <= 'z'
    ||| 'A' <= c <= 'Z'
    ||| '0' <= c <= '9'
    ||| c == '!'
    ||| '#' <= c <= '\''
    ||| c == '*'
    ||| c == '+'
    ||| c == '-'
    ||| c == '.'
    ||| '^' <= c <= '`'
    ||| c == '|'
    ||| c == '~'
}

/// Whether `s` is the name of a method.
pub open spec fn is_token(s: Seq<char>) -> bool {
    s.len() > 0 && forall|i: int| 0 <= i < s.len() ==> is_token_char(#[trigger] s[i])
}

/// Whether `s` is the name of a header field.
pub open spec fn is_field_name(s: Seq<char>) -> bool {
    is_token(s) && s.len() <= 65535
}

/// Whether the bytes are the value of a header field.
pub open spec fn is_field_value(bytes: Seq<u8>) -> bool {
    forall|i: int| 0 <= i < bytes.len() ==> (#[trigger] bytes[i] >= 32 && bytes[i] != 127
        || bytes[i] == 9)
}

/// `reqwest::Method::from_bytes`: a text that is the name of a method, as it is.
#[verifier::external_body]
fn parse_method(method: &str) -> (parsed: Option<String>)
    ensures
        match parsed {
            Some(text) => is_token(method@) && text@ == method@,
            None => !is_token(method@),
        },
{
    reqwest::Method::from_bytes(method.as_bytes()).ok().map(|m| m.as_str().to_owned())
}

/// `HeaderName::from_bytes`: a text that is the name of a header field, in lower case.
#[verifier::external_body]
fn parse_field_name(name: &str) -> (parsed: Option<String>)
    ensures
        match parsed {
            Some(text) => is_field_name(name@) && text@ == lower_case(name@),
            None => !is_field_name(name@),
        },
{
    HeaderName::from_bytes(name.as_bytes()).ok().map(|n| n.as_str().to_owned())
}

/// `HeaderValue::from_bytes`: bytes that are the value of a header field, as they are.
#[verifier::external_body]
fn parse_field_value(value: &[u8]) -> (parsed: Option<Vec<u8>>)
    ensures
        match parsed {
            Some(bytes) => is_field_value(value@) && bytes@ == value@,
            None => !is_field_value(value@),
        },
{
    HeaderValue::from_bytes(value).ok().map(|v| v.as_bytes().to_vec())
}

/// `HeaderMap::new`: no fields.
#[verifier::external_body]
fn empty_map() -> (made: HeaderMap<HeaderValue>)
    ensures
        map_fields(made).is_empty(),
{
    HeaderMap::new()
}

/// `HeaderMap::insert`: the value stands under the name, in place of what stood there.
#[verifier::external_body]
fn insert_field(map: &mut HeaderMap<HeaderValue>, name: &str, value: &[u8])
    requires
        is_field_name(name@),
        lower_case(name@) == name@,
        is_field_value(value@),
        map_fields(*old(map)).dom().finite(),
        map_fields(*old(map)).len() <= MAX_FIELDS,
    ensures
        map_fields(*final(map)) == map_fields(*old(map)).insert(name@, value@),
{
    let name = HeaderName::from_bytes(name.as_bytes()).unwrap();
    map.insert(name, HeaderValue::from_bytes(value).unwrap());
}

/// A version of HTTP.
#[derive(Clone, Copy, Debug, PartialEq, Eq, Structural)]
pub enum HttpVersion {
    Http10,
    Http11,
    Http2,
    Http3,
}

/// A request with its parts in order, but for its URL.
pub struct OutgoingRequest {
    pub method: String,
    pub url: String,
    pub version: HttpVersion,
    pub headers: HeaderMap<HeaderValue>,
}

/// A request that can be sent, and what it says.
pub struct BuiltRequest {
    pub request: reqwest::Request,
    pub method: String,
    pub url: String,
    pub version: String,
    pub headers: HeaderMap<HeaderValue>,
    pub has_body: bool,
}

/// What a request that can be sent says.
pub struct RequestContent {
    pub method: Seq<char>,
    pub url: Seq<char>,
    pub version: Seq<char>,
    pub headers: Map<Seq<char>, Seq<u8>>,
    pub has_body: bool,
}

/// What a `reqwest::Request` says: its method, its URL and its version as they are written, its
/// fields as `map_fields` gives them, and whether it has a body.
pub uninterp spec fn request_says(request: reqwest::Request) -> RequestContent;

/// What stands beside a request that can be sent.
pub open spec fn noted(built: BuiltRequest) -> RequestContent {
    RequestContent {
        method: built.method@,
        url: built.url@,
        version: built.version@,
        headers: map_fields(built.headers),
        has_body: built.has_body,
    }
}

/// Why a request cannot be sent.
#[derive(Debug)]
pub enum RequestError {
    /// The name of a header field is none.
    FieldName,
    /// The value of a header field is none.
    FieldValue,
    /// The URL is none that a request can be sent to; the text says why.
    Url(String),
}

/// What `reqwest` makes of a URL: the URL as it writes it, without a user's name and password, and
/// the value of an `Authorization` field that it makes of these; or the text of an error.
pub uninterp spec fn parsed_url(url: Seq<char>) -> Result<
    (Seq<char>, Option<Seq<u8>>),
    Seq<char>,
>;

/// The fields of a request whose URL gives an authorization: that stands under its name where no
/// other does.
pub open spec fn authorized(
    fields: Map<Seq<char>, Seq<u8>>,
    authorization: Option<Seq<u8>>,
) -> Map<Seq<char>, Seq<u8>> {
    match authorization {
        Some(value) => if fields.contains_key("authorization"@) {
            fields
        } else {
            fields.insert("authorization"@, value)
        },
        None => fields,
    }
}

/// How a version of HTTP is written.
pub open spec fn version_text(version: HttpVersion) -> Seq<char> {
    match version {
        HttpVersion::Http10 => "HTTP/1.0"@,
        HttpVersion::Http11 => "HTTP/1.1"@,
        HttpVersion::Http2 => "HTTP/2.0"@,
        HttpVersion::Http3 => "HTTP/3.0"@,
    }
}

/// `RequestBuilder::build`, of a `reqwest::Client`'s request: one with the given parts, where the
/// URL is one that a request can be sent to, and no body; beside it stands what it says. A user's
/// name or password in the URL becomes a field; a URL without `@` holds neither.
#[verifier::external_body]
fn build_request(client: &HttpClient, parts: OutgoingRequest) -> (built: Result<
    BuiltRequest,
    String,
>)
    requires
        is_token(parts.method@),
        map_fields(parts.headers).dom().finite(),
        map_fields(parts.headers).len() <= MAX_FIELDS,
    ensures
        match built {
            Ok(built) => {
                &&& request_says(built.request) == noted(built)
                &&& parsed_url(parts.url@) matches Ok((url, authorization))
                &&& built.url@ == url
                &&& built.method@ == parts.method@
                &&& built.version@ == version_text(parts.version)
                &&& !built.has_body
                &&& map_fields(built.headers) == authorized(
                    map_fields(parts.headers),
                    authorization,
                )
                &&& !parts.url@.contains('@') ==> map_fields(built.headers) == map_fields(
                    parts.headers,
                )
            },
            Err(text) => parsed_url(parts.url@) matches Err(t) && text@ == t,
        },
{
    let method = reqwest::Method::from_bytes(parts.method.as_bytes()).unwrap();
    let version = match parts.version {
        HttpVersion::Http10 => reqwest::Version::HTTP_10,
        HttpVersion::Http11 => reqwest::Version::HTTP_11,
        HttpVersion::Http2 => reqwest::Version::HTTP_2,
        HttpVersion::Http3 => reqwest::Version::HTTP_3,
    };
    let builder = client.request(method, parts.url).version(version).headers(parts.headers);
    builder.build().map_err(|error| error.to_string()).map(|request| BuiltRequest {
        method: request.method().to_string(), url: request.url().to_string(),
        version: format!("{:?}", request.version()), headers: request.headers().clone(),
        has_body: request.body().is_some(), request,
    })
}

/// The version that a number in the head of a request stands for.
pub open spec fn version_of(number: u8) -> HttpVersion {
    match number {
        0 => HttpVersion::Http10,
        1 => HttpVersion::Http11,
        2 => HttpVersion::Http2,
        3 => HttpVersion::Http3,
        _ => HttpVersion::Http11,
    }
}

/// The method of a request: `GET` where what it gives is no method.
pub open spec fn method_of(method: Seq<char>) -> Seq<char> {
    if is_token(method) {
        method
    } else {
        "GET"@
    }
}

/// The fields that are passed on, each under its name in lower case; the first that cannot be
/// passed on decides what is wrong.
pub open spec fn forwarded(fields: Fields) -> Result<Map<Seq<char>, Seq<u8>>, RequestError>
    decreases fields.len(),
{
    if fields.len() == 0 {
        Ok(Map::empty())
    } else {
        match forwarded(fields.drop_last()) {
            Ok(map) => {
                let (name, value) = fields.last();
                if !is_field_name(name) {
                    Err(RequestError::FieldName)
                } else if !is_field_value(encode_utf8(value)) {
                    Err(RequestError::FieldValue)
                } else {
                    Ok(map.insert(lower_case(name), encode_utf8(value)))
                }
            },
            Err(error) => Err(error),
        }
    }
}

/// The name of a header field in lower case is one too, and stays as it is.
proof fn lemma_lower_case(name: Seq<char>)
    requires
        is_field_name(name),
    ensures
        is_field_name(lower_case(name)),
        lower_case(lower_case(name)) == lower_case(name),
{
    let lower = lower_case(name);
    assert forall|i: int| 0 <= i < lower.len() implies is_token_char(#[trigger] lower[i])
        && ascii_lower(lower[i]) == lower[i] by {
        assert(is_token_char(name[i]));
    }
    assert(lower_case(lower) == lower);
}

/// What cannot be passed on at the beginning cannot be passed on at all.
proof fn lemma_forwarded_prefix(fields: Fields, k: int)
    requires
        0 <= k <= fields.len(),
        forwarded(fields.take(k)) is Err,
    ensures
        forwarded(fields) == forwarded(fields.take(k)),
    decreases fields.len(),
{
    if k == fields.len() {
        assert(fields.take(k) == fields);
    } else {
        assert(fields.drop_last().take(k) == fields.take(k));
        lemma_forwarded_prefix(fields.drop_last(), k);
    }
}

/// The version that a number in the head of a request stands for.
fn version_for(number: u8) -> (version: HttpVersion)
    ensures
        version == version_of(number),
{
    match number {
        0 => HttpVersion::Http10,
        1 => HttpVersion::Http11,
        2 => HttpVersion::Http2,
        3 => HttpVersion::Http3,
        _ => HttpVersion::Http11,
    }
}

/// Puts the parts of a request in order.
pub fn outgoing_request(request: HttpRequest) -> (outgoing: Result<OutgoingRequest, RequestError>)
    requires
        request.headers@.len() <= MAX_FIELDS,
    ensures
        match forwarded(request.headers@) {
            Ok(fields) => outgoing matches Ok(parts) && {
                &&& parts.method@ == method_of(request.method@)
                &&& parts.url@ == request.url@
                &&& parts.version == version_of(request.version)
                &&& map_fields(parts.headers) == fields
                &&& fields.dom().finite()
                &&& fields.len() <= request.headers@.len()
            },
            Err(error) => outgoing == Err::<OutgoingRequest, RequestError>(error),
        },
{
    let method = match parse_method(request.method.as_str()) {
        Some(method) => method,
        None => "GET".to_owned(),
    };
    let version = version_for(request.version);
    let mut headers = empty_map();
    assert(map_fields(headers) == Map::<Seq<char>, Seq<u8>>::empty());
    let count = request.headers.len();
    let ghost fields = request.headers@;
    for i in 0..count
        invariant
            fields == request.headers@,
            count == fields.len(),
            count <= MAX_FIELDS,
            forwarded(fields.take(i as int)) == Ok::<Map<Seq<char>, Seq<u8>>, RequestError>(
                map_fields(headers),
            ),
            map_fields(headers).dom().finite(),
            map_fields(headers).len() <= i,
    {
        let ghost now = fields.take(i + 1);
        assert(now.drop_last() == fields.take(i as int));
        let (name, value) = request.headers.field(i);
        assert(now.last() == (name@, value@));
        let Some(key) = parse_field_name(name) else {
            proof {
                lemma_forwarded_prefix(fields, i + 1);
            }
            return Err(RequestError::FieldName);
        };
        let Some(bytes) = parse_field_value(value.as_bytes()) else {
            proof {
                lemma_forwarded_prefix(fields, i + 1);
            }
            return Err(RequestError::FieldValue);
        };
        proof {
            lemma_lower_case(name@);
        }
        insert_field(&mut headers, key.as_str(), bytes.as_slice());
    }
    assert(fields.take(fields.len() as int) == fields);
    Ok(OutgoingRequest { method, url: request.url, version, headers })
}

/// Makes a request that can be sent, without a body, of one that came through the tunnel.
pub fn to_reqwest_header(client: &HttpClient, request: HttpRequest) -> (built: Result<
    BuiltRequest,
    RequestError,
>)
    requires
        request.headers@.len() <= MAX_FIELDS,
    ensures
        match forwarded(request.headers@) {
            Ok(fields) => match parsed_url(request.url@) {
                Ok((url, authorization)) => built matches Ok(b) && {
                    &&& request_says(b.request) == noted(b)
                    &&& b.method@ == method_of(request.method@)
                    &&& b.url@ == url
                    &&& b.version@ == version_text(version_of(request.version))
                    &&& !b.has_body
                    &&& map_fields(b.headers) == authorized(fields, authorization)
                    &&& !request.url@.contains('@') ==> map_fields(b.headers) == fields
                },
                Err(text) => built matches Err(RequestError::Url(t)) && t@ == text,
            },
            Err(error) => built == Err::<BuiltRequest, RequestError>(error),
        },
{
    match outgoing_request(request) {
        Ok(parts) => {
            proof {
                reveal_strlit("GET");
            }
            match build_request(client, parts) {
                Ok(built) => Ok(built),
                Err(text) => Err(RequestError::Url(text)),
            }
        },
        Err(error) => Err(error),
    }
}

/// Plain characters before anything else stand for themselves, whatever follows them.
pub proof fn law_plain_characters_are_kept(plain: Seq<char>, rest: Seq<char>)
    requires
        !plain.contains('%'),
    ensures
        url_decoded(plain + rest) == plain + url_decoded(rest),
    decreases plain.len(),
{
    if plain.len() == 0 {
        assert(plain + rest == rest);
        assert(plain + url_decoded(rest) == url_decoded(rest));
    } else {
        let tail = plain.drop_first();
        assert forall|i: int| 0 <= i < tail.len() implies tail[i] != '%' by {
            assert(tail[i] == plain[i + 1]);
        }
        assert(plain[0] != '%');
        assert((plain + rest).drop_first() == tail + rest);
        law_plain_characters_are_kept(tail, rest);
        assert(seq![plain[0]] + (tail + url_decoded(rest)) == plain + url_decoded(rest));
    }
}

/// A text in which plain characters and escapes are mixed is decoded piece by piece: the plain
/// characters stay, and `%` with two hexadecimal digits, in either case, becomes the character of
/// that number.
pub proof fn law_mixed_text_is_decoded(
    plain: Seq<char>,
    high: char,
    low: char,
    rest: Seq<char>,
    h: nat,
    l: nat,
)
    requires
        !plain.contains('%'),
        digit_value(high, 16) == Some(h),
        digit_value(low, 16) == Some(l),
    ensures
        url_decoded(plain + seq!['%', high, low] + rest) == plain + seq![(16 * h + l) as char]
            + url_decoded(rest),
{
    let code = seq!['%', high, low] + rest;
    assert(plain + seq!['%', high, low] + rest == plain + code);
    law_plain_characters_are_kept(plain, code);
    let pair = seq![high, low];
    assert(code.subrange(1, 3) == pair);
    assert(code.skip(3) == rest);
    assert(unsigned_part(pair) == pair);
    assert(pair.drop_last() == seq![high]);
    assert(pair.drop_last().drop_last() == Seq::<char>::empty());
    assert(digits_value(pair.drop_last().drop_last(), 16) == Some(0nat));
    assert(digits_value(pair.drop_last(), 16) == Some(h));
    assert(digits_value(pair, 16) == Some(h * 16 + l));
    assert(escaped_char(pair) == (16 * h + l) as char);
    assert(plain + (seq![(16 * h + l) as char] + url_decoded(rest)) == plain + seq![
        (16 * h + l) as char,
    ] + url_decoded(rest));
}

/// A character that was escaped is decoded wherever it stands: behind plain characters and before
/// any text.
pub proof fn law_escape_among_plain_text(plain: Seq<char>, c: char, rest: Seq<char>)
    requires
        !plain.contains('%'),
        (c as nat) < 256,
    ensures
        url_decoded(plain + escape(c) + rest) == plain + seq![c] + url_decoded(rest),
{
    let h = c as nat / 16;
    let l = c as nat % 16;
    law_mixed_text_is_decoded(plain, digit_char(h), digit_char(l), rest, h, l);
    assert(escape(c) == seq!['%', digit_char(h), digit_char(l)]);
    assert((16 * h + l) as char == c);
}

/// A `%` that no two hexadecimal digits follow stands for itself; of the text, the two characters
/// behind it are left out, or what is left where that is less.
pub proof fn law_broken_escape(plain: Seq<char>, pair: Seq<char>, rest: Seq<char>)
    requires
        !plain.contains('%'),
    ensures
        pair.len() < 2 ==> url_decoded(plain + seq!['%'] + pair) == plain + seq!['%'],
        pair.len() == 2 && pair[0] != '+' && (digit_value(pair[0], 16) is None || digit_value(
            pair[1],
            16,
        ) is None) ==> url_decoded(plain + seq!['%'] + pair + rest) == plain + seq!['%']
            + url_decoded(rest),
{
    if pair.len() < 2 {
        let code = seq!['%'] + pair;
        assert(plain + seq!['%'] + pair == plain + code);
        law_plain_characters_are_kept(plain, code);
    }
    if pair.len() == 2 && pair[0] != '+' && (digit_value(pair[0], 16) is None || digit_value(
        pair[1],
        16,
    ) is None) {
        let code = seq!['%'] + pair + rest;
        assert(plain + seq!['%'] + pair + rest == plain + code);
        law_plain_characters_are_kept(plain, code);
        assert(code.subrange(1, 3) == pair);
        assert(code.skip(3) == rest);
        let one = seq![pair[0]];
        assert(pair.drop_last() == one);
        assert(one.drop_last() == Seq::<char>::empty());
        assert(digits_value(one.drop_last(), 16) == Some(0nat));
        assert(one.last() == pair[0] && pair.last() == pair[1]);
        assert(digits_value(one, 16) is None || digit_value(pair[1], 16) is None);
        assert(digits_value(pair, 16) is None);
        assert(plain + (seq!['%'] + url_decoded(rest)) == plain + seq!['%'] + url_decoded(rest));
    }
}

/// A video is asked for where the fetch is for one, or where one is accepted; of whoever accepts
/// anything at all, also where the URL ends like that of a video. Else none is asked for.
pub proof fn law_video_is_asked_for(
    fields: Fields,
    front: Seq<char>,
    back: Seq<char>,
    url: Seq<char>,
)
    ensures
        asks_for_video(put(fields, "Sec-Fetch-Dest"@, "video"@), url),
        asks_for_video(put(fields, "Accept"@, front + "video/"@ + back), url),
        asks_for_video(put(fields, "Accept"@, back), front + ".mp4"@),
        asks_for_video(put(fields, "Accept"@, back), front + ".webm"@),
        asks_for_video(put(fields, "Accept"@, back), front + ".mov"@),
        lookup(fields, "Sec-Fetch-Dest"@) != Some("video"@) && lookup(fields, "Accept"@) is None
            ==> !asks_for_video(fields, url),
        asks_for_video(fields, url) && lookup(fields, "Sec-Fetch-Dest"@) != Some("video"@) && !(
        ".mp4"@.is_suffix_of(url) || ".webm"@.is_suffix_of(url) || ".mov"@.is_suffix_of(url)) ==> (
        lookup(fields, "Accept"@) matches Some(accept) && exists|a: Seq<char>, b: Seq<char>|
            accept == #[trigger] (a + "video/"@ + b)),
{
    let accept = front + "video/"@ + back;
    law_lookup_after_put(fields, "Sec-Fetch-Dest"@, "video"@, "Sec-Fetch-Dest"@);
    law_lookup_after_put(fields, "Accept"@, accept, "Accept"@);
    law_lookup_after_put(fields, "Accept"@, back, "Accept"@);
    law_contained_text(accept, "video/"@);
    let mp4 = front + ".mp4"@;
    let webm = front + ".webm"@;
    let mov = front + ".mov"@;
    assert(mp4.subrange(front.len() as int, mp4.len() as int) == ".mp4"@);
    assert(webm.subrange(front.len() as int, webm.len() as int) == ".webm"@);
    assert(mov.subrange(front.len() as int, mov.len() as int) == ".mov"@);
    if let Some(accepted) = lookup(fields, "Accept"@) {
        law_contained_text(accepted, "video/"@);
    }
}

/// The characters of names are the visible ones of ASCII, but for those that part or quote things.
pub proof fn law_token_characters(c: char)
    ensures
        is_token_char(c) <==> 33 <= c as nat <= 126 && c != '"' && c != '(' && c != ')' && c != ','
            && c != '/' && c != ':' && c != ';' && c != '<' && c != '=' && c != '>' && c != '?'
            && c != '@' && c != '[' && c != '\\' && c != ']' && c != '{' && c != '}',
{
}

/// A method that is a name of one or more such characters is passed on as it is; else the method
/// is `GET`.
pub proof fn law_method(method: Seq<char>)
    ensures
        (method.len() > 0 && forall|i: int|
            0 <= i < method.len() ==> is_token_char(#[trigger] method[i])) ==> method_of(method)
            == method,
        method.len() == 0 ==> method_of(method) == seq!['G', 'E', 'T'],
        forall|i: int|
            0 <= i < method.len() && !is_token_char(#[trigger] method[i]) ==> method_of(method)
                == seq!['G', 'E', 'T'],
{
    reveal_strlit("GET");
    assert("GET"@ == seq!['G', 'E', 'T']);
}

/// Where every field can be passed on, and no two names differ in the case of letters alone, every
/// field is passed on, each under its name in lower case with the bytes of its whole value, and
/// nothing else.
pub proof fn law_fields_are_passed_on(fields: Fields)
    requires
        forall|i: int|
            0 <= i < fields.len() ==> is_field_name((#[trigger] fields[i]).0) && is_field_value(
                encode_utf8(fields[i].1),
            ),
        forall|i: int, j: int|
            0 <= i < j < fields.len() ==> lower_case(fields[i].0) != lower_case(fields[j].0),
    ensures
        ({
            &&& forwarded(fields) matches Ok(passed)
            &&& forall|i: int|
                0 <= i < fields.len() ==> passed.contains_key(
                    lower_case((#[trigger] fields[i]).0),
                ) && passed[lower_case(fields[i].0)] == encode_utf8(fields[i].1)
            &&& forall|name: Seq<char>| #[trigger]
                passed.contains_key(name) ==> exists|i: int|
                    0 <= i < fields.len() && name == lower_case((#[trigger] fields[i]).0)
        }),
    decreases fields.len(),
{
    if fields.len() > 0 {
        let front = fields.drop_last();
        assert forall|i: int| 0 <= i < front.len() implies is_field_name((#[trigger] front[i]).0)
            && is_field_value(encode_utf8(front[i].1)) by {
            assert(front[i] == fields[i]);
        }
        assert forall|i: int, j: int| 0 <= i < j < front.len() implies lower_case(front[i].0)
            != lower_case(front[j].0) by {
            assert(front[i] == fields[i] && front[j] == fields[j]);
        }
        law_fields_are_passed_on(front);
        let last = fields.len() - 1;
        assert(is_field_name(fields[last].0));
        let before = forwarded(front)->Ok_0;
        let passed = forwarded(fields)->Ok_0;
        assert(passed == before.insert(lower_case(fields[last].0), encode_utf8(fields[last].1)));
        assert forall|i: int| 0 <= i < fields.len() implies passed.contains_key(
            lower_case((#[trigger] fields[i]).0),
        ) && passed[lower_case(fields[i].0)] == encode_utf8(fields[i].1) by {
            if i < last {
                assert(front[i] == fields[i]);
                assert(lower_case(fields[i].0) != lower_case(fields[last].0));
            }
        }
        assert forall|name: Seq<char>| #[trigger] passed.contains_key(name) implies exists|i: int|
            0 <= i < fields.len() && name == lower_case((#[trigger] fields[i]).0) by {
            if name == lower_case(fields[last].0) {
                assert(name == lower_case(fields[last].0));
            } else {
                assert(before.contains_key(name));
                let i = choose|i: int|
                    0 <= i < front.len() && name == lower_case((#[trigger] front[i]).0);
                assert(fields[i] == front[i]);
            }
        }
    }
}

/// A request is refused where one of its fields cannot be passed on, whichever it is; the first
/// such field decides why, and of that one its name before its value.
pub proof fn law_first_wrong_field_decides(fields: Fields, at: int)
    requires
        0 <= at < fields.len(),
        forall|i: int|
            0 <= i < at ==> is_field_name((#[trigger] fields[i]).0) && is_field_value(
                encode_utf8(fields[i].1),
            ),
        !is_field_name(fields[at].0) || !is_field_value(encode_utf8(fields[at].1)),
    ensures
        !is_field_name(fields[at].0) ==> forwarded(fields) == Err::<
            Map<Seq<char>, Seq<u8>>,
            RequestError,
        >(RequestError::FieldName),
        is_field_name(fields[at].0) ==> forwarded(fields) == Err::<
            Map<Seq<char>, Seq<u8>>,
            RequestError,
        >(RequestError::FieldValue),
{
    lemma_good_fields_pass(fields.take(at));
    assert(fields.take(at + 1).drop_last() == fields.take(at));
    assert(fields.take(at + 1).last() == fields[at]);
    lemma_forwarded_prefix(fields, at + 1);
}

/// Fields that can all be passed on are passed on.
proof fn lemma_good_fields_pass(fields: Fields)
    requires
        forall|i: int|
            0 <= i < fields.len() ==> is_field_name((#[trigger] fields[i]).0) && is_field_value(
                encode_utf8(fields[i].1),
            ),
    ensures
        forwarded(fields) is Ok,
    decreases fields.len(),
{
    if fields.len() > 0 {
        let front = fields.drop_last();
        assert forall|i: int| 0 <= i < front.len() implies is_field_name((#[trigger] front[i]).0)
            && is_field_value(encode_utf8(front[i].1)) by {
            assert(front[i] == fields[i]);
        }
        lemma_good_fields_pass(front);
        assert(is_field_name(fields[fields.len() - 1].0));
    }
}

/// The bytes of a field's value are those of visible text, spaces, tabs and what lies beyond
/// ASCII; its name is one to 65535 characters of names.
pub proof fn law_field_names_and_values(name: Seq<char>, value: Seq<u8>)
    ensures
        is_field_value(value) <==> !(exists|i: int|
            0 <= i < value.len() && ((#[trigger] value[i] < 32 && value[i] != 9) || value[i] == 127)),
        is_field_name(name) <==> 1 <= name.len() <= 65535 && !(exists|i: int|
            0 <= i < name.len() && !is_token_char(#[trigger] name[i])),
{
    if !(exists|i: int|
        0 <= i < value.len() && ((#[trigger] value[i] < 32 && value[i] != 9) || value[i] == 127)) {
        assert forall|i: int| 0 <= i < value.len() implies (#[trigger] value[i] >= 32 && value[i]
            != 127 || value[i] == 9) by {}
    }
}

/// What a URL gives as authorization is added where the request has none; nothing else changes.
pub proof fn law_authorization_is_added(
    fields: Map<Seq<char>, Seq<u8>>,
    authorization: Option<Seq<u8>>,
    name: Seq<char>,
)
    ensures
        name != "authorization"@ ==> authorized(fields, authorization).get(name) == fields.get(
            name,
        ),
        authorized(fields, authorization).get("authorization"@) == if fields.contains_key(
            "authorization"@,
        ) {
            fields.get("authorization"@)
        } else {
            authorization
        },
{
}

/// The digit behind `%` may have a sign in the place of another digit: it then stands for its own
/// number.
pub proof fn law_signed_escape(plain: Seq<char>, low: char, rest: Seq<char>)
    requires
        !plain.contains('%'),
    ensures
        url_decoded(plain + seq!['%', '+', low] + rest) == plain + seq![
            match digit_value(low, 16) {
                Some(l) => l as char,
                None => '%',
            },
        ] + url_decoded(rest),
{
    let code = seq!['%', '+', low] + rest;
    assert(plain + seq!['%', '+', low] + rest == plain + code);
    law_plain_characters_are_kept(plain, code);
    let pair = seq!['+', low];
    let one = seq![low];
    assert(code.subrange(1, 3) == pair);
    assert(code.skip(3) == rest);
    assert(pair.skip(1) == one);
    assert(one.drop_last() == Seq::<char>::empty());
    assert(digits_value(one.drop_last(), 16) == Some(0nat));
    assert(one.last() == low);
    let c = escaped_char(pair);
    assert(plain + (seq![c] + url_decoded(rest)) == plain + seq![c] + url_decoded(rest));
}

/// The numbers from zero to three stand for the four versions, and every other one for the version
/// that is written `HTTP/1.1`.
pub proof fn law_version(number: u8)
    ensures
        number == 0 ==> version_text(version_of(number)) == "HTTP/1.0"@,
        number == 2 ==> version_text(version_of(number)) == "HTTP/2.0"@,
        number == 3 ==> version_text(version_of(number)) == "HTTP/3.0"@,
        number == 1 || number > 3 ==> version_text(version_of(number)) == "HTTP/1.1"@,
{
}

} // verus!
