//! How telemetry is exported.
use crate::text::chars_of;
use crate::text::find;
use crate::text::find_char;
use crate::text::joined;
use crate::text::part_of;
use crate::text::split_chars;
use crate::text::split_on;
use crate::text::text_of;
use crate::text::trim_chars;
use crate::text::trimmed;
use reqwest::header::HeaderName;
use reqwest::header::HeaderValue;
use vstd::prelude::*;

verus! {

/// The name that the program reports unless told otherwise.
pub const DEFAULT_SERVICE_NAME: &'static str = "nerve";

// ── Protocol ────────────────────────────────────────────────────────────

/// A transport protocol.
#[derive(Debug, Clone, Copy, PartialEq, Eq, Structural)]
pub enum OtlpProtocol {
    Grpc,
    HttpJson,
    HttpProtobuf,
}

/// What a configured protocol amounts to.
#[derive(Debug, Clone, Copy, PartialEq, Eq, Structural)]
pub enum ProtocolChoice {
    /// Export with this protocol.
    Use(OtlpProtocol),
    /// Do not export, and warn: there is no such protocol.
    Unrecognized,
}

/// What a configured protocol amounts to. Where none is configured, it is gRPC.
pub fn otlp_protocol(raw: &str) -> (r: ProtocolChoice)
    ensures
        r == (if raw@ == "http/json"@ {
            ProtocolChoice::Use(OtlpProtocol::HttpJson)
        } else if raw@ == "http/protobuf"@ {
            ProtocolChoice::Use(OtlpProtocol::HttpProtobuf)
        } else if raw@ == "grpc"@ || raw@.len() == 0 {
            ProtocolChoice::Use(OtlpProtocol::Grpc)
        } else {
            ProtocolChoice::Unrecognized
        }),
{
    let value = raw.to_owned();
    if value == "http/json".to_owned() {
        ProtocolChoice::Use(OtlpProtocol::HttpJson)
    } else if value == "http/protobuf".to_owned() {
        ProtocolChoice::Use(OtlpProtocol::HttpProtobuf)
    } else if value == "grpc".to_owned() || raw.is_empty() {
        ProtocolChoice::Use(OtlpProtocol::Grpc)
    } else {
        ProtocolChoice::Unrecognized
    }
}

/// What is exported.
#[derive(Debug, Clone, Copy, PartialEq, Eq, Structural)]
pub enum Signal {
    Traces,
    Logs,
}

/// Where a signal is sent: over HTTP each has its own path below the address.
pub open spec fn endpoint_text(
    protocol: OtlpProtocol,
    signal: Signal,
    endpoint: Seq<char>,
) -> Seq<char> {
    match (protocol, signal) {
        (OtlpProtocol::Grpc, _) => endpoint,
        (_, Signal::Traces) => endpoint + "/v1/traces"@,
        (_, Signal::Logs) => endpoint + "/v1/logs"@,
    }
}

/// Where a signal is sent, given the configured address.
pub fn exporter_endpoint(protocol: OtlpProtocol, signal: Signal, endpoint: &str) -> (r: String)
    ensures
        r@ == endpoint_text(protocol, signal, endpoint@),
{
    match (protocol, signal) {
        (OtlpProtocol::Grpc, _) => endpoint.to_owned(),
        (_, Signal::Traces) => joined(endpoint, "/v1/traces"),
        (_, Signal::Logs) => joined(endpoint, "/v1/logs"),
    }
}

/// The name that the program reports.
pub fn service_name(configured: &Option<String>) -> (r: String)
    ensures
        r@ == (match *configured {
            Some(name) => name@,
            None => DEFAULT_SERVICE_NAME@,
        }),
{
    match configured {
        Some(name) => name.clone(),
        None => DEFAULT_SERVICE_NAME.to_owned(),
    }
}

// ── Headers ─────────────────────────────────────────────────────────────

/// A header to send along.
#[derive(Debug)]
pub struct OtlpHeader {
    pub name: String,
    pub value: String,
}

/// The name and the value in `name=value`, trimmed. Without `=`, or without a
/// name, there is no header.
pub open spec fn header_in(piece: Seq<char>) -> Option<(Seq<char>, Seq<char>)> {
    let at = find(piece, '=');
    if at == piece.len() || trimmed(piece.take(at)).len() == 0 {
        None
    } else {
        Some((trimmed(piece.take(at)), trimmed(piece.skip(at + 1))))
    }
}

/// The headers in a number of pieces.
pub open spec fn headers_in(pieces: Seq<Seq<char>>) -> Seq<(Seq<char>, Seq<char>)>
    decreases pieces.len(),
{
    if pieces.len() == 0 {
        Seq::empty()
    } else {
        let before = headers_in(pieces.drop_last());
        match header_in(pieces.last()) {
            Some(header) => before.push(header),
            None => before,
        }
    }
}

/// The texts of headers.
pub open spec fn header_texts(headers: Seq<OtlpHeader>) -> Seq<(Seq<char>, Seq<char>)> {
    headers.map_values(|h: OtlpHeader| (h.name@, h.value@))
}

/// The value of each name, which is the last one that it is given.
pub open spec fn header_map(headers: Seq<(Seq<char>, Seq<char>)>) -> Map<Seq<char>, Seq<char>>
    decreases headers.len(),
{
    if headers.len() == 0 {
        Map::empty()
    } else {
        header_map(headers.drop_last()).insert(headers.last().0, headers.last().1)
    }
}

/// Whether no name occurs twice.
pub open spec fn names_differ(headers: Seq<(Seq<char>, Seq<char>)>) -> bool {
    forall|i: int, j: int|
        0 <= i < j < headers.len() ==> (#[trigger] headers[i]).0 != (#[trigger] headers[j]).0
}

proof fn lemma_replaced(
    headers: Seq<(Seq<char>, Seq<char>)>,
    i: int,
    name: Seq<char>,
    value: Seq<char>,
)
    requires
        names_differ(headers),
        0 <= i < headers.len(),
        headers[i].0 == name,
    ensures
        names_differ(headers.update(i, (name, value))),
        header_map(headers.update(i, (name, value))) == header_map(headers).insert(name, value),
    decreases headers.len(),
{
    let new = headers.update(i, (name, value));
    assert forall|a: int, b: int| 0 <= a < b < new.len() implies (#[trigger] new[a]).0
        != (#[trigger] new[b]).0 by {
        assert(headers[a].0 != headers[b].0);
    }
    let front = headers.drop_last();
    if i == headers.len() - 1 {
        assert(new.drop_last() =~= front);
        assert(header_map(new) =~= header_map(headers).insert(name, value));
    } else {
        lemma_replaced(front, i, name, value);
        assert(new.drop_last() =~= front.update(i, (name, value)));
        assert(headers[i].0 != headers[headers.len() - 1].0);
        assert(header_map(new) =~= header_map(headers).insert(name, value));
    }
}

/// Gives a name its value, in place of one that it had before.
fn set_header(headers: &mut Vec<OtlpHeader>, name: String, value: String)
    requires
        names_differ(header_texts(old(headers)@)),
    ensures
        names_differ(header_texts(final(headers)@)),
        header_map(header_texts(final(headers)@)) == header_map(
            header_texts(old(headers)@),
        ).insert(name@, value@),
{
    let ghost before = header_texts(headers@);
    let mut i: usize = 0;
    while i < headers.len()
        invariant
            i <= headers@.len(),
            *headers == *old(headers),
            before == header_texts(headers@),
            names_differ(before),
            forall|k: int| 0 <= k < i ==> (#[trigger] before[k]).0 != name@,
        decreases headers@.len() - i,
    {
        assert(before[i as int] == (headers@[i as int].name@, headers@[i as int].value@));
        if headers[i].name == name {
            proof {
                lemma_replaced(before, i as int, name@, value@);
            }
            let ghost pair = (name@, value@);
            headers.set(i, OtlpHeader { name, value });
            assert(header_texts(headers@) =~= before.update(i as int, pair));
            return ;
        }
        i = i + 1;
    }
    let ghost pair = (name@, value@);
    headers.push(OtlpHeader { name, value });
    proof {
        let after = header_texts(headers@);
        assert(after =~= before.push(pair));
        assert(after.drop_last() =~= before);
    }
}

/// The headers in a list of `name=value`, separated by commas, each name once.
/// Where a name occurs again in the list, the later value counts.
pub fn otlp_headers(raw: &str) -> (r: Vec<OtlpHeader>)
    ensures
        names_differ(header_texts(r@)),
        header_map(header_texts(r@)) == header_map(headers_in(split_on(raw@, ','))),
{
    let pieces = split_chars(&chars_of(raw), ',');
    let ghost texts = pieces.deep_view();
    let mut out: Vec<OtlpHeader> = Vec::new();
    let mut i: usize = 0;
    assert(header_texts(out@) =~= headers_in(texts.take(0)));
    while i < pieces.len()
        invariant
            i <= pieces@.len(),
            texts == pieces.deep_view(),
            names_differ(header_texts(out@)),
            header_map(header_texts(out@)) == header_map(headers_in(texts.take(i as int))),
        decreases pieces@.len() - i,
    {
        let piece = &pieces[i];
        let ghost before = headers_in(texts.take(i as int));
        assert(texts[i as int] =~= piece@);
        assert(texts.take(i + 1).drop_last() =~= texts.take(i as int));
        let at: usize = find_char(piece, '=');
        if at < piece.len() {
            let name = trim_chars(&part_of(piece, 0, at));
            let value = trim_chars(&part_of(piece, at + 1, piece.len()));
            assert(piece@.subrange(0, at as int) =~= piece@.take(at as int));
            assert(piece@.subrange(at + 1, piece@.len() as int) =~= piece@.skip(at + 1));
            if name.len() > 0 {
                set_header(&mut out, text_of(&name), text_of(&value));
                assert(before.push((name@, value@)).drop_last() =~= before);
            }
        }
        i = i + 1;
    }
    assert(texts.take(texts.len() as int) =~= texts);
    out
}

/// The characters of header names.
pub open spec fn is_token_char(c: char) -> bool {
    ||| 'a' <= c <= 'z'
    ||| 'A' <= c <= 'Z'
    ||| '0' <= c <= '9'
    ||| c == '!' || c == '#' || c == '$' || c == '%' || c == '&' || c == '\'' || c == '*'
    ||| c == '+' || c == '-' || c == '.' || c == '^' || c == '_' || c == '`' || c == '|'
    ||| c == '~'
}

/// Whether a text can be a header name.
pub open spec fn is_header_name(s: Seq<char>) -> bool {
    0 < s.len() <= 65535 && forall|i: int| 0 <= i < s.len() ==> is_token_char(#[trigger] s[i])
}

/// Whether a text can be a header value: it holds no control character but the
/// tabulator.
pub open spec fn is_header_value(s: Seq<char>) -> bool {
    forall|i: int|
        0 <= i < s.len() ==> ((#[trigger] s[i]) >= ' ' && s[i] != '\u{7f}') || s[i] == '\t'
}

/// `reqwest::header::HeaderName::from_bytes`: whether the text is accepted,
/// which is the case for 1 to 65535 token characters.
#[verifier::external_body]
fn accepts_name(s: &str) -> (r: bool)
    ensures
        r == is_header_name(s@),
{
    HeaderName::from_bytes(s.as_bytes()).is_ok()
}

/// `reqwest::header::HeaderValue::from_str`: whether the text is accepted, which
/// is the case for a text without control characters but the tabulator.
#[verifier::external_body]
fn accepts_value(s: &str) -> (r: bool)
    ensures
        r == is_header_value(s@),
{
    HeaderValue::from_str(s).is_ok()
}

/// The headers that can be sent as metadata, in order.
pub open spec fn sendable(headers: Seq<(Seq<char>, Seq<char>)>) -> Seq<(Seq<char>, Seq<char>)>
    decreases headers.len(),
{
    if headers.len() == 0 {
        Seq::empty()
    } else {
        let before = sendable(headers.drop_last());
        if is_header_name(headers.last().0) && is_header_value(headers.last().1) {
            before.push(headers.last())
        } else {
            before
        }
    }
}

proof fn lemma_sendable(headers: Seq<(Seq<char>, Seq<char>)>)
    requires
        names_differ(headers),
    ensures
        names_differ(sendable(headers)),
        forall|i: int|
            0 <= i < sendable(headers).len() ==> headers.contains(#[trigger] sendable(headers)[i]),
    decreases headers.len(),
{
    if headers.len() > 0 {
        let front = headers.drop_last();
        let last = headers.len() - 1;
        assert forall|i: int, j: int| 0 <= i < j < front.len() implies (#[trigger] front[i]).0
            != (#[trigger] front[j]).0 by {
            assert(headers[i].0 != headers[j].0);
        }
        lemma_sendable(front);
        assert forall|i: int| 0 <= i < sendable(front).len() implies headers.contains(
            #[trigger] sendable(front)[i],
        ) && sendable(front)[i].0 != headers.last().0 by {
            let k = choose|k: int| 0 <= k < front.len() && front[k] == sendable(front)[i];
            assert(front.contains(sendable(front)[i]));
            assert(headers[k] == front[k]);
            assert(headers[k].0 != headers[last].0);
        }
        assert(headers[last] == headers.last());
    }
}

/// The headers that can be sent as metadata; others are left out.
pub fn metadata_headers(headers: &Vec<OtlpHeader>) -> (r: Vec<OtlpHeader>)
    requires
        names_differ(header_texts(headers@)),
    ensures
        names_differ(header_texts(r@)),
        header_texts(r@) == sendable(header_texts(headers@)),
{
    proof {
        lemma_sendable(header_texts(headers@));
    }
    let ghost texts = header_texts(headers@);
    let mut out: Vec<OtlpHeader> = Vec::new();
    let mut i: usize = 0;
    assert(header_texts(out@) =~= sendable(texts.take(0)));
    while i < headers.len()
        invariant
            i <= headers@.len(),
            texts == header_texts(headers@),
            header_texts(out@) == sendable(texts.take(i as int)),
        decreases headers@.len() - i,
    {
        let header = &headers[i];
        let ghost before = out@;
        assert(texts.take(i + 1).drop_last() =~= texts.take(i as int));
        assert(texts.take(i + 1).last() == (header.name@, header.value@));
        if accepts_name(header.name.as_str()) && accepts_value(header.value.as_str()) {
            out.push(OtlpHeader { name: header.name.clone(), value: header.value.clone() });
            assert(header_texts(out@) =~= header_texts(before).push((header.name@, header.value@)));
        }
        i = i + 1;
    }
    assert(texts.take(texts.len() as int) =~= texts);
    out
}

} // verus!
