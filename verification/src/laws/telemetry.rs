//! How telemetry is exported, and settings that are on or off.
use crate::config::is_set;
use crate::laws::text::lemma_split_joins;
use crate::laws::text::lemma_split_whole;
use crate::telemetry::exporter_endpoint;
use crate::telemetry::header_in;
use crate::telemetry::header_map;
use crate::telemetry::header_texts;
use crate::telemetry::headers_in;
use crate::telemetry::is_header_name;
use crate::telemetry::is_header_value;
use crate::telemetry::metadata_headers;
use crate::telemetry::names_differ;
use crate::telemetry::otlp_headers;
use crate::telemetry::otlp_protocol;
use crate::telemetry::service_name;
use crate::telemetry::OtlpHeader;
use crate::telemetry::OtlpProtocol;
use crate::telemetry::ProtocolChoice;
use crate::telemetry::Signal;
use crate::text::find;
use crate::text::lemma_find_unique;
use crate::text::lemma_find;
use crate::text::split_on;
use crate::text::trim;
use vstd::prelude::*;

verus! {

// ── Settings ────────────────────────────────────────────────────────────

/// A setting is on if and only if it has a value and the value is not empty.
pub proof fn settings_need_a_value(value: Option<String>, r: bool)
    requires
        call_ensures(is_set, (&value,), r),
    ensures
        value is None ==> !r,
        value matches Some(text) ==> (r <==> text@.len() != 0),
{
}

proof fn lemma_protocols_differ()
    ensures
        "http/json"@ != "http/protobuf"@,
        "http/json"@ != "grpc"@,
        "http/protobuf"@ != "grpc"@,
        "http/json"@.len() != 0,
        "http/protobuf"@.len() != 0,
        "grpc"@.len() != 0,
{
    reveal_strlit("http/json");
    reveal_strlit("http/protobuf");
    reveal_strlit("grpc");
    assert("http/json"@.len() == 9 && "http/protobuf"@.len() == 13 && "grpc"@.len() == 4);
}

/// Each protocol has its name, gRPC is used where none is named, and other names
/// are none.
pub proof fn protocols_have_names(raw: &str, r: ProtocolChoice)
    requires
        call_ensures(otlp_protocol, (raw,), r),
    ensures
        r == ProtocolChoice::Use(OtlpProtocol::HttpJson) <==> raw@ == "http/json"@,
        r == ProtocolChoice::Use(OtlpProtocol::HttpProtobuf) <==> raw@ == "http/protobuf"@,
        r == ProtocolChoice::Use(OtlpProtocol::Grpc) <==> raw@ == "grpc"@ || raw@.len() == 0,
{
    lemma_protocols_differ();
}

/// Over HTTP each signal has its path below the address; over gRPC the address is
/// used as it is.
pub proof fn signals_have_paths(
    protocol: OtlpProtocol,
    endpoint: &str,
    traces: String,
    logs: String,
)
    requires
        call_ensures(exporter_endpoint, (protocol, Signal::Traces, endpoint), traces),
        call_ensures(exporter_endpoint, (protocol, Signal::Logs, endpoint), logs),
    ensures
        protocol is Grpc ==> traces@ == endpoint@ && logs@ == endpoint@,
        protocol is HttpJson || protocol is HttpProtobuf ==> traces@ == endpoint@ + "/v1/traces"@
            && logs@ == endpoint@ + "/v1/logs"@,
{
}

/// The program reports the configured name, or else its own.
pub proof fn services_have_names(name: Option<String>, r: String)
    requires
        call_ensures(service_name, (&name,), r),
    ensures
        name matches Some(text) ==> r@ == text@,
        name is None ==> r@ == "nerve"@,
{
}

// ── Headers ─────────────────────────────────────────────────────────────

/// Whether a name has a value among the headers.
pub open spec fn gives(headers: Seq<OtlpHeader>, name: Seq<char>, value: Seq<char>) -> bool {
    exists|i: int|
        0 <= i < headers.len() && (#[trigger] headers[i]).name@ == name && headers[i].value@
            == value
}

proof fn lemma_gives(headers: Seq<OtlpHeader>, name: Seq<char>, value: Seq<char>)
    requires
        names_differ(header_texts(headers)),
    ensures
        gives(headers, name, value) <==> header_map(header_texts(headers)).contains_key(name)
            && header_map(header_texts(headers))[name] == value,
    decreases headers.len(),
{
    let texts = header_texts(headers);
    assert(texts.len() == headers.len());
    if headers.len() > 0 {
        let front = headers.drop_last();
        let last = headers.len() - 1;
        let before = header_texts(front);
        assert(before =~= texts.drop_last());
        assert(texts[last] == (headers[last].name@, headers[last].value@));
        assert forall|i: int, j: int| 0 <= i < j < before.len() implies (#[trigger] before[i]).0
            != (#[trigger] before[j]).0 by {
            assert(texts[i].0 != texts[j].0);
        }
        lemma_gives(front, name, value);
        if gives(headers, name, value) {
            let i = choose|i: int|
                0 <= i < headers.len() && (#[trigger] headers[i]).name@ == name && headers[i].value@
                    == value;
            if i < last {
                assert(front[i] == headers[i]);
                assert(texts[i].0 != texts[last].0);
                assert(gives(front, name, value));
            }
        }
        if gives(front, name, value) {
            let i = choose|i: int|
                0 <= i < front.len() && (#[trigger] front[i]).name@ == name && front[i].value@
                    == value;
            assert(headers[i] == front[i]);
        }
        if headers[last].name@ == name && headers[last].value@ == value {
            assert(gives(headers, name, value));
        }
    }
}

/// Each name is there once.
pub proof fn header_names_differ(raw: &str, r: Vec<OtlpHeader>, i: int, j: int)
    requires
        call_ensures(otlp_headers, (raw,), r),
        0 <= i < j < r@.len(),
    ensures
        r@[i].name@ != r@[j].name@,
{
    let texts = header_texts(r@);
    assert(texts[i] == (r@[i].name@, r@[i].value@));
    assert(texts[j] == (r@[j].name@, r@[j].value@));
}

proof fn lemma_one_piece(piece: Seq<char>, front: Seq<char>, back: Seq<char>)
    requires
        piece == front + seq!['='] + back,
        !front.contains('='),
    ensures
        find(piece, '=') == front.len(),
        piece.take(front.len() as int) == front,
        piece.skip(front.len() as int + 1) == back,
{
    assert forall|i: int| 0 <= i < front.len() implies piece[i] != '=' by {
        assert(piece[i] == front[i]);
    }
    assert(piece[front.len() as int] == '=');
    lemma_find_unique(piece, '=', front.len() as int);
    assert(piece.take(front.len() as int) =~= front);
    assert(piece.skip(front.len() as int + 1) =~= back);
}

/// A name, an equals sign and a value give the name that value, without white
/// space around either; whatever else the list says of other names holds as
/// before, and what it said of that name no longer does. Without a name nothing
/// is given. The value may hold further equals signs.
pub proof fn later_headers_win(
    list: &str,
    more: &str,
    name: &str,
    value: &str,
    r: Vec<OtlpHeader>,
    s: Vec<OtlpHeader>,
    trimmed_name: String,
    trimmed_value: String,
    n: Seq<char>,
    v: Seq<char>,
)
    requires
        !name@.contains('='),
        !name@.contains(','),
        !value@.contains(','),
        more@ == list@.push(',') + (name@ + seq!['='] + value@),
        call_ensures(otlp_headers, (list,), r),
        call_ensures(otlp_headers, (more,), s),
        call_ensures(trim, (name,), trimmed_name),
        call_ensures(trim, (value,), trimmed_value),
    ensures
        trimmed_name@.len() > 0 && n == trimmed_name@ ==> (gives(s@, n, v) <==> v
            == trimmed_value@),
        trimmed_name@.len() == 0 || n != trimmed_name@ ==> (gives(s@, n, v) <==> gives(r@, n, v)),
{
    let piece = name@ + seq!['='] + value@;
    lemma_no_comma(name@, value@);
    lemma_split_whole(piece, ',');
    lemma_split_joins(list@, piece, ',');
    let before = split_on(list@, ',');
    let all = split_on(more@, ',');
    assert(all == before + seq![piece]);
    assert(all.drop_last() =~= before);
    assert(all.last() == piece);
    lemma_one_piece(piece, name@, value@);
    lemma_gives(r@, n, v);
    lemma_gives(s@, n, v);
    if trimmed_name@.len() > 0 {
        let pair = (trimmed_name@, trimmed_value@);
        assert(header_in(piece) == Some(pair));
        assert(headers_in(all) == headers_in(before).push(pair));
        assert(headers_in(before).push(pair).drop_last() =~= headers_in(before));
    }
}

proof fn lemma_no_comma(name: Seq<char>, value: Seq<char>)
    requires
        !name.contains(','),
        !value.contains(','),
    ensures
        !(name + seq!['='] + value).contains(','),
{
    let piece = name + seq!['='] + value;
    if piece.contains(',') {
        let i = choose|i: int| 0 <= i < piece.len() && piece[i] == ',';
        if i < name.len() {
            assert(name[i] == ',');
        } else if i > name.len() {
            assert(value[i - name.len() - 1] == ',');
        }
    }
}

/// The first of a list is a header in the same way, and what has no equals sign
/// is none.
pub proof fn single_headers_are_lists(
    raw: &str,
    name: &str,
    value: &str,
    r: Vec<OtlpHeader>,
    trimmed_name: String,
    trimmed_value: String,
    n: Seq<char>,
    v: Seq<char>,
)
    requires
        !raw@.contains(','),
        call_ensures(otlp_headers, (raw,), r),
        call_ensures(trim, (name,), trimmed_name),
        call_ensures(trim, (value,), trimmed_value),
    ensures
        !raw@.contains('=') ==> !gives(r@, n, v),
        raw@ == name@ + seq!['='] + value@ && !name@.contains('=') ==> (gives(r@, n, v)
            <==> trimmed_name@.len() > 0 && n == trimmed_name@ && v == trimmed_value@),
{
    lemma_split_whole(raw@, ',');
    let all = split_on(raw@, ',');
    assert(all.drop_last() =~= Seq::<Seq<char>>::empty());
    assert(headers_in(all.drop_last()) =~= Seq::<(Seq<char>, Seq<char>)>::empty());
    lemma_gives(r@, n, v);
    lemma_find(raw@, '=');
    let empty = Seq::<(Seq<char>, Seq<char>)>::empty();
    assert(header_map(empty) =~= Map::<Seq<char>, Seq<char>>::empty());
    if !raw@.contains('=') {
        assert(find(raw@, '=') == raw@.len());
        assert(headers_in(all) == empty);
    }
    if raw@ == name@ + seq!['='] + value@ && !name@.contains('=') {
        lemma_one_piece(raw@, name@, value@);
        if trimmed_name@.len() > 0 {
            let pair = (trimmed_name@, trimmed_value@);
            assert(header_in(raw@) == Some(pair));
            assert(headers_in(all) == empty.push(pair));
            assert(empty.push(pair).drop_last() =~= empty);
        } else {
            assert(headers_in(all) == empty);
        }
    }
}

/// What follows a comma without an equals sign adds nothing.
pub proof fn pieces_without_a_sign_are_skipped(
    list: &str,
    more: &str,
    piece: Seq<char>,
    r: Vec<OtlpHeader>,
    s: Vec<OtlpHeader>,
    n: Seq<char>,
    v: Seq<char>,
)
    requires
        !piece.contains('='),
        !piece.contains(','),
        more@ == list@.push(',') + piece,
        call_ensures(otlp_headers, (list,), r),
        call_ensures(otlp_headers, (more,), s),
    ensures
        gives(s@, n, v) <==> gives(r@, n, v),
{
    lemma_split_whole(piece, ',');
    lemma_split_joins(list@, piece, ',');
    let before = split_on(list@, ',');
    let all = split_on(more@, ',');
    assert(all == before + seq![piece]);
    assert(all.drop_last() =~= before);
    lemma_find(piece, '=');
    assert(header_in(piece) is None);
    lemma_gives(r@, n, v);
    lemma_gives(s@, n, v);
}

/// Metadata are the headers whose name and value are allowed in them, in the
/// order of the headers; no others are left out.
pub proof fn metadata_are_the_allowed_headers(
    headers: &Vec<OtlpHeader>,
    more: &Vec<OtlpHeader>,
    last: OtlpHeader,
    r: Vec<OtlpHeader>,
    s: Vec<OtlpHeader>,
)
    requires
        names_differ(header_texts(headers@)),
        names_differ(header_texts(more@)),
        more@ == headers@.push(last),
        call_ensures(metadata_headers, (headers,), r),
        call_ensures(metadata_headers, (more,), s),
    ensures
        headers@.len() == 0 ==> r@.len() == 0,
        is_header_name(last.name@) && is_header_value(last.value@) ==> {
            &&& s@.len() == r@.len() + 1
            &&& s@.last().name@ == last.name@
            &&& s@.last().value@ == last.value@
        },
        !(is_header_name(last.name@) && is_header_value(last.value@)) ==> s@.len() == r@.len(),
        forall|i: int|
            0 <= i < r@.len() ==> (#[trigger] s@[i]).name@ == r@[i].name@ && s@[i].value@
                == r@[i].value@,
{
    let (a, b) = (header_texts(headers@), header_texts(more@));
    assert(b.drop_last() =~= a);
    assert(b.last() == (last.name@, last.value@));
    let (x, y) = (header_texts(r@), header_texts(s@));
    assert(x.len() == r@.len() && y.len() == s@.len());
    assert forall|i: int| 0 <= i < r@.len() implies (#[trigger] s@[i]).name@ == r@[i].name@
        && s@[i].value@ == r@[i].value@ by {
        assert(x[i] == (r@[i].name@, r@[i].value@));
        assert(y[i] == (s@[i].name@, s@[i].value@));
        assert(y[i] == x[i]);
    }
    if is_header_name(last.name@) && is_header_value(last.value@) {
        assert(y == x.push(b.last()));
        assert(y[x.len() as int] == (s@.last().name@, s@.last().value@));
    }
}

/// Headers that were read can be made metadata.
pub proof fn headers_can_be_metadata(raw: &str, r: Vec<OtlpHeader>)
    requires
        call_ensures(otlp_headers, (raw,), r),
    ensures
        call_requires(metadata_headers, (&r,)),
{
}

} // verus!
