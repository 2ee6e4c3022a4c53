//! The upgrade of an HTTP request to a WebSocket connection: what a request
//! must hold, which room it asks for, and the answer that accepts it.

use crate::request::{eq_ignore_case, spec_eq_ignore_case, Request, RequestView};
use crate::response::{Response, ResponseView, Status};
use crate::text::{find_char, find_either, same_text, spec_ascii_lowercase, spec_find, spec_find_either};
use crate::{spec_header_insert, spec_header_value, HeaderName};
use vstd::prelude::*;
use vstd::string::*;
use vstd::utf8::encode_utf8;

verus! {

/// The SHA-1 digest of a sequence of bytes.
pub uninterp spec fn spec_sha1(data: Seq<u8>) -> Seq<u8>;

/// The base64 text of a sequence of bytes, in the standard alphabet and with
/// padding.
pub uninterp spec fn spec_base64(data: Seq<u8>) -> Seq<char>;

/// Calls `sha1::Sha1::digest`, the one-shot form of `sha1::Digest`: the
/// digest depends on the bytes alone and has twenty bytes.
#[verifier::external_body]
fn sha1_digest(data: &[u8]) -> (digest: Vec<u8>)
    ensures
        digest@ == spec_sha1(data@),
        digest@.len() == 20,
{
    <sha1::Sha1 as sha1::Digest>::digest(data).to_vec()
}

/// Calls `base64::encode`: the text depends on the bytes alone.
#[verifier::external_body]
fn base64_encode(data: &[u8]) -> (text: String)
    ensures
        text@ == spec_base64(data@),
{
    base64::encode(data)
}

/// The value that every accepting answer is derived with.
pub open spec fn spec_accept_guid() -> Seq<char> {
    "258EAFA5-E914-47DA-95CA-C5AB0DC85B11"@
}

/// The accept value for a key: the base64 text of the SHA-1 digest of the
/// key followed by the fixed value.
pub open spec fn spec_accept_value(nonce: Seq<char>) -> Seq<char> {
    spec_base64(spec_sha1(encode_utf8(nonce + spec_accept_guid())))
}

/// The accept value that answers the key of an upgrade request.
pub fn get_websocket_accept_hash(nonce: &str) -> (r: String)
    ensures
        r@ == spec_accept_value(nonce@),
{
    let mut concat = nonce.to_owned();
    concat.append("258EAFA5-E914-47DA-95CA-C5AB0DC85B11");
    let digest = sha1_digest(concat.as_str().as_bytes());
    base64_encode(digest.as_slice())
}

/// Whether a request asks for the upgrade in due form: its `connection`
/// header is "upgrade" and its `upgrade` header is "websocket", in whatever
/// case, and it has a `sec-websocket-key` header.
pub open spec fn spec_fulfills_ws_requirements(req: RequestView) -> bool {
    let connection = spec_header_value(req.headers, spec_ascii_lowercase("connection"@));
    let upgrade = spec_header_value(req.headers, spec_ascii_lowercase("upgrade"@));
    let key = spec_header_value(req.headers, spec_ascii_lowercase("sec-websocket-key"@));
    &&& connection is Some && spec_eq_ignore_case(connection->Some_0, "upgrade"@)
    &&& upgrade is Some && spec_eq_ignore_case(upgrade->Some_0, "websocket"@)
    &&& key is Some
}

pub fn fulfills_ws_requirements(req: &Request) -> (r: bool)
    ensures
        r == spec_fulfills_ws_requirements(req@),
{
    let connection = match req.headers().get(&HeaderName::from_str("connection")) {
        Some(v) => eq_ignore_case(v.as_str(), "upgrade"),
        None => false,
    };
    let upgrade = match req.headers().get(&HeaderName::from_str("upgrade")) {
        Some(v) => eq_ignore_case(v.as_str(), "websocket"),
        None => false,
    };
    let key = req.headers().get(&HeaderName::from_str("sec-websocket-key")).is_some();
    connection && upgrade && key
}

/// The parameter that a piece of a path holds: what stands before its first
/// `=` and what stands behind it. A piece without `=` holds none.
pub open spec fn spec_param(piece: Seq<char>) -> Seq<(Seq<char>, Seq<char>)> {
    let n = piece.len() as int;
    let eq = spec_find(piece, '=', 0, n);
    if eq < n {
        seq![(piece.subrange(0, eq), piece.subrange(eq + 1, n))]
    } else {
        Seq::empty()
    }
}

/// The parameters of the pieces of `s` from `from` on; `?` and `&` part the
/// pieces.
pub open spec fn spec_params_from(s: Seq<char>, from: int) -> Seq<(Seq<char>, Seq<char>)>
    recommends
        0 <= from <= s.len(),
    decreases s.len() - from,
{
    if from < 0 || from > s.len() {
        Seq::empty()
    } else {
        let end = spec_find_either(s, '?', '&', from, s.len() as int);
        if from <= end < s.len() {
            spec_param(s.subrange(from, end)) + spec_params_from(s, end + 1)
        } else {
            spec_param(s.subrange(from, s.len() as int))
        }
    }
}

/// The query parameters of a path: what follows its first `?` or `&`, piece
/// by piece.
pub open spec fn spec_query_params(s: Seq<char>) -> Seq<(Seq<char>, Seq<char>)> {
    let first = spec_find_either(s, '?', '&', 0, s.len() as int);
    if first < s.len() {
        spec_params_from(s, first + 1)
    } else {
        Seq::empty()
    }
}

/// The views of a sequence of parameters.
pub open spec fn spec_param_views(params: Seq<(String, String)>) -> Seq<(Seq<char>, Seq<char>)> {
    Seq::new(params.len(), |i: int| (params[i].0@, params[i].1@))
}

/// The query parameters of a path, in order.
pub fn get_query_params(string: &str) -> (params: Vec<(String, String)>)
    ensures
        spec_param_views(params@) == spec_query_params(string@),
{
    let n = string.unicode_len();
    let mut params: Vec<(String, String)> = Vec::new();
    let first = find_either(string, '?', '&', 0, n);
    if first >= n {
        assert(spec_param_views(params@) =~= Seq::<(Seq<char>, Seq<char>)>::empty());
        return params;
    }
    let mut from: usize = first + 1;
    assert(spec_param_views(params@) + spec_params_from(string@, from as int) =~= spec_query_params(
        string@,
    ));
    loop
        invariant
            from <= n,
            n == string@.len(),
            spec_param_views(params@) + spec_params_from(string@, from as int) == spec_query_params(
                string@,
            ),
        decreases n - from,
    {
        let end = find_either(string, '?', '&', from, n);
        let piece = string.substring_char(from, end);
        let len = end - from;
        let eq = find_char(piece, '=', 0, len);
        let ghost before = spec_param_views(params@);
        if eq < len {
            params.push(
                (piece.substring_char(0, eq).to_owned(), piece.substring_char(eq + 1, len).to_owned()),
            );
        }
        assert(spec_param_views(params@) =~= before + spec_param(piece@));
        if end >= n {
            assert(spec_param_views(params@) =~= spec_query_params(string@));
            return params;
        }
        assert(spec_param_views(params@) + spec_params_from(string@, end + 1) =~= before + (spec_param(
            piece@,
        ) + spec_params_from(string@, end + 1)));
        from = end + 1;
    }
}

/// The value of the first of `params` that has the name `key`.
pub open spec fn spec_first_param(params: Seq<(Seq<char>, Seq<char>)>, key: Seq<char>) -> Option<
    Seq<char>,
>
    decreases params.len(),
{
    if params.len() == 0 {
        None
    } else if params[0].0 == key {
        Some(params[0].1)
    } else {
        spec_first_param(params.subrange(1, params.len() as int), key)
    }
}

/// The value of the first of `params` that has the name `key`.
pub fn first_param<'a>(params: &'a Vec<(String, String)>, key: &str) -> (r: Option<&'a String>)
    ensures
        match r {
            Some(v) => spec_first_param(spec_param_views(params@), key@) == Some(v@),
            None => spec_first_param(spec_param_views(params@), key@) is None,
        },
{
    let ghost views = spec_param_views(params@);
    let mut i: usize = 0;
    assert(views.subrange(0, views.len() as int) =~= views);
    while i < params.len()
        invariant
            i <= params@.len(),
            views == spec_param_views(params@),
            spec_first_param(views, key@) == spec_first_param(
                views.subrange(i as int, views.len() as int),
                key@,
            ),
        decreases params@.len() - i,
    {
        let ghost rest = views.subrange(i as int, views.len() as int);
        assert(rest[0] == views[i as int]);
        if same_text(params[i].0.as_str(), key) {
            return Some(&params[i].1);
        }
        assert(rest.subrange(1, rest.len() as int) =~= views.subrange(i + 1, views.len() as int));
        i += 1;
    }
    None
}

/// The room that a path asks for: the value of its first `room` parameter.
pub open spec fn spec_room_of(path: Seq<char>) -> Option<Seq<char>> {
    spec_first_param(spec_query_params(path), "room"@)
}

/// The answer that accepts an upgrade with the key `nonce`.
pub open spec fn spec_upgrade_response(nonce: Seq<char>) -> ResponseView {
    ResponseView {
        status: Status::SwitchingProtocols,
        headers: spec_header_insert(
            spec_header_insert(
                spec_header_insert(Seq::empty(), spec_ascii_lowercase("connection"@), "Upgrade"@),
                spec_ascii_lowercase("upgrade"@),
                "websocket"@,
            ),
            spec_ascii_lowercase("sec-websocket-accept"@),
            spec_accept_value(nonce),
        ),
        body: Seq::empty(),
    }
}

/// Accepts an upgrade request: the answer to send and the room asked for.
/// There is none where the request is not in due form or names no room.
pub fn try_upgrade_to_ws(request: &Request) -> (r: Option<(Response, String)>)
    ensures
        r is Some == (spec_fulfills_ws_requirements(request@) && spec_room_of(request@.path) is Some),
        r is Some ==> r->Some_0.1@ == spec_room_of(request@.path)->Some_0 && r->Some_0.0@
            == spec_upgrade_response(
            spec_header_value(request@.headers, spec_ascii_lowercase("sec-websocket-key"@))->Some_0,
        ),
{
    if !fulfills_ws_requirements(request) {
        return None;
    }
    let params = get_query_params(request.path());
    let room = match first_param(&params, "room") {
        Some(room) => room.clone(),
        None => {
            return None;
        },
    };
    let nonce = match request.headers().get(&HeaderName::from_str("sec-websocket-key")) {
        Some(nonce) => nonce,
        None => {
            return None;
        },
    };
    let hash = get_websocket_accept_hash(nonce.as_str());
    let mut builder = Response::builder();
    builder.with_status(Status::SwitchingProtocols);
    builder.with_header("connection", "Upgrade");
    builder.with_header("upgrade", "websocket");
    builder.with_header("sec-websocket-accept", hash.as_str());
    let response = builder.with_body(Vec::new());
    Some((response, room))
}

} // verus!
