//! What the server does with a request: which resource a request asks for,
//! and the answers that are made from the registry and the handshake.

use crate::handshake::{
    spec_fulfills_ws_requirements, spec_room_of, spec_upgrade_response, try_upgrade_to_ws,
};
use crate::registry::{spec_created, spec_has_room, Registry, RegistryError};
use crate::request::{Method, Request, RequestView};
use crate::response::{Response, ResponseView, Status};
use crate::text::{same_text, spec_ascii_lowercase, spec_starts_with, starts_with};
use crate::{spec_header_insert, spec_header_value};
use vstd::prelude::*;
use vstd::string::*;
use vstd::utf8::encode_utf8;

verus! {

/// What a request asks for.
#[derive(Clone, Copy, Debug, PartialEq, Eq, Structural)]
pub enum Route {
    /// The chat page.
    Chat,
    /// The script of the chat page.
    ChatScript,
    /// The script of the start page.
    IndexScript,
    /// The style sheet.
    Style,
    /// A WebSocket connection to a room.
    WebSocket,
    /// The start page.
    Index,
    /// The names of the rooms.
    ListRooms,
    /// A new room.
    CreateRoom,
    /// Nothing that this server has.
    NotFound,
}

/// The resource that a method and a path ask for. Only `GET` asks for
/// anything; the chat page and the WebSocket are asked for by every path
/// that starts with their prefix, and the chat page comes first.
pub open spec fn spec_route(method: Method, path: Seq<char>) -> Route {
    if method != Method::Get {
        Route::NotFound
    } else if spec_starts_with(path, "/chat"@) {
        Route::Chat
    } else if path == "/scripts/chat.js"@ {
        Route::ChatScript
    } else if path == "/scripts/index.js"@ {
        Route::IndexScript
    } else if path == "/styles/style.css"@ {
        Route::Style
    } else if spec_starts_with(path, "/ws"@) {
        Route::WebSocket
    } else if path == "/"@ || path == "/index.html"@ {
        Route::Index
    } else if path == "/api/rooms"@ {
        Route::ListRooms
    } else if path == "/api/gen-room"@ {
        Route::CreateRoom
    } else {
        Route::NotFound
    }
}

pub fn route(method: Method, path: &str) -> (r: Route)
    ensures
        r == spec_route(method, path@),
{
    match method {
        Method::Get => {},
        _ => {
            return Route::NotFound;
        },
    }
    if starts_with(path, "/chat") {
        Route::Chat
    } else if same_text(path, "/scripts/chat.js") {
        Route::ChatScript
    } else if same_text(path, "/scripts/index.js") {
        Route::IndexScript
    } else if same_text(path, "/styles/style.css") {
        Route::Style
    } else if starts_with(path, "/ws") {
        Route::WebSocket
    } else if same_text(path, "/") || same_text(path, "/index.html") {
        Route::Index
    } else if same_text(path, "/api/rooms") {
        Route::ListRooms
    } else if same_text(path, "/api/gen-room") {
        Route::CreateRoom
    } else {
        Route::NotFound
    }
}

/// The content type under which a resource of the server's own is served;
/// none for what is no such resource.
pub open spec fn spec_content_type(route: Route) -> Option<Seq<char>> {
    match route {
        Route::Chat | Route::Index => Some("text/html"@),
        Route::ChatScript | Route::IndexScript => Some("text/javascript"@),
        Route::Style => Some("text/css"@),
        _ => None,
    }
}

/// A response with a content type as its one header and a text as its body.
pub open spec fn spec_text_response(status: Status, content_type: Seq<char>, body: Seq<char>) -> ResponseView {
    ResponseView {
        status,
        headers: spec_header_insert(Seq::empty(), spec_ascii_lowercase("content-type"@), content_type),
        body: encode_utf8(body),
    }
}

/// A response without headers.
pub open spec fn spec_plain_response(status: Status, body: Seq<char>) -> ResponseView {
    ResponseView { status, headers: Seq::empty(), body: encode_utf8(body) }
}

/// The answer that serves `asset` as the resource `route`; none where the
/// route is no resource of the server's own.
pub fn serve(route: Route, asset: &str) -> (r: Option<Response>)
    ensures
        match spec_content_type(route) {
            Some(content_type) => r is Some && r->Some_0@ == spec_text_response(
                Status::OK,
                content_type,
                asset@,
            ),
            None => r is None,
        },
{
    let mut builder = Response::builder();
    match route {
        Route::Chat | Route::Index => {
            builder.as_html();
        },
        Route::ChatScript | Route::IndexScript => {
            builder.as_js();
        },
        Route::Style => {
            builder.as_css();
        },
        _ => {
            return None;
        },
    }
    Some(builder.with_body(asset.as_bytes_vec()))
}

/// The answer to a request that cannot be read or is no upgrade: `400`,
/// without a body.
pub fn bad_request() -> (r: Response)
    ensures
        r@ == (ResponseView { status: Status::BadRequest, headers: Seq::empty(), body: Seq::empty() }),
{
    let mut builder = Response::builder();
    builder.with_status(Status::BadRequest);
    builder.with_body(Vec::new())
}

/// The text that tells that no resource has the path.
pub open spec fn spec_no_resource_text(path: Seq<char>) -> Seq<char> {
    "Error 404: no resource with path "@ + path + " found"@
}

/// The answer to a request for what the server does not have.
pub fn not_found(path: &str) -> (r: Response)
    ensures
        r@ == spec_plain_response(Status::NotFound, spec_no_resource_text(path@)),
{
    let mut text = String::from_str("Error 404: no resource with path ");
    text.append(path);
    text.append(" found");
    let mut builder = Response::builder();
    builder.with_status(Status::NotFound);
    builder.with_body(text.as_str().as_bytes_vec())
}

/// The text that tells that no room has the name.
pub open spec fn spec_no_room_text(name: Seq<char>) -> Seq<char> {
    "no room with name "@ + name + " found."@
}

/// The names, each between double quotes, with a comma and a space between
/// two of them.
pub open spec fn spec_quoted_names(names: Seq<Seq<char>>) -> Seq<char>
    decreases names.len(),
{
    if names.len() == 0 {
        Seq::empty()
    } else if names.len() == 1 {
        "\""@ + names[0] + "\""@
    } else {
        spec_quoted_names(names.drop_last()) + ", "@ + "\""@ + names.last() + "\""@
    }
}

/// The list of the names between square brackets.
pub open spec fn spec_listing_text(names: Seq<Seq<char>>) -> Seq<char> {
    "["@ + spec_quoted_names(names) + "]"@
}

/// The views of a sequence of names.
pub open spec fn spec_name_views(names: Seq<String>) -> Seq<Seq<char>> {
    Seq::new(names.len(), |i: int| names[i]@)
}

/// The answer that lists the rooms.
pub fn room_listing(names: &Vec<String>) -> (r: Response)
    ensures
        r@ == spec_text_response(
            Status::OK,
            "application/json"@,
            spec_listing_text(spec_name_views(names@)),
        ),
{
    let ghost views = spec_name_views(names@);
    let mut text = String::from_str("[");
    let ghost start = text@;
    let mut i: usize = 0;
    assert(views.take(0) =~= Seq::<Seq<char>>::empty());
    assert(text@ =~= start + spec_quoted_names(views.take(0)));
    while i < names.len()
        invariant
            i <= names@.len(),
            views == spec_name_views(names@),
            text@ == start + spec_quoted_names(views.take(i as int)),
        decreases names@.len() - i,
    {
        let ghost before = text@;
        if i > 0 {
            text.append(", ");
        }
        text.append("\"");
        text.append(names[i].as_str());
        text.append("\"");
        proof {
            let next = views.take(i + 1);
            assert(next.drop_last() =~= views.take(i as int));
            assert(next.last() == names@[i as int]@);
            if i == 0 {
                assert(next[0] == names@[0]@);
                assert(text@ =~= start + spec_quoted_names(next));
            } else {
                assert(text@ =~= start + spec_quoted_names(next));
            }
        }
        i += 1;
    }
    assert(views.take(i as int) =~= views);
    text.append("]");
    assert(text@ =~= spec_listing_text(views));
    let mut builder = Response::builder();
    builder.as_json();
    builder.with_body(text.as_str().as_bytes_vec())
}

/// The text that tells the name of a new room.
pub open spec fn spec_created_text(name: Seq<char>) -> Seq<char> {
    "{ \"status\": 0, \"name\": \""@ + name + "\"}"@
}

/// The text that tells that no further room can be made.
pub open spec fn spec_capacity_text() -> Seq<char> {
    "{ \"status\": 1, \"message\": \"Rooms at capacity.\"}"@
}

/// The answer to a request for a new room, given what the registry made of
/// it: the room's name, or the refusal.
pub fn room_creation(made: &Result<String, RegistryError>) -> (r: Response)
    ensures
        made is Ok ==> r@ == spec_text_response(
            Status::OK,
            "application/json"@,
            spec_created_text(made->Ok_0@),
        ),
        made is Err ==> r@ == spec_text_response(
            Status::Forbidden,
            "application/json"@,
            spec_capacity_text(),
        ),
{
    let mut builder = Response::builder();
    match made {
        Ok(name) => {
            let mut text = String::from_str("{ \"status\": 0, \"name\": \"");
            text.append(name.as_str());
            text.append("\"}");
            builder.with_status(Status::OK);
            builder.as_json();
            builder.with_body(text.as_str().as_bytes_vec())
        },
        Err(_) => {
            builder.with_status(Status::Forbidden);
            builder.as_json();
            builder.with_body("{ \"status\": 1, \"message\": \"Rooms at capacity.\"}".as_bytes_vec())
        },
    }
}

/// Makes a new room, unless the registry is full, and gives the answer to
/// send.
pub fn handle_new_room(registry: &mut Registry) -> (r: Response)
    requires
        old(registry).wf(),
    ensures
        final(registry).wf(),
        final(registry).spec_max_rooms() == old(registry).spec_max_rooms(),
        old(registry)@.len() >= old(registry).spec_max_rooms() ==> final(registry)@ == old(registry)@
            && r@ == spec_text_response(Status::Forbidden, "application/json"@, spec_capacity_text()),
        old(registry)@.len() < old(registry).spec_max_rooms() ==> exists|name: Seq<char>|
            #![trigger spec_created(old(registry)@, name)]
            name.len() == 6 && final(registry)@ == spec_created(old(registry)@, name) && r@
                == spec_text_response(Status::OK, "application/json"@, spec_created_text(name)),
{
    let made = registry.handle_new_room();
    room_creation(&made)
}

/// What becomes of a request for a WebSocket connection.
pub enum Admission {
    /// The request is accepted: the answer to send, and the room to join
    /// once it is sent.
    Accepted(Response, String),
    /// The request is refused with this answer.
    Refused(Response),
}

pub enum AdmissionView {
    Accepted(ResponseView, Seq<char>),
    Refused(ResponseView),
}

impl View for Admission {
    type V = AdmissionView;

    open spec fn view(&self) -> AdmissionView {
        match self {
            Admission::Accepted(answer, room) => AdmissionView::Accepted(answer@, room@),
            Admission::Refused(answer) => AdmissionView::Refused(answer@),
        }
    }
}

/// The decision on a request for a WebSocket connection. A request that is
/// no upgrade in due form, or names no room, is refused with `400`; one for
/// a room that does not exist, with `404`; any other is accepted into the
/// room it names.
pub open spec fn spec_admission(rooms: Seq<crate::registry::RoomEntryView>, request: RequestView) -> AdmissionView {
    if !(spec_fulfills_ws_requirements(request) && spec_room_of(request.path) is Some) {
        AdmissionView::Refused(
            ResponseView { status: Status::BadRequest, headers: Seq::empty(), body: Seq::empty() },
        )
    } else if !spec_has_room(rooms, spec_room_of(request.path)->Some_0) {
        AdmissionView::Refused(
            spec_plain_response(
                Status::NotFound,
                spec_no_room_text(spec_room_of(request.path)->Some_0),
            ),
        )
    } else {
        AdmissionView::Accepted(
            spec_upgrade_response(
                spec_header_value(request.headers, spec_ascii_lowercase("sec-websocket-key"@))->Some_0,
            ),
            spec_room_of(request.path)->Some_0,
        )
    }
}

/// Decides on a request for a WebSocket connection. The registry is not
/// changed: the connection joins once the answer is sent.
pub fn handle_new_ws(registry: &Registry, request: &Request) -> (r: Admission)
    requires
        registry.wf(),
    ensures
        r@ == spec_admission(registry@, request@),
{
    let (answer, room) = match try_upgrade_to_ws(request) {
        Some(found) => found,
        None => {
            return Admission::Refused(bad_request());
        },
    };
    if registry.position(&room).is_none() {
        let mut text = String::from_str("no room with name ");
        text.append(room.as_str());
        text.append(" found.");
        let mut builder = Response::builder();
        builder.with_status(Status::NotFound);
        return Admission::Refused(builder.with_body(text.as_str().as_bytes_vec()));
    }
    Admission::Accepted(answer, room)
}

} // verus!
