use backend::handshake::{first_param, fulfills_ws_requirements, get_query_params, get_websocket_accept_hash, try_upgrade_to_ws};
use backend::registry::Registry;
use backend::request::{eq_ignore_case, is_blank, parse_method, Method, ParseError, Request};
use backend::response::{Response, Status};
use backend::server::{bad_request, handle_new_room, handle_new_ws, not_found, room_creation, room_listing, route, serve, Admission, Route};
use backend::registry::RegistryError;
use backend::text::{find_char, find_either, is_whitespace, starts_with, trim};
use backend::{HeaderName, Headers};

fn upgrade_request(path: &str) -> Request {
    let text = format!(
        "GET {} HTTP/1.1\r\nHost: example.com\r\nUpgrade: WebSocket\r\nConnection: Upgrade\r\nSec-WebSocket-Key: dGhlIHNhbXBsZSBub25jZQ==\r\n\r\n",
        path
    );
    Request::try_parse_from(&text).unwrap()
}

#[test]
fn accept_value_of_the_sample_key() {
    assert_eq!(get_websocket_accept_hash("dGhlIHNhbXBsZSBub25jZQ=="), "s3pPLMBiTxaQ9kYGzzhZRbK+xOo=");
}

#[test]
fn accept_value_depends_on_the_key() {
    assert_eq!(get_websocket_accept_hash(""), "Kfh9QIsMVZcl6xEPYxPHzW8SZ8w=");
    assert_ne!(get_websocket_accept_hash("a"), get_websocket_accept_hash("b"));
}

#[test]
fn header_names_are_held_in_lower_case() {
    assert_eq!(HeaderName::from_str("Sec-WebSocket-Key").as_str(), "sec-websocket-key");
    assert_eq!(HeaderName::from_str("ÄB-1z").as_str(), "Äb-1z");
    assert_eq!(HeaderName::from_str("Upgrade"), HeaderName::from_str("upGRADE"));
}

#[test]
fn headers_hold_one_value_for_each_name() {
    let mut headers = Headers::new();
    assert_eq!(headers.len(), 0);
    headers.insert(HeaderName::from_str("A"), "1".to_string());
    headers.insert(HeaderName::from_str("b"), "2".to_string());
    headers.insert(HeaderName::from_str("a"), "3".to_string());
    assert_eq!(headers.len(), 2);
    assert_eq!(headers.get(&HeaderName::from_str("a")), Some(&"3".to_string()));
    assert_eq!(headers.get(&HeaderName::from_str("B")), Some(&"2".to_string()));
    assert_eq!(headers.get(&HeaderName::from_str("c")), None);
    assert_eq!(headers.entry(0), ("a", "3"));
    assert_eq!(headers.entry(1), ("b", "2"));
    let copy = headers.clone();
    assert_eq!(copy.len(), 2);
    assert_eq!(copy.entry(0), ("a", "3"));
}

#[test]
fn request_is_read_from_its_text() {
    let request = Request::try_parse_from(
        "get /ws?room=abc HTTP/1.1\r\nHost:  example.com \r\nX-Empty:\r\nhost: other\r\n\r\nbody: not a header\r\n",
    )
    .unwrap();
    assert_eq!(request.method(), Method::Get);
    assert_eq!(request.path(), "/ws?room=abc");
    assert_eq!(request.version(), "HTTP/1.1");
    assert_eq!(request.headers().len(), 2);
    assert_eq!(request.headers().get(&HeaderName::from_str("HOST")), Some(&"other".to_string()));
    assert_eq!(request.headers().get(&HeaderName::from_str("x-empty")), Some(&String::new()));
    assert_eq!(request.headers().get(&HeaderName::from_str("body")), None);
}

#[test]
fn request_without_headers() {
    let request = Request::try_parse_from("DELETE /x HTTP/1.0").unwrap();
    assert_eq!(request.method(), Method::Delete);
    assert_eq!(request.path(), "/x");
    assert_eq!(request.version(), "HTTP/1.0");
    assert_eq!(request.headers().len(), 0);
    let request = Request::try_parse_from("PUT /x HTTP/1.1 extra words\nA: b").unwrap();
    assert_eq!(request.method(), Method::Put);
    assert_eq!(request.version(), "HTTP/1.1");
    assert_eq!(request.headers().get(&HeaderName::from_str("a")), Some(&"b".to_string()));
    let request = Request::try_parse_from("POST  HTTP/1.1\r\n").unwrap();
    assert_eq!(request.method(), Method::Post);
    assert_eq!(request.path(), "");
    assert_eq!(request.version(), "HTTP/1.1");
}

#[test]
fn request_errors_say_what_was_missed() {
    assert_eq!(Request::try_parse_from("").unwrap_err(), ParseError("expected path"));
    assert_eq!(Request::try_parse_from("GET\r\n").unwrap_err(), ParseError("expected path"));
    assert_eq!(Request::try_parse_from("GET /\r\n").unwrap_err(), ParseError("expected HTTP version"));
    assert_eq!(Request::try_parse_from("PATCH / HTTP/1.1\r\n").unwrap_err(), ParseError("expected HTTP method"));
    assert_eq!(Request::try_parse_from("FETCH /\r\n").unwrap_err(), ParseError("expected HTTP version"));
    assert_eq!(
        Request::try_parse_from("GET / HTTP/1.1\r\nHost: a\r\nno colon here\r\n\r\n").unwrap_err(),
        ParseError("expected HTTP header")
    );
    assert_eq!(ParseError("expected path").message(), "expected path");
}

#[test]
fn methods_are_named_in_any_case() {
    assert_eq!(parse_method("GET"), Some(Method::Get));
    assert_eq!(parse_method("pOsT"), Some(Method::Post));
    assert_eq!(parse_method("put"), Some(Method::Put));
    assert_eq!(parse_method("Delete"), Some(Method::Delete));
    assert_eq!(parse_method("HEAD"), None);
    assert_eq!(parse_method(""), None);
    assert_eq!(Method::Get.as_str(), "GET");
    assert_eq!(Method::Post.as_str(), "POST");
    assert_eq!(Method::Put.as_str(), "PUT");
    assert_eq!(Method::Delete.as_str(), "DELETE");
    assert!(eq_ignore_case("WebSocket", "websocket"));
    assert!(!eq_ignore_case("websocket", "websockets"));
}

#[test]
fn text_helpers() {
    assert_eq!(trim("  \t a b \r\n"), "a b");
    assert_eq!(trim("\u{a0}\u{3000}x\u{2028}"), "x");
    assert_eq!(trim(" \r\n"), "");
    assert_eq!(trim(""), "");
    assert_eq!(trim("x"), "x");
    assert!(is_blank("\r\n"));
    assert!(is_blank(""));
    assert!(!is_blank(" a "));
    assert!(is_whitespace(' '));
    assert!(is_whitespace('\u{85}'));
    assert!(!is_whitespace('a'));
    assert!(!is_whitespace('\u{200b}'));
    for code in 0u32..0x3100 {
        if let Some(c) = char::from_u32(code) {
            assert_eq!(is_whitespace(c), c.is_whitespace());
        }
    }
    assert_eq!(find_char("a:b:c", ':', 0, 5), 1);
    assert_eq!(find_char("a:b:c", ':', 2, 5), 3);
    assert_eq!(find_char("a:b:c", ':', 4, 5), 5);
    assert_eq!(find_char("a:b:c", ':', 0, 1), 1);
    assert_eq!(find_either("ab&c?d", '?', '&', 0, 6), 2);
    assert_eq!(find_either("ab&c?d", '?', '&', 3, 6), 4);
    assert_eq!(find_either("abc", '?', '&', 0, 3), 3);
    assert!(starts_with("/chat/room", "/chat"));
    assert!(starts_with("/chat", "/chat"));
    assert!(!starts_with("/cha", "/chat"));
    assert!(!starts_with("/chAt", "/chat"));
    assert!(starts_with("x", ""));
}

#[test]
fn query_parameters_of_a_path() {
    let pairs = |path: &str| -> Vec<(String, String)> { get_query_params(path) };
    let pair = |k: &str, v: &str| (k.to_string(), v.to_string());
    assert_eq!(pairs("/ws?room=abc&user=me"), vec![pair("room", "abc"), pair("user", "me")]);
    assert_eq!(pairs("/ws"), vec![]);
    assert_eq!(pairs("/ws?"), vec![]);
    assert_eq!(pairs("/ws?flag&room=a=b&&x="), vec![pair("room", "a=b"), pair("x", "")]);
    assert_eq!(pairs("a=1&b=2"), vec![pair("b", "2")]);
    assert_eq!(pairs("/p?=v"), vec![pair("", "v")]);
    let params = get_query_params("/ws?room=first&x=1&room=second");
    assert_eq!(first_param(&params, "room"), Some(&"first".to_string()));
    assert_eq!(first_param(&params, "x"), Some(&"1".to_string()));
    assert_eq!(first_param(&params, "Room"), None);
}

#[test]
fn upgrade_needs_its_three_headers() {
    assert!(fulfills_ws_requirements(&upgrade_request("/ws?room=a")));
    let parse = |text: &str| Request::try_parse_from(text).unwrap();
    assert!(fulfills_ws_requirements(&parse(
        "GET /ws HTTP/1.1\r\nconnection: UPGRADE\r\nupgrade: websocket\r\nsec-websocket-key: k\r\n\r\n"
    )));
    assert!(!fulfills_ws_requirements(&parse(
        "GET /ws HTTP/1.1\r\nupgrade: websocket\r\nsec-websocket-key: k\r\n\r\n"
    )));
    assert!(!fulfills_ws_requirements(&parse(
        "GET /ws HTTP/1.1\r\nconnection: upgrade\r\nsec-websocket-key: k\r\n\r\n"
    )));
    assert!(!fulfills_ws_requirements(&parse(
        "GET /ws HTTP/1.1\r\nconnection: upgrade\r\nupgrade: websocket\r\n\r\n"
    )));
    assert!(!fulfills_ws_requirements(&parse(
        "GET /ws HTTP/1.1\r\nconnection: keep-alive\r\nupgrade: websocket\r\nsec-websocket-key: k\r\n\r\n"
    )));
    assert!(!fulfills_ws_requirements(&parse(
        "GET /ws HTTP/1.1\r\nconnection: upgrade\r\nupgrade: h2c\r\nsec-websocket-key: k\r\n\r\n"
    )));
}

#[test]
fn upgrade_answer_carries_the_accept_value() {
    let (response, room) = try_upgrade_to_ws(&upgrade_request("/ws?room=lobby")).unwrap();
    assert_eq!(room, "lobby");
    assert_eq!(response.status(), Status::SwitchingProtocols);
    assert_eq!(response.headers().len(), 3);
    assert_eq!(response.headers().get(&HeaderName::from_str("connection")), Some(&"Upgrade".to_string()));
    assert_eq!(response.headers().get(&HeaderName::from_str("upgrade")), Some(&"websocket".to_string()));
    assert_eq!(
        response.headers().get(&HeaderName::from_str("sec-websocket-accept")),
        Some(&"s3pPLMBiTxaQ9kYGzzhZRbK+xOo=".to_string())
    );
    assert!(response.body().is_empty());
    assert_eq!(
        response.into_bytes(),
        "HTTP/1.1 101 Switching Protocols\r\nconnection: Upgrade\r\nupgrade: websocket\r\nsec-websocket-accept: s3pPLMBiTxaQ9kYGzzhZRbK+xOo=\r\n\r\n"
            .as_bytes()
    );
    assert!(try_upgrade_to_ws(&upgrade_request("/ws")).is_none());
    assert!(try_upgrade_to_ws(&upgrade_request("/ws?user=me")).is_none());
    let plain = Request::try_parse_from("GET /ws?room=lobby HTTP/1.1\r\n\r\n").unwrap();
    assert!(try_upgrade_to_ws(&plain).is_none());
}

#[test]
fn response_bytes() {
    let response = Response::builder()
        .with_status(Status::NotFound)
        .with_header("Content-Type", "text/plain")
        .with_header("X-A", "1")
        .with_header("content-type", "text/html")
        .with_body(vec![0x68, 0x69, 0xff]);
    let mut expected = "HTTP/1.1 404 Not Found\r\ncontent-type: text/html\r\nx-a: 1\r\n\r\nhi".as_bytes().to_vec();
    expected.push(0xff);
    assert_eq!(response.into_bytes(), expected);
    let empty = Response::builder().with_body(Vec::new());
    assert_eq!(empty.status(), Status::OK);
    assert_eq!(empty.into_bytes(), "HTTP/1.1 200 OK\r\n\r\n".as_bytes());
}

#[test]
fn content_types_of_the_builder() {
    let types = [
        (Response::builder().as_html().with_body(vec![]), "text/html"),
        (Response::builder().as_js().with_body(vec![]), "text/javascript"),
        (Response::builder().as_css().with_body(vec![]), "text/css"),
        (Response::builder().as_json().with_body(vec![]), "application/json"),
    ];
    for (response, expected) in types {
        assert_eq!(response.headers().get(&HeaderName::from_str("content-type")), Some(&expected.to_string()));
        assert_eq!(response.headers().len(), 1);
    }
}

#[test]
fn status_lines() {
    assert_eq!(Status::SwitchingProtocols.as_str(), "101 Switching Protocols");
    assert_eq!(Status::OK.as_str(), "200 OK");
    assert_eq!(Status::BadRequest.as_str(), "400 Bad Request");
    assert_eq!(Status::Forbidden.as_str(), "403 Forbidden");
    assert_eq!(Status::NotFound.as_str(), "404 Not Found");
    assert_eq!(Status::InternalServerError.as_str(), "500 Internal Server Error");
    assert_eq!(Status::default(), Status::OK);
}

#[test]
fn routes_of_the_server() {
    assert_eq!(route(Method::Get, "/"), Route::Index);
    assert_eq!(route(Method::Get, "/index.html"), Route::Index);
    assert_eq!(route(Method::Get, "/chat"), Route::Chat);
    assert_eq!(route(Method::Get, "/chat?room=abc"), Route::Chat);
    assert_eq!(route(Method::Get, "/scripts/chat.js"), Route::ChatScript);
    assert_eq!(route(Method::Get, "/scripts/index.js"), Route::IndexScript);
    assert_eq!(route(Method::Get, "/styles/style.css"), Route::Style);
    assert_eq!(route(Method::Get, "/ws?room=abc"), Route::WebSocket);
    assert_eq!(route(Method::Get, "/api/rooms"), Route::ListRooms);
    assert_eq!(route(Method::Get, "/api/gen-room"), Route::CreateRoom);
    assert_eq!(route(Method::Get, "/api/rooms/"), Route::NotFound);
    assert_eq!(route(Method::Get, "/index.htm"), Route::NotFound);
    assert_eq!(route(Method::Post, "/"), Route::NotFound);
    assert_eq!(route(Method::Put, "/ws"), Route::NotFound);
    assert_eq!(route(Method::Delete, "/api/rooms"), Route::NotFound);
}

#[test]
fn answers_of_the_server() {
    assert_eq!(
        serve(Route::Index, "<p>hi</p>").unwrap().into_bytes(),
        "HTTP/1.1 200 OK\r\ncontent-type: text/html\r\n\r\n<p>hi</p>".as_bytes()
    );
    assert_eq!(
        serve(Route::ChatScript, "x()").unwrap().into_bytes(),
        "HTTP/1.1 200 OK\r\ncontent-type: text/javascript\r\n\r\nx()".as_bytes()
    );
    assert_eq!(
        serve(Route::Style, "p{}").unwrap().into_bytes(),
        "HTTP/1.1 200 OK\r\ncontent-type: text/css\r\n\r\np{}".as_bytes()
    );
    assert!(serve(Route::Chat, "").is_some());
    assert!(serve(Route::IndexScript, "").is_some());
    assert!(serve(Route::WebSocket, "").is_none());
    assert!(serve(Route::ListRooms, "").is_none());
    assert!(serve(Route::CreateRoom, "").is_none());
    assert!(serve(Route::NotFound, "").is_none());
    assert_eq!(bad_request().into_bytes(), "HTTP/1.1 400 Bad Request\r\n\r\n".as_bytes());
    assert_eq!(
        not_found("/nope").into_bytes(),
        "HTTP/1.1 404 Not Found\r\n\r\nError 404: no resource with path /nope found".as_bytes()
    );
    assert_eq!(
        room_listing(&vec!["roomForAll".to_string(), "a1B2c3".to_string()]).into_bytes(),
        "HTTP/1.1 200 OK\r\ncontent-type: application/json\r\n\r\n[\"roomForAll\", \"a1B2c3\"]".as_bytes()
    );
    assert_eq!(
        room_listing(&vec!["one".to_string()]).body(),
        "[\"one\"]".as_bytes()
    );
    assert_eq!(room_listing(&Vec::new()).body(), "[]".as_bytes());
    assert_eq!(
        room_creation(&Ok("a1B2c3".to_string())).into_bytes(),
        "HTTP/1.1 200 OK\r\ncontent-type: application/json\r\n\r\n{ \"status\": 0, \"name\": \"a1B2c3\"}".as_bytes()
    );
    assert_eq!(
        room_creation(&Err(RegistryError::RoomsAtCapacity)).into_bytes(),
        "HTTP/1.1 403 Forbidden\r\ncontent-type: application/json\r\n\r\n{ \"status\": 1, \"message\": \"Rooms at capacity.\"}"
            .as_bytes()
    );
}

#[test]
fn new_room_is_answered_with_its_name() {
    let mut registry = Registry::new(1);
    let answer = handle_new_room(&mut registry);
    assert_eq!(answer.status(), Status::OK);
    let names = registry.room_names();
    assert_eq!(names.len(), 1);
    assert_eq!(answer.body(), format!("{{ \"status\": 0, \"name\": \"{}\"}}", names[0]).as_bytes());
    let refusal = handle_new_room(&mut registry);
    assert_eq!(refusal.status(), Status::Forbidden);
    assert_eq!(refusal.body(), "{ \"status\": 1, \"message\": \"Rooms at capacity.\"}".as_bytes());
    assert_eq!(registry.room_names(), names);
}

#[test]
fn admission_to_a_room() {
    let mut registry = Registry::new(5);
    registry.create_room("lobby".to_string()).unwrap();
    match handle_new_ws(&registry, &upgrade_request("/ws?room=lobby")) {
        Admission::Accepted(answer, room) => {
            assert_eq!(room, "lobby");
            assert_eq!(answer.status(), Status::SwitchingProtocols);
        }
        Admission::Refused(_) => panic!("refused"),
    }
    match handle_new_ws(&registry, &upgrade_request("/ws?room=attic")) {
        Admission::Refused(answer) => {
            assert_eq!(
                answer.into_bytes(),
                "HTTP/1.1 404 Not Found\r\n\r\nno room with name attic found.".as_bytes()
            );
        }
        Admission::Accepted(_, _) => panic!("accepted"),
    }
    match handle_new_ws(&registry, &upgrade_request("/ws")) {
        Admission::Refused(answer) => {
            assert_eq!(answer.into_bytes(), "HTTP/1.1 400 Bad Request\r\n\r\n".as_bytes());
        }
        Admission::Accepted(_, _) => panic!("accepted"),
    }
    let plain = Request::try_parse_from("GET /ws?room=lobby HTTP/1.1\r\n\r\n").unwrap();
    assert!(matches!(handle_new_ws(&registry, &plain), Admission::Refused(_)));
    assert_eq!(registry.members(&"lobby".to_string()), Some(&vec![]));
}
