use http::{Contentable, Message, MessageBuilder, Request, RequestMethod, Response, Router, StatusCode};

#[test]
fn request_round_trip() {
    let req_str = "PUT /new HTTP/1.1\r\nHost: Localhost\r\n\r\n{\"name\":\"John\"}".to_string();
    let req = Request::try_from(req_str).expect("A valid request should parse");

    let reparsed =
        Request::try_from(req.to_string()).expect("A serialized request should parse again");

    assert_eq!(req.method(), reparsed.method());
    assert_eq!(req.uri(), reparsed.uri());
    assert_eq!(req.get_body(), reparsed.get_body());
    assert_eq!(req.has_header("Host"), reparsed.has_header("Host"));
    assert_eq!(req, reparsed);
}

#[test]
fn response_round_trip() {
    let res_str = "HTTP/1.1 404 Not Found\r\nHost: Localhost\r\n\r\ngone".to_string();
    let res = Response::try_from(res_str).expect("A valid response should parse");

    let reparsed =
        Response::try_from(res.to_string()).expect("A serialized response should parse again");

    assert_eq!(res.get_body(), reparsed.get_body());
    assert_eq!(res.has_header("Host"), reparsed.has_header("Host"));
    assert_eq!(res, reparsed);
}

#[test]
fn message_from_str_reads_headers() {
    let msg = Message::from_str("Host: Localhost\r\n\r\nbody").expect("A plain message parses");

    let expected = MessageBuilder::new()
        .add_header("Host".to_string(), "Localhost".to_string())
        .body("\r\nbody".to_string())
        .build();

    assert_eq!(expected, msg);
}

#[test]
fn message_from_str_rejects_missing_colon() {
    assert_eq!(None, Message::from_str("Host Localhost\r\n\r\nbody"));
}

#[test]
fn message_from_str_empty() {
    let msg = Message::from_str("").expect("The empty message parses");
    let expected = MessageBuilder::new().build();
    assert_eq!(expected, msg);
}

#[test]
fn router_serves_stored_page() {
    let pages = vec![
        ("/about/us/".to_string(), "about us page".to_string()),
        ("/".to_string(), "front page".to_string()),
    ];
    let router = Router::new(pages);

    let req = Request::new(RequestMethod::GET, "/about/us/".to_string());
    let res = router.handle_request(req);
    assert_eq!(
        Response::new(StatusCode::OK, "about us page".to_string()),
        res
    );
}

#[test]
fn router_misses_unknown_page() {
    let pages = vec![("/".to_string(), "front page".to_string())];
    let router = Router::new(pages);

    let req = Request::new(RequestMethod::GET, "/missing".to_string());
    let res = router.handle_request(req);
    assert_eq!(Response::new(StatusCode::NotFound, String::new()), res);
}
