use http::{Contentable, ParseRequestError, ParseRequestMethodError, Request, RequestMethod};

#[test]
fn request_from_string_simple() {
    let req_str = "GET / HTTP/1.1\r\n\r\n\r\n".to_string();
    let req = match Request::try_from(req_str) {
        Ok(req) => req,
        Err(e) => panic!("Should not get error on valid http: {:?}", e),
    };

    let expected_req = Request::new(RequestMethod::GET, "/".to_string());
    assert_eq!(expected_req, req, "Creating Request from String failed");
}

#[test]
fn request_request_from_string_simple() {
    let request_str = "GET / HTTP/1.1\r\n\r\n\r\n".to_string();
    let request = match Request::try_from(request_str) {
        Ok(request) => request,
        Err(e) => panic!("Error: {:?}", e),
    };

    let expected_request = Request::new(RequestMethod::GET, "/".to_string());
    assert_eq!(expected_request, request);
}

#[test]
fn request_from_string() {
    let req_str = "GET /about/us HTTP/1.1\r\nHost: Localhost\r\nCache: 3000\r\n\r\n".to_string();
    let req = match Request::try_from(req_str) {
        Ok(req) => req,
        Err(e) => panic!("Should not get error on valid http: {:?}", e),
    };

    let mut expected_req = Request::new(RequestMethod::GET, "/about/us".to_string());
    expected_req.add_header("Host".to_string(), "Localhost".to_string());
    expected_req.add_header("Cache".to_string(), "3000".to_string());

    assert_eq!(expected_req, req, "Creating Request from String failed");
}

#[test]
fn request_from_string_with_body() {
    let req_str = "PUT /new HTTP/1.1\r\nHost: Localhost\r\n\r\n{\"name\": \"John\"}".to_string();
    let req = match Request::try_from(req_str) {
        Ok(req) => req,
        Err(e) => panic!("Should not get error on valid http: {:?}", e),
    };

    let mut expected_req = Request::new(RequestMethod::PUT, "/new".to_string());
    expected_req.set_body("{\"name\": \"John\"}".to_string());
    expected_req.add_header("Host".to_string(), "Localhost".to_string());

    assert_eq!(expected_req, req, "Creating Request from String failed");
}

#[test]
fn request_to_string() {
    let mut req = Request::new(RequestMethod::GET, "/new_page".to_string());
    req.add_header("Host".to_string(), "Remotehost".to_string());

    let expected_str = "GET /new_page HTTP/1.1\r\nHost: Remotehost\r\n\r\n";
    assert_eq!(expected_str, req.to_string(), "Didn't convert to valid http")
}

#[test]
fn construct_request() {
    let mut req = Request::new(RequestMethod::GET, "/about/".to_string());
    req.add_header("Host".to_string(), "Localhost".to_string());

    assert_eq!(RequestMethod::GET, req.method(), "Creation not matching expectation");
    assert_eq!("/about/", req.uri(), "Creation not matching expectation");
    assert_eq!(
        Some("Localhost"),
        req.has_header("Host"),
        "Creation not matching expectation"
    );
    assert_eq!("", req.get_body(), "Creation not matching expectation");
}

#[test]
fn method_from_string_good() {
    let possible_methods = vec![
        ("GET", RequestMethod::GET),
        ("HEAD", RequestMethod::HEAD),
        ("PUT", RequestMethod::PUT),
        ("POST", RequestMethod::POST),
    ];

    for (method_str, expected_method) in possible_methods {
        let method = match RequestMethod::from_str(method_str) {
            Ok(method) => method,
            Err(e) => panic!("Should not get error on valid http: {:?}", e),
        };
        assert_eq!(
            expected_method, method,
            "Didn't get correct result when converting String to RequestMethod"
        );
    }
}

#[test]
fn request_method_from_string_good() {
    let possible_methods = vec![
        ("GET", RequestMethod::GET),
        ("HEAD", RequestMethod::HEAD),
        ("PUT", RequestMethod::PUT),
        ("POST", RequestMethod::POST),
    ];

    for (method_str, expected_method) in possible_methods {
        let method = match RequestMethod::from_str(method_str) {
            Ok(method) => method,
            Err(e) => panic!("Error: {:?}", e),
        };
        assert_eq!(expected_method, method);
    }
}

#[test]
fn method_from_string_bad() {
    assert_eq!(
        Err(ParseRequestMethodError::Invalid),
        RequestMethod::from_str("DELETE")
    );
    assert_eq!(
        Err(ParseRequestMethodError::Invalid),
        RequestMethod::from_str("get")
    );
    assert_eq!(
        Err(ParseRequestMethodError::Invalid),
        RequestMethod::from_str("")
    );
}

#[test]
fn request_error_kinds() {
    assert_eq!(
        Err(ParseRequestError::Empty),
        Request::try_from(String::new())
    );
    assert_eq!(
        Err(ParseRequestError::Invalid),
        Request::try_from("GET / HTTP/1.1".to_string()),
        "A request without any line terminator is invalid"
    );
    assert_eq!(
        Err(ParseRequestError::Invalid),
        Request::try_from("GET /\r\n\r\n\r\n".to_string()),
        "A start-line with fewer than three tokens is invalid"
    );
    assert_eq!(
        Err(ParseRequestError::Invalid),
        Request::try_from("GET / HTTP/1.0\r\n\r\n\r\n".to_string()),
        "A foreign protocol version is invalid"
    );
    assert_eq!(
        Err(ParseRequestError::Invalid),
        Request::try_from("FETCH / HTTP/1.1\r\n\r\n\r\n".to_string()),
        "An unrecognized method is invalid"
    );
    assert_eq!(
        Err(ParseRequestError::Empty),
        Request::try_from("GET / HTTP/1.1\r\n".to_string()),
        "An empty content propagates its kind"
    );
    assert_eq!(
        Err(ParseRequestError::Invalid),
        Request::try_from("GET / HTTP/1.1\r\nHost: Localhost\r\n".to_string()),
        "A content without a separator propagates its kind"
    );
}
