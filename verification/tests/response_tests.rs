use http::{
    Contentable, ParseResponseError, ParseStatusCodeError, Response, StatusCode, HTTP_VERSION,
};

#[test]
fn construct_response() {
    let res = Response::new(StatusCode::OK, "hello world".to_string());

    let expected_res = Response::new(StatusCode::OK, "hello world".to_string());
    assert_eq!(expected_res, res);
}

#[test]
fn response_to_string() {
    let res = Response::new(StatusCode::OK, "hello world".to_string());

    let expected_str = format!("{} 200 OK\r\n\r\nhello world", HTTP_VERSION).to_string();

    assert_eq!(expected_str, res.to_string());
}

#[test]
fn response_use_headers() {
    let mut res = Response::new(StatusCode::OK, "hello world".to_string());
    res.add_header("Host".to_string(), "Localhost".to_string());

    assert_eq!(
        Some("Localhost"),
        res.has_header("Host"),
        "Didn't return expected value for header"
    );
    assert_eq!(
        Some("Localhost"),
        res.has_header("Host"),
        "Content gave away ownership when getting header"
    );
}

#[test]
fn status_code_from_num() {
    let num = 200;
    match StatusCode::try_from(num) {
        Ok(code) => assert_eq!(StatusCode::OK, code, "Status code 200 not equal to OK"),
        Err(e) => panic!("Error when converting {} to StatusCode: {:?}", num, e),
    }
}

#[test]
fn status_code_from_str() {
    let num = "404";
    match StatusCode::from_str(num) {
        Ok(code) => assert_eq!(
            StatusCode::NotFound,
            code,
            "Status code 404 not equal to Not Found"
        ),
        Err(e) => panic!("Error when converting {} to StatusCode: {:?}", num, e),
    }
}

#[test]
fn status_code_to_str() {
    assert_eq!(
        "Accepted",
        StatusCode::Accepted.to_reason_phrase(),
        "Status code didn't convert correctly to string"
    );
}

#[test]
fn status_code_out_of_set() {
    assert_eq!(Err(ParseStatusCodeError::Invalid), StatusCode::try_from(299));
    assert_eq!(Err(ParseStatusCodeError::Invalid), StatusCode::try_from(0));
    assert_eq!(
        Err(ParseStatusCodeError::Invalid),
        StatusCode::from_str("abc")
    );
    assert_eq!(
        Err(ParseStatusCodeError::Invalid),
        StatusCode::from_str("70000")
    );
    assert_eq!(
        Err(ParseStatusCodeError::Invalid),
        StatusCode::from_str("")
    );
}

#[test]
fn status_code_plus_sign_parses() {
    assert_eq!(Ok(StatusCode::OK), StatusCode::from_str("+200"));
}

#[test]
fn status_code_reason_phrases() {
    assert_eq!("Not Found", StatusCode::NotFound.to_reason_phrase());
    assert_eq!("Continue", StatusCode::Continue.to_reason_phrase());
    assert_eq!(
        "HTTP-Version not supported",
        StatusCode::HTTPVersionnotsupported.to_reason_phrase()
    );
}

#[test]
fn status_code_to_string_numeric() {
    assert_eq!("404", StatusCode::NotFound.to_string());
    assert_eq!("100", StatusCode::Continue.to_string());
    assert_eq!("505", StatusCode::HTTPVersionnotsupported.to_string());
}

#[test]
fn response_not_found() {
    let res = Response::not_found();
    assert_eq!(Response::new(StatusCode::NotFound, String::new()), res);
}

#[test]
fn response_from_string() {
    let res_str = "HTTP/1.1 200 OK\r\nHost: Localhost\r\n\r\nhello world".to_string();
    let res = match Response::try_from(res_str) {
        Ok(res) => res,
        Err(e) => panic!("Should not get error on valid http: {:?}", e),
    };

    let mut expected_res = Response::new(StatusCode::OK, "hello world".to_string());
    expected_res.add_header("Host".to_string(), "Localhost".to_string());

    assert_eq!(expected_res, res);
}

#[test]
fn response_error_kinds() {
    assert_eq!(
        Err(ParseResponseError::Empty),
        Response::try_from(String::new())
    );
    assert_eq!(
        Err(ParseResponseError::Invalid),
        Response::try_from("HTTP/1.1 200 OK".to_string()),
        "A response without any line terminator is invalid"
    );
    assert_eq!(
        Err(ParseResponseError::Invalid),
        Response::try_from("HTTP/1.0 200 OK\r\n\r\n\r\n".to_string()),
        "A foreign protocol version is invalid"
    );
    assert_eq!(
        Err(ParseResponseError::Invalid),
        Response::try_from("HTTP/1.1 299 Whatever\r\n\r\n\r\n".to_string()),
        "An unrecognized status code is invalid"
    );
    assert_eq!(
        Err(ParseResponseError::Empty),
        Response::try_from("HTTP/1.1 200 OK\r\n".to_string()),
        "An empty content propagates its kind"
    );
}
