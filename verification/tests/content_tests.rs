use http::{Content, Contentable, ParseContentError};

#[test]
fn content_from_empty_string() {
    let content_str = "\r\n\r\n".to_string();
    let content = match Content::try_from(content_str.clone()) {
        Ok(content) => content,
        Err(e) => panic!("Error: {:?}: {}", e, content_str),
    };
    assert_eq!(
        Content::default(),
        content,
        "Default content not equal to content from empty string"
    );
}

#[test]
fn content_from_empty_string_unvalid() {
    let content_str = "\r\n".to_string();
    match Content::try_from(content_str.clone()) {
        Ok(_) => panic!("Should not get content when not following protocol."),
        Err(_) => {}
    };
}

#[test]
fn content_from_string() {
    let content_str = "Host: Localhost\r\nCache: 3000\r\n\r\nHello world in the body".to_string();
    let content = match Content::try_from(content_str.clone()) {
        Ok(content) => content,
        Err(e) => panic!("Should not get error on valid http: {:?}", e),
    };

    let mut expected_content = Content::new("Hello world in the body".to_string());
    expected_content.add_header("Host".to_string(), "Localhost".to_string());
    expected_content.add_header("Cache".to_string(), "3000".to_string());

    assert_eq!(
        expected_content, content,
        "Did not parse content into expected structure"
    );
}

#[test]
fn content_from_unvalid_string_header() {
    let content_str = "Host: Localhost\r\nCache 3000\r\n\r\nHello world in the body".to_string();
    match Content::try_from(content_str.clone()) {
        Ok(_) => panic!("Should get error when unvalid http"),
        Err(_) => {}
    };
}

#[test]
fn content_use_headers() {
    let mut cont = Content::new("hello_world".to_string());
    cont.add_header("Host".to_string(), "Localhost".to_string());

    assert_eq!(
        Some("Localhost"),
        cont.has_header("Host"),
        "Didn't return expected value for header"
    );
    assert_eq!(
        Some("Localhost"),
        cont.has_header("Host"),
        "Content gave away ownership when getting header"
    );
}

#[test]
fn replace_body() {
    let mut cont = Content::new("{\"username\": \"johnny\"}".to_string());
    cont.add_header("Host".to_string(), "Localhost".to_string());

    assert_eq!(
        "{\"username\": \"johnny\"}",
        cont.get_body(),
        "Didn't give back the correct body"
    );

    let old_body = cont.set_body("{\"username\": \"karl\"}".to_string());

    assert_eq!(
        "{\"username\": \"johnny\"}", old_body,
        "Didn't give back the correct \"old\" body after replacement"
    );

    assert_eq!(
        "{\"username\": \"karl\"}",
        cont.get_body(),
        "Didn't give back the correct body after replacement"
    );
}

#[test]
fn content_from_string_empty_valid() {
    let content_str = "\r\n\r\n".to_string();
    let content = match Content::try_from(content_str.clone()) {
        Ok(content) => content,
        Err(e) => panic!("Error: {:?}: {}", e, content_str),
    };
    assert_eq!(Content::default(), content);
}

#[test]
fn content_from_string_empty_unvalid() {
    let content_str = "\r\n".to_string();
    match Content::try_from(content_str.clone()) {
        Ok(_) => panic!("Should not get content when not following protocol."),
        Err(_) => {}
    };
}

#[test]
fn content_from_string_valid() {
    let content_str = "Host: Localhost\r\nCache: 3000\r\n\r\nHello world in the body".to_string();
    let content = match Content::try_from(content_str.clone()) {
        Ok(content) => content,
        Err(e) => panic!("Error: {:?}: {}", e, content_str),
    };

    let mut expected_content = Content::new("Hello world in the body".to_string());
    expected_content.add_header("Host".to_string(), "Localhost".to_string());
    expected_content.add_header("Cache".to_string(), "3000".to_string());

    assert_eq!(expected_content, content);
}

#[test]
fn content_from_string_unvalid_header() {
    let content_str = "Host: Localhost\r\nCache 3000\r\n\r\nHello world in the body".to_string();
    match Content::try_from(content_str.clone()) {
        Ok(_) => panic!("Should get error when not correct HTTP-format."),
        Err(_) => {}
    };
}

#[test]
fn content_headerless_body() {
    let content = Content::try_from("\r\n\r\nHello world in the body".to_string())
        .expect("A header-less body should parse");
    assert_eq!(Content::new("Hello world in the body".to_string()), content);
}

#[test]
fn content_error_kinds() {
    assert_eq!(
        Err(ParseContentError::Empty),
        Content::try_from(String::new())
    );
    assert_eq!(
        Err(ParseContentError::Invalid),
        Content::try_from("\r\n".to_string())
    );
    assert_eq!(
        Err(ParseContentError::Invalid),
        Content::try_from("Host: Localhost\r\nCache 3000\r\n\r\n".to_string())
    );
}

#[test]
fn content_lf_separator() {
    let content = Content::try_from("Host: Localhost\n\nplain body".to_string())
        .expect("A bare line-feed separator is accepted");
    assert_eq!(Some("Localhost"), content.has_header("Host"));
    assert_eq!("plain body", content.get_body());
}

#[test]
fn content_duplicate_header_last_wins() {
    let content = Content::try_from("Host: one\r\nHost: two\r\n\r\n".to_string())
        .expect("Duplicate headers are accepted");
    assert_eq!(Some("two"), content.has_header("Host"));
}

#[test]
fn content_header_trimming() {
    let content = Content::try_from("  Host  :   Localhost  \r\n\r\n".to_string())
        .expect("Padded header lines should parse");
    assert_eq!(Some("Localhost"), content.has_header("Host"));
}

#[test]
fn content_to_string_joins_headers() {
    let mut cont = Content::new("body".to_string());
    cont.add_header("Host".to_string(), "Localhost".to_string());
    assert_eq!("Host: Localhost\r\n\r\nbody", cont.to_string());
}

#[test]
fn content_add_header_returns_previous() {
    let mut cont = Content::new(String::new());
    assert_eq!(
        None,
        cont.add_header("Host".to_string(), "one".to_string())
    );
    assert_eq!(
        Some("one".to_string()),
        cont.add_header("Host".to_string(), "two".to_string())
    );
    assert_eq!(Some("two"), cont.has_header("Host"));
}
