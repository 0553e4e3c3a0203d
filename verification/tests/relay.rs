use post_relay::config::{parse_u16, ServerConfig};
use post_relay::posts::{
    add_post, decode_new_post, decode_post, decode_request, encode_new_post, encode_post,
    index_response, ApiConfig, ApiError, ApplicationError, NewPost, Post, PostAdder, ReplyBody,
};

/// A test double for the upstream system: echoes the submitted post back
/// with a fixed identifier, without network I/O.
struct FakeApiClient {}

impl FakeApiClient {
    fn new() -> Self {
        Self {}
    }
}

impl PostAdder for FakeApiClient {
    fn add(&self, new_post: &NewPost) -> Result<Post, ApiError> {
        Ok(Post {
            id: 101,
            title: new_post.title.clone(),
            body: new_post.body.clone(),
            user_id: new_post.user_id,
        })
    }
}

#[test]
fn happy_path_() {
    let body = br#"{"userId":1,"title":"new post who dis?","body":"lorem ipsum blah, blah, blah"}"#
        .to_vec();
    let new_post = match decode_request(&body) {
        Ok(p) => p,
        Err(_) => panic!("a well-formed body must decode"),
    };
    assert_eq!(new_post.title, b"new post who dis?".to_vec());
    assert_eq!(new_post.body, b"lorem ipsum blah, blah, blah".to_vec());
    assert_eq!(new_post.user_id, 1);

    let client = FakeApiClient::new();
    let outcome = client.add(&new_post);
    let reply = add_post(outcome);
    assert_eq!(reply.status, 200);
    match reply.body {
        ReplyBody::Json(bytes) => assert_eq!(
            bytes,
            br#"{"id":101,"title":"new post who dis?","body":"lorem ipsum blah, blah, blah","userId":1}"#
                .to_vec()
        ),
        _ => panic!("a created post is relayed back as JSON"),
    }
}

#[test]
fn new_post_round_trip() {
    let p = NewPost { title: b"t".to_vec(), body: b"b".to_vec(), user_id: 1 };
    let wire = encode_new_post(&p);
    assert_eq!(wire, br#"{"title":"t","body":"b","userId":1}"#.to_vec());
    let back = decode_new_post(&wire).expect("the encoding must decode");
    assert_eq!(back.title, p.title);
    assert_eq!(back.body, p.body);
    assert_eq!(back.user_id, p.user_id);
}

#[test]
fn wire_field_name_is_camel_case() {
    let p = NewPost { title: b"t".to_vec(), body: b"b".to_vec(), user_id: 7 };
    let wire = encode_new_post(&p);
    let text = String::from_utf8(wire).expect("the encoding of ASCII fields is ASCII");
    assert!(text.contains("\"userId\":7"));
    assert!(!text.contains("user_id"));
}

#[test]
fn post_round_trip_with_escapes() {
    let p = Post {
        id: u64::MAX,
        title: b"a \"quoted\" name".to_vec(),
        body: vec![0x5c, 0x0a, 0x09, 0x01, 0x7f, 0xff],
        user_id: 0,
    };
    let wire = encode_post(&p);
    let back = decode_post(&wire).expect("the encoding must decode");
    assert_eq!(back.id, p.id);
    assert_eq!(back.title, p.title);
    assert_eq!(back.body, p.body);
    assert_eq!(back.user_id, p.user_id);
}

#[test]
fn decode_accepts_any_member_order_and_whitespace() {
    let body = b" { \"body\" : \"b\" , \"userId\" : 42 , \"title\" : \"t\" } ".to_vec();
    let p = decode_new_post(&body).expect("order and whitespace are free");
    assert_eq!(p.title, b"t".to_vec());
    assert_eq!(p.body, b"b".to_vec());
    assert_eq!(p.user_id, 42);
}

#[test]
fn decode_unescapes_strings() {
    let body = br#"{"title":"a\n\t\"\\\/b","body":"A\u007f","userId":3}"#.to_vec();
    let p = decode_new_post(&body).expect("escapes are understood");
    assert_eq!(p.title, b"a\n\t\"\\/b".to_vec());
    assert_eq!(p.body, b"A\x7f".to_vec());
}

#[test]
fn missing_field_is_a_client_error() {
    let body = br#"{"userId":1,"body":"lorem"}"#.to_vec();
    match decode_request(&body) {
        Ok(_) => panic!("a body without a title must not reach the outbound client"),
        Err(reply) => {
            assert_eq!(reply.status, 400);
            assert!(matches!(reply.body, ReplyBody::Empty));
        },
    }
}

#[test]
fn malformed_bodies_are_refused() {
    let cases: Vec<&[u8]> = vec![
        b"",
        b"{}",
        b"not json at all",
        br#"{"title":"t","body":"b","userId":1"#,
        br#"{"title":"t","body":"b","userId":1} trailing"#,
        br#"{"title":"t","body":"b","userId":-1}"#,
        br#"{"title":"t","body":"b","userId":"1"}"#,
        br#"{"title":7,"body":"b","userId":1}"#,
        br#"{"title":"t","title":"u","userId":1}"#,
        br#"{"title":"t","body":"b","userId":1,"extra":2}"#,
        br#"{"title":"t","body":"b","userId":01}"#,
        br#"{"title":"t","body":"b","userId":18446744073709551616}"#,
        br#"{"title":"t\q","body":"b","userId":1}"#,
        br#"{"title":"t","body":"b","userId":1.5}"#,
    ];
    for case in cases {
        assert!(decode_new_post(&case.to_vec()).is_none());
    }
}

#[test]
fn upstream_body_must_be_a_full_post() {
    // A valid `NewPost` body is not a `Post`: the `id` member is missing.
    assert!(decode_post(&br#"{"title":"t","body":"b","userId":1}"#.to_vec()).is_none());
    assert!(decode_post(&br#"{"id":1,"title":"t","body":"b","userId":1,"x":2}"#.to_vec())
        .is_none());
    assert!(decode_post(&b"".to_vec()).is_none());
    let p = decode_post(&br#"{ "userId" : 1 , "id" : 2 , "title" : "t" , "body" : "b" }"#.to_vec())
        .expect("order and whitespace are free");
    assert_eq!(p.id, 2);
    assert_eq!(p.user_id, 1);
}

#[test]
fn unicode_escape_accepts_upper_case_hex() {
    let body = br#"{"title":"\u004A\u006b","body":"b","userId":1}"#.to_vec();
    let p = decode_new_post(&body).expect("four-digit ASCII escapes are understood");
    assert_eq!(p.title, b"Jk".to_vec());
    // Escapes that name a code point past ASCII are not understood.
    assert!(decode_new_post(&br#"{"title":"\u00ff","body":"b","userId":1}"#.to_vec()).is_none());
    assert!(decode_new_post(&br#"{"title":"\u0141","body":"b","userId":1}"#.to_vec()).is_none());
}

#[test]
fn number_bounds_round_trip() {
    let max = format!("{{\"title\":\"t\",\"body\":\"b\",\"userId\":{}}}", u64::MAX);
    let p = decode_new_post(&max.into_bytes()).expect("u64::MAX fits");
    assert_eq!(p.user_id, u64::MAX);

    let zero = NewPost { title: b"".to_vec(), body: b"".to_vec(), user_id: 0 };
    assert_eq!(encode_new_post(&zero), br#"{"title":"","body":"","userId":0}"#.to_vec());
}

#[test]
fn upstream_failures_collapse_to_one_response() {
    let failures = vec![
        ApiError::Tcp("connection refused".to_string()),
        ApiError::HttpResponse("500 Internal Server Error".to_string()),
        ApiError::JsonParse("expected value at line 1".to_string()),
    ];
    for e in failures {
        let reply = add_post(Err(e));
        assert_eq!(reply.status, 500);
        match reply.body {
            ReplyBody::Text(t) => assert_eq!(t, "An internal server error occurred"),
            _ => panic!("the error body is the fixed plain text"),
        }
    }
}

#[test]
fn upstream_success_is_relayed_unchanged() {
    let post = Post { id: 9, title: b"t".to_vec(), body: b"b".to_vec(), user_id: 3 };
    let reply = add_post(Ok(post));
    assert_eq!(reply.status, 200);
    match reply.body {
        ReplyBody::Json(bytes) => {
            assert_eq!(bytes, br#"{"id":9,"title":"t","body":"b","userId":3}"#.to_vec())
        },
        _ => panic!("a created post is relayed back as JSON"),
    }
}

#[test]
fn error_messages_name_the_kind() {
    assert_eq!(
        ApiError::Tcp("boom".to_string()).message(),
        "Received TCP error\nboom"
    );
    assert_eq!(
        ApiError::HttpResponse("418".to_string()).message(),
        "Received HTTP error status code\n418"
    );
    assert_eq!(
        ApiError::JsonParse("eof".to_string()).message(),
        "Error parsing JSON response\neof"
    );
    let app_err = ApplicationError::InternalError;
    assert_eq!(app_err.status_code(), 500);
    assert_eq!(app_err.message(), "An internal server error occurred");
}

#[test]
fn index_is_empty_ok() {
    let reply = index_response();
    assert_eq!(reply.status, 200);
    assert!(matches!(reply.body, ReplyBody::Empty));
}

#[test]
fn server_config_defaults_and_parsing() {
    let c = ServerConfig::new(None, None).expect("defaults always work");
    assert_eq!(c.host_name, "127.0.0.1");
    assert_eq!(c.port, 8080);
    let (host, port) = c.to_address();
    assert_eq!(host, "127.0.0.1");
    assert_eq!(port, 8080);

    let c = ServerConfig::new(Some("0.0.0.0".to_string()), Some("1234".to_string()))
        .expect("a valid port parses");
    assert_eq!(c.host_name, "0.0.0.0");
    assert_eq!(c.port, 1234);

    assert!(ServerConfig::new(None, Some("65536".to_string())).is_none());
    assert!(ServerConfig::new(None, Some("twelve".to_string())).is_none());
    assert!(ServerConfig::new(None, Some("".to_string())).is_none());
    assert!(ServerConfig::new(None, Some("-1".to_string())).is_none());

    assert_eq!(parse_u16("+8080"), Some(8080));
    assert_eq!(parse_u16("0080"), Some(80));
    assert_eq!(parse_u16("65535"), Some(65535));
    assert_eq!(parse_u16("+"), None);
}

#[test]
fn api_config_defaults_and_url() {
    let c = ApiConfig::new(None);
    assert_eq!(c.api_url, "https://jsonplaceholder.typicode.com");
    assert_eq!(c.posts_url(), "https://jsonplaceholder.typicode.com/posts");

    let c = ApiConfig::new(Some("http://localhost:9000".to_string()));
    assert_eq!(c.posts_url(), "http://localhost:9000/posts");
}
