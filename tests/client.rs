use ghlabel::client::{ApiError, Client, Method, CREATED, NO_CONTENT, OK};
use ghlabel::label::Label;
use ghlabel::reconcile::Action;

fn client() -> Client {
    Client::new("rust", "SECRET-REDACTED", "rust-lang", "https://api.github.com")
}

fn label(name: &str, color: &str, url: &str) -> Label {
    Label { color: color.to_string(), name: name.to_string(), url: url.to_string() }
}

#[test]
fn collection_url() {
    assert_eq!(client().labels_url(), "https://api.github.com/repos/rust-lang/rust/labels");
}

#[test]
fn list_request() {
    let r = client().list();
    assert_eq!(r.method, Method::Get);
    assert_eq!(r.url, "https://api.github.com/repos/rust-lang/rust/labels");
    assert_eq!(r.body, None);
    assert_eq!(r.expected_status, 200);
}

#[test]
fn create_request() {
    let r = client().create(&label("bug", "fc2929", "ignored"));
    assert_eq!(r.method, Method::Post);
    assert_eq!(r.url, "https://api.github.com/repos/rust-lang/rust/labels");
    assert_eq!(r.body, Some("{\"name\": \"bug\",\"color\":\"fc2929\"}".to_string()));
    assert_eq!(r.expected_status, CREATED);
}

#[test]
fn update_request() {
    let r = client().update(&label("bug", "fc2929", "url1"));
    assert_eq!(r.method, Method::Patch);
    assert_eq!(r.url, "url1");
    assert_eq!(r.body, Some("{\"name\": \"bug\",\"color\":\"fc2929\"}".to_string()));
    assert_eq!(r.expected_status, OK);
}

#[test]
fn delete_request() {
    let r = client().delete(&label("bug", "fc2929", "url1"));
    assert_eq!(r.method, Method::Delete);
    assert_eq!(r.url, "url1");
    assert_eq!(r.body, None);
    assert_eq!(r.expected_status, NO_CONTENT);
}

#[test]
fn headers_carry_token_and_user() {
    let h = client().headers();
    assert_eq!(h.len(), 2);
    assert_eq!(h[0], ("Authorization".to_string(), "Bearer SECRET-REDACTED".to_string()));
    assert_eq!(h[1], ("User-Agent".to_string(), "rust-lang".to_string()));
}

#[test]
fn json_body() {
    assert_eq!(client().to_json_string(&label("a b", "000000", "u")), "{\"name\": \"a b\",\"color\":\"000000\"}");
}

#[test]
fn list_with_server_error_carries_body() {
    let r = client().list();
    match r.check_response(500, "boom".to_string()) {
        Err(ApiError::NotOk(b)) => assert_eq!(b, "boom"),
        other => panic!("unexpected {:?}", other),
    }
}

#[test]
fn expected_status_passes_body_through() {
    let r = client().list();
    match r.check_response(200, "[]".to_string()) {
        Ok(b) => assert_eq!(b, "[]"),
        other => panic!("unexpected {:?}", other),
    }
    let r = client().create(&label("bug", "fc2929", "u"));
    assert!(r.check_response(200, String::new()).is_err());
    assert!(r.check_response(201, String::new()).is_ok());
    let r = client().delete(&label("bug", "fc2929", "u"));
    assert!(r.check_response(200, String::new()).is_err());
    assert!(r.check_response(204, String::new()).is_ok());
}

#[test]
fn dry_run_sends_nothing() {
    let actions = vec![
        Action::Create(label("a", "111111", "ua")),
        Action::Update(label("b", "222222", "ub")),
        Action::Delete(label("c", "333333", "uc")),
    ];
    assert!(client().requests_for(&actions, true).is_empty());
    let live = client().requests_for(&actions, false);
    assert_eq!(live.len(), 3);
    assert_eq!(live[0].method, Method::Post);
    assert_eq!(live[1].method, Method::Patch);
    assert_eq!(live[1].url, "ub");
    assert_eq!(live[2].method, Method::Delete);
    assert_eq!(live[2].url, "uc");
}

fn parsed_body(body: &str) -> (String, String) {
    let v = rustc_serialize::json::Json::from_str(body).unwrap();
    let o = v.as_object().unwrap();
    assert_eq!(o.len(), 2);
    (
        o.get("name").unwrap().as_string().unwrap().to_string(),
        o.get("color").unwrap().as_string().unwrap().to_string(),
    )
}

#[test]
fn json_body_escapes_quote_backslash_control() {
    let name = "a\"b\\c\u{1}d\ne";
    let body = client().to_json_string(&label(name, "fc2929", "u"));
    assert_eq!(body, "{\"name\": \"a\\\"b\\\\c\\u0001d\\u000ae\",\"color\":\"fc2929\"}");
    assert_eq!(parsed_body(&body), (name.to_string(), "fc2929".to_string()));
}

#[test]
fn json_body_parses_back_for_plain_and_unicode_names() {
    for name in ["bug", "good first issue", "é ü 漢字", "", "tab\there\u{1f}"] {
        let r = client().create(&label(name, "00ff00", "u"));
        assert_eq!(parsed_body(r.body.as_ref().unwrap()), (name.to_string(), "00ff00".to_string()));
        let r = client().update(&label(name, "00ff00", "u"));
        assert_eq!(parsed_body(r.body.as_ref().unwrap()), (name.to_string(), "00ff00".to_string()));
    }
}

#[test]
fn io_error_converts() {
    let e = std::io::Error::new(std::io::ErrorKind::Other, "x");
    assert!(matches!(ApiError::from(e), ApiError::Io(_)));
}
