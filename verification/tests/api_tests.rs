use mm::api::{
    delay_from_reply, reload_outcome, select_outcome, urlencoding_path, version_from_reply, Api,
    ApiError, HttpMethod,
};
use mm::intent::GlobalConfig;
use mm::json::{JsonNumber, JsonValue};

fn global(controller: &str, secret: &str) -> GlobalConfig {
    GlobalConfig {
        mihomo_bin: "mihomo".to_string(),
        controller: controller.to_string(),
        secret: secret.to_string(),
        mixed_port: 7897,
    }
}

fn object(members: Vec<(&str, JsonValue)>) -> JsonValue {
    JsonValue::Object(members.into_iter().map(|(k, v)| (k.to_string(), v)).collect())
}

fn percent_decode(s: &str) -> Vec<u8> {
    let b = s.as_bytes();
    let mut out = Vec::new();
    let mut i = 0;
    while i < b.len() {
        if b[i] == b'%' && i + 2 < b.len() {
            let hex = std::str::from_utf8(&b[i + 1..i + 3]).unwrap();
            out.push(u8::from_str_radix(hex, 16).unwrap());
            i += 3;
        } else {
            out.push(b[i]);
            i += 1;
        }
    }
    out
}

#[test]
fn urlencoding_keeps_unreserved_characters() {
    assert_eq!(urlencoding_path("HK-01_a.b~Z9"), "HK-01_a.b~Z9");
    assert_eq!(urlencoding_path(""), "");
}

#[test]
fn urlencoding_escapes_other_bytes_in_upper_case_hex() {
    assert_eq!(urlencoding_path("a/b c"), "a%2Fb%20c");
    assert_eq!(
        urlencoding_path("🇭🇰 HK-01"),
        "%F0%9F%87%AD%F0%9F%87%B0%20HK-01"
    );
    assert_eq!(urlencoding_path("%"), "%25");
}

#[test]
fn urlencoding_round_trips() {
    for s in ["🇭🇰 HK-01", "a/b?c=d&e", "plain", "%41", "日本 ノード"] {
        assert_eq!(percent_decode(&urlencoding_path(s)), s.as_bytes().to_vec());
    }
}

#[test]
fn new_builds_base_url_from_controller() {
    let api = Api::new(&global("127.0.0.1:9090", ""));
    let q = api.req("GET", "/version").unwrap();
    assert_eq!(q.method, HttpMethod::Get);
    assert_eq!(q.url, "http://127.0.0.1:9090/version");
    assert_eq!(q.authorization, None);
}

#[test]
fn secret_gives_bearer_header() {
    let api = Api::new(&global("127.0.0.1:19090", "s3cr3t"));
    let q = api.req("DELETE", "/connections").unwrap();
    assert_eq!(q.method, HttpMethod::Delete);
    assert_eq!(q.url, "http://127.0.0.1:19090/connections");
    assert_eq!(q.authorization, Some("Bearer s3cr3t".to_string()));
}

#[test]
fn all_five_methods_are_known() {
    let api = Api::new(&global("h:1", ""));
    assert_eq!(api.req("PUT", "/").unwrap().method, HttpMethod::Put);
    assert_eq!(api.req("PATCH", "/").unwrap().method, HttpMethod::Patch);
    assert_eq!(api.req("POST", "/").unwrap().method, HttpMethod::Post);
}

#[test]
fn unknown_method_is_refused() {
    let api = Api::new(&global("h:1", ""));
    assert!(matches!(api.req("FOO", "/"), Err(ApiError::BadMethod)));
    assert!(matches!(api.req("get", "/"), Err(ApiError::BadMethod)));
}

#[test]
fn version_and_proxies_requests() {
    let api = Api::new(&global("127.0.0.1:9090", ""));
    let v = api.version_request();
    assert_eq!(v.method, HttpMethod::Get);
    assert_eq!(v.url, "http://127.0.0.1:9090/version");
    let p = api.proxies_request();
    assert_eq!(p.url, "http://127.0.0.1:9090/proxies");
}

#[test]
fn select_request_puts_name_into_group() {
    let api = Api::new(&global("127.0.0.1:9090", ""));
    let (q, body) = api.select_request("PROXY", "🇭🇰 HK-01");
    assert_eq!(q.method, HttpMethod::Put);
    assert_eq!(q.url, "http://127.0.0.1:9090/proxies/PROXY");
    match body {
        JsonValue::Object(m) => {
            assert_eq!(m.len(), 1);
            assert_eq!(m[0].0, "name");
            assert!(matches!(&m[0].1, JsonValue::String(s) if s == "🇭🇰 HK-01"));
        }
        _ => panic!("body is not an object"),
    }
}

#[test]
fn delay_request_has_timeout_and_probe() {
    let api = Api::new(&global("127.0.0.1:9090", ""));
    let q = api.delay_request("HK 1", 3000);
    assert_eq!(q.method, HttpMethod::Get);
    assert_eq!(
        q.url,
        "http://127.0.0.1:9090/proxies/HK%201/delay?timeout=3000&url=https%3A%2F%2Fwww.gstatic.com%2Fgenerate_204"
    );
    let q0 = api.delay_request("a", 0);
    assert!(q0.url.contains("timeout=0&"));
}

#[test]
fn reload_request_names_the_file() {
    let api = Api::new(&global("127.0.0.1:9090", "x"));
    let (q, body) = api.reload_request("/home/u/.config/mihomo-cli/runtime/current.yaml");
    assert_eq!(q.method, HttpMethod::Put);
    assert_eq!(q.url, "http://127.0.0.1:9090/configs?force=true");
    assert_eq!(q.authorization, Some("Bearer x".to_string()));
    match body {
        JsonValue::Object(m) => {
            assert_eq!(m[0].0, "path");
            assert!(matches!(&m[0].1, JsonValue::String(s) if s == "/home/u/.config/mihomo-cli/runtime/current.yaml"));
        }
        _ => panic!("body is not an object"),
    }
}

#[test]
fn version_is_read_or_question_mark() {
    let v = object(vec![("meta", JsonValue::Bool(true)), ("version", JsonValue::String("v1.18.5".to_string()))]);
    assert_eq!(version_from_reply(&v), "v1.18.5");
    assert_eq!(version_from_reply(&object(vec![])), "?");
    assert_eq!(
        version_from_reply(&object(vec![("version", JsonValue::Number(JsonNumber::PosInt(3)))])),
        "?"
    );
    assert_eq!(version_from_reply(&JsonValue::Null), "?");
}

#[test]
fn delay_is_read_or_zero() {
    assert_eq!(delay_from_reply(&object(vec![("delay", JsonValue::Number(JsonNumber::PosInt(123)))])), 123);
    assert_eq!(delay_from_reply(&object(vec![("delay", JsonValue::Number(JsonNumber::NegInt(-1)))])), 0);
    assert_eq!(
        delay_from_reply(&object(vec![("delay", JsonValue::Number(JsonNumber::FloatBits(12.5f64.to_bits())))])),
        0
    );
    assert_eq!(delay_from_reply(&object(vec![("message", JsonValue::String("Timeout".to_string()))])), 0);
}

#[test]
fn select_fails_from_status_300() {
    assert!(select_outcome(204).is_ok());
    assert!(select_outcome(299).is_ok());
    assert_eq!(select_outcome(300), Err(ApiError::SelectFailed(300)));
}

#[test]
fn reload_succeeds_below_300() {
    assert!(reload_outcome(204).is_ok());
    assert_eq!(reload_outcome(400), Err(ApiError::ReloadFailed(400)));
}

#[test]
fn urlencoding_length_and_alphabet() {
    for name in ["🇭🇰 HK-01", "a b/c", "plain-name_1.2~"] {
        let out = urlencoding_path(name);
        let unreserved = name
            .bytes()
            .filter(|b| b.is_ascii_alphanumeric() || b"-_.~".contains(b))
            .count();
        assert_eq!(out.len(), unreserved + 3 * (name.len() - unreserved));
        let b = out.as_bytes();
        for (i, c) in b.iter().enumerate() {
            assert!(c.is_ascii_alphanumeric() || b"-_.~%".contains(c));
            if *c == b'%' {
                assert!(b[i + 1].is_ascii_hexdigit() && !b[i + 1].is_ascii_lowercase());
                assert!(b[i + 2].is_ascii_hexdigit() && !b[i + 2].is_ascii_lowercase());
            }
        }
    }
    assert_eq!(urlencoding_path("plain-name_1.2~"), "plain-name_1.2~");
}
