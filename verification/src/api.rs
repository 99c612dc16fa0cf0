//! Requests to the mihomo controller, and what the manager reads in its answers.
use vstd::prelude::*;
use crate::intent::GlobalConfig;
use crate::json::{JsonValue, as_str, as_u64, field, spec_as_str, spec_as_u64, spec_field};
use crate::text::{decimal, decimal_string, push_char, str_eq};
use vstd::utf8::encode_utf8;

verus! {

/// The HTTP methods that the controller is spoken to with.
#[derive(Debug, Clone, Copy, PartialEq, Eq, Structural)]
pub enum HttpMethod {
    Get,
    Put,
    Patch,
    Delete,
    Post,
}

/// A request to the controller: method, full URL, and the value of the
/// `Authorization` header, if one is sent.
#[derive(Debug)]
pub struct HttpRequest {
    pub method: HttpMethod,
    pub url: String,
    pub authorization: Option<String>,
}

/// What can go wrong when speaking to the controller.
#[derive(Debug, Clone, Copy, PartialEq, Eq, Structural)]
pub enum ApiError {
    /// A request was asked for with a method that is not one of the five known.
    BadMethod,
    /// Selecting a node was answered with this HTTP status.
    SelectFailed(u16),
    /// Reloading the configuration was answered with this HTTP status.
    ReloadFailed(u16),
}

/// A client of the controller: its base URL and its secret.
pub struct Api {
    base: String,
    secret: String,
}

/// The content of an `Api`.
pub struct ApiView {
    pub base: Seq<char>,
    pub secret: Seq<char>,
}

impl View for Api {
    type V = ApiView;

    closed spec fn view(&self) -> ApiView {
        ApiView { base: self.base@, secret: self.secret@ }
    }
}

/// The method named by `m`, if it is one of the five known.
pub open spec fn method_named(m: Seq<char>) -> Option<HttpMethod> {
    if m == "GET"@ {
        Some(HttpMethod::Get)
    } else if m == "PUT"@ {
        Some(HttpMethod::Put)
    } else if m == "PATCH"@ {
        Some(HttpMethod::Patch)
    } else if m == "DELETE"@ {
        Some(HttpMethod::Delete)
    } else if m == "POST"@ {
        Some(HttpMethod::Post)
    } else {
        None
    }
}

/// `q` is the request with method `m` for `path` that `a` makes: its URL is the base
/// followed by the path, and it carries `Bearer <secret>` unless the secret is empty.
pub open spec fn is_request(a: ApiView, m: HttpMethod, path: Seq<char>, q: HttpRequest) -> bool {
    &&& q.method == m
    &&& q.url@ == a.base + path
    &&& if a.secret.len() == 0 {
        q.authorization is None
    } else {
        q.authorization matches Some(h) && h@ == "Bearer "@ + a.secret
    }
}

/// `b` is the JSON object `{ key: value }`.
pub open spec fn is_single_member(b: JsonValue, key: Seq<char>, value: Seq<char>) -> bool {
    &&& b matches JsonValue::Object(members)
    &&& members@.len() == 1
    &&& members@[0].0@ == key
    &&& members@[0].1 matches JsonValue::String(s)
    &&& s@ == value
}

/// Whether byte `b` stands for itself in a path segment.
pub open spec fn is_unreserved(b: u8) -> bool {
    ||| 0x41 <= b <= 0x5a
    ||| 0x61 <= b <= 0x7a
    ||| 0x30 <= b <= 0x39
    ||| b == 0x2d
    ||| b == 0x5f
    ||| b == 0x2e
    ||| b == 0x7e
}

/// The upper-case hexadecimal digit of `n < 16`.
pub open spec fn hex_digit(n: int) -> char {
    if n < 10 {
        ((n + 48) as u32) as char
    } else {
        ((n + 55) as u32) as char
    }
}

/// The encoding of one byte: itself, or `%` and two upper-case hexadecimal digits.
pub open spec fn encode_byte(b: u8) -> Seq<char> {
    if is_unreserved(b) {
        seq![(b as u32) as char]
    } else {
        seq!['%', hex_digit(b as int / 16), hex_digit(b as int % 16)]
    }
}

/// The percent-encoding of a sequence of bytes.
pub open spec fn percent_encode(bytes: Seq<u8>) -> Seq<char>
    decreases bytes.len(),
{
    if bytes.len() == 0 {
        Seq::empty()
    } else {
        encode_byte(bytes[0]) + percent_encode(bytes.drop_first())
    }
}

/// The value of a hexadecimal digit (upper or lower case).
pub open spec fn hex_value(c: char) -> int {
    let n = c as u32;
    if 0x30 <= n <= 0x39 {
        n - 0x30
    } else if 0x41 <= n <= 0x46 {
        n - 0x41 + 10
    } else if 0x61 <= n <= 0x66 {
        n - 0x61 + 10
    } else {
        0
    }
}

/// Percent-decoding: `%` and two hexadecimal digits stand for one byte, any other
/// character for its own code.
pub open spec fn percent_decode(cs: Seq<char>) -> Seq<u8>
    decreases cs.len(),
{
    if cs.len() == 0 {
        Seq::empty()
    } else if cs[0] == '%' && cs.len() >= 3 {
        seq![(hex_value(cs[1]) * 16 + hex_value(cs[2])) as u8] + percent_decode(cs.skip(3))
    } else {
        seq![(cs[0] as u32) as u8] + percent_decode(cs.drop_first())
    }
}

proof fn lemma_percent_encode_push(bytes: Seq<u8>, b: u8)
    ensures
        percent_encode(bytes.push(b)) == percent_encode(bytes) + encode_byte(b),
    decreases bytes.len(),
{
    if bytes.len() == 0 {
        assert(bytes.push(b).drop_first() =~= Seq::<u8>::empty());
        assert(percent_encode(bytes.push(b).drop_first()) == Seq::<char>::empty());
        assert(percent_encode(bytes) == Seq::<char>::empty());
        assert(percent_encode(bytes.push(b)) =~= encode_byte(b) + Seq::<char>::empty());
        assert(percent_encode(bytes.push(b)) =~= percent_encode(bytes) + encode_byte(b));
    } else {
        assert(bytes.push(b).drop_first() =~= bytes.drop_first().push(b));
        lemma_percent_encode_push(bytes.drop_first(), b);
        assert(percent_encode(bytes.push(b)) =~= percent_encode(bytes) + encode_byte(b));
    }
}

/// Percent-encoding loses nothing: decoding gives back the bytes.
pub proof fn lemma_percent_encoding_round_trip(bytes: Seq<u8>)
    ensures
        percent_decode(percent_encode(bytes)) == bytes,
    decreases bytes.len(),
{
    if bytes.len() > 0 {
        let b = bytes[0];
        let rest = percent_encode(bytes.drop_first());
        let cs = encode_byte(b) + rest;
        lemma_percent_encoding_round_trip(bytes.drop_first());
        if is_unreserved(b) {
            assert(cs[0] == (b as u32) as char);
            assert(cs.drop_first() =~= rest);
            assert(((b as u32) as char) as u32 == b as u32);
        } else {
            let hi = b as int / 16;
            let lo = b as int % 16;
            assert(cs[0] == '%');
            assert(cs[1] == hex_digit(hi));
            assert(cs[2] == hex_digit(lo));
            assert(cs.skip(3) =~= rest);
            assert(hex_value(hex_digit(hi)) == hi);
            assert(hex_value(hex_digit(lo)) == lo);
        }
        assert(percent_decode(cs) =~= seq![b] + bytes.drop_first());
        assert(bytes =~= seq![b] + bytes.drop_first());
    }
}

/// Every character of an encoding is an unreserved character, `%`, or a hexadecimal digit.
pub proof fn lemma_percent_encoding_is_ascii(bytes: Seq<u8>)
    ensures
        forall|i: int|
            0 <= i < percent_encode(bytes).len() ==> (#[trigger] percent_encode(bytes)[i] as u32)
                < 128,
    decreases bytes.len(),
{
    if bytes.len() > 0 {
        lemma_percent_encoding_is_ascii(bytes.drop_first());
        let e = encode_byte(bytes[0]);
        let r = percent_encode(bytes.drop_first());
        assert forall|i: int| 0 <= i < percent_encode(bytes).len() implies (
        #[trigger] percent_encode(bytes)[i] as u32) < 128 by {
            if i < e.len() {
                assert(percent_encode(bytes)[i] == e[i]);
            } else {
                assert(percent_encode(bytes)[i] == r[i - e.len()]);
            }
        }
    }
}

/// A character that a path segment keeps as itself: `[A-Za-z0-9-_.~]`.
pub open spec fn is_unreserved_char(c: char) -> bool {
    ||| 'A' <= c <= 'Z'
    ||| 'a' <= c <= 'z'
    ||| '0' <= c <= '9'
    ||| c == '-'
    ||| c == '_'
    ||| c == '.'
    ||| c == '~'
}

/// An upper-case hexadecimal digit.
pub open spec fn is_upper_hex(c: char) -> bool {
    ('0' <= c <= '9') || ('A' <= c <= 'F')
}

/// How many of `bytes` stand for themselves.
pub open spec fn unreserved_count(bytes: Seq<u8>) -> nat
    decreases bytes.len(),
{
    if bytes.len() == 0 {
        0
    } else {
        (if is_unreserved(bytes[0]) {
            1nat
        } else {
            0nat
        }) + unreserved_count(bytes.drop_first())
    }
}

/// The shape of a percent-encoding: one character for each unreserved byte and three
/// for every other; only unreserved characters and `%`; every `%` followed by two
/// upper-case hexadecimal digits; and bytes that are all unreserved come out as they are.
pub proof fn lemma_percent_encoding_shape(bytes: Seq<u8>)
    ensures
        percent_encode(bytes).len() == unreserved_count(bytes) + 3 * (bytes.len()
            - unreserved_count(bytes)),
        unreserved_count(bytes) <= bytes.len(),
        forall|i: int|
            0 <= i < percent_encode(bytes).len() ==> is_unreserved_char(
                #[trigger] percent_encode(bytes)[i],
            ) || percent_encode(bytes)[i] == '%',
        forall|i: int|
            0 <= i < percent_encode(bytes).len() && #[trigger] percent_encode(bytes)[i] == '%'
                ==> i + 2 < percent_encode(bytes).len() && is_upper_hex(percent_encode(bytes)[i + 1])
                && is_upper_hex(percent_encode(bytes)[i + 2]),
        (forall|i: int| 0 <= i < bytes.len() ==> is_unreserved(#[trigger] bytes[i]))
            ==> percent_encode(bytes) == bytes.map_values(|b: u8| (b as u32) as char),
    decreases bytes.len(),
{
    if bytes.len() > 0 {
        let b = bytes[0];
        let t = bytes.drop_first();
        lemma_percent_encoding_shape(t);
        let e = encode_byte(b);
        let r = percent_encode(t);
        let all = percent_encode(bytes);
        assert(all == e + r);
        let hi = b as int / 16;
        let lo = b as int % 16;
        assert(is_upper_hex(hex_digit(hi)) && is_upper_hex(hex_digit(lo)));
        assert(is_unreserved(b) ==> is_unreserved_char((b as u32) as char));
        assert(!is_unreserved_char('%'));
        assert forall|i: int| 0 <= i < all.len() implies is_unreserved_char(#[trigger] all[i])
            || all[i] == '%' by {
            if i >= e.len() {
                assert(all[i] == r[i - e.len()]);
            }
        }
        assert forall|i: int| 0 <= i < all.len() && #[trigger] all[i] == '%' implies i + 2
            < all.len() && is_upper_hex(all[i + 1]) && is_upper_hex(all[i + 2]) by {
            if i >= e.len() {
                assert(all[i] == r[i - e.len()]);
                assert(all[i + 1] == r[i - e.len() + 1]);
                assert(all[i + 2] == r[i - e.len() + 2]);
            } else if is_unreserved(b) {
                assert(all[i] == (b as u32) as char);
            } else {
                assert(i == 0);
            }
        }
        if forall|i: int| 0 <= i < bytes.len() ==> is_unreserved(#[trigger] bytes[i]) {
            assert forall|i: int| 0 <= i < t.len() implies is_unreserved(#[trigger] t[i]) by {
                assert(t[i] == bytes[i + 1]);
            }
            assert(is_unreserved(bytes[0]));
            assert(all =~= bytes.map_values(|b: u8| (b as u32) as char));
        }
    }
}

/// A name made only of unreserved characters is used in a path as it is.
pub proof fn lemma_unreserved_name_unchanged(s: Seq<char>)
    requires
        forall|i: int| 0 <= i < s.len() ==> is_unreserved_char(#[trigger] s[i]),
    ensures
        percent_encode(encode_utf8(s)) == s,
{
    assert(vstd::utf8::is_ascii_chars(s));
    vstd::utf8::is_ascii_chars_encode_utf8(s);
    let bytes = encode_utf8(s);
    assert forall|i: int| 0 <= i < bytes.len() implies is_unreserved(#[trigger] bytes[i]) by {
        assert(bytes[i] == s[i] as u8);
        assert(is_unreserved_char(s[i]));
    }
    lemma_percent_encoding_shape(bytes);
    assert forall|i: int| 0 <= i < s.len() implies ((bytes[i] as u32) as char) == s[i] by {
        assert(bytes[i] == s[i] as u8);
    }
    assert(bytes.map_values(|b: u8| (b as u32) as char) =~= s);
}

fn hex_char(n: u8) -> (c: char)
    requires
        n < 16,
    ensures
        c == hex_digit(n as int),
{
    if n < 10 {
        (n + 48) as char
    } else {
        (n + 55) as char
    }
}

/// Minimal path-segment encoding for proxy names (UTF-8 bytes, percent-encoded).
pub fn urlencoding_path(s: &str) -> (out: String)
    ensures
        out@ == percent_encode(encode_utf8(s@)),
{
    let bytes = s.as_bytes();
    let mut out = String::new();
    let mut i: usize = 0;
    while i < bytes.len()
        invariant
            i <= bytes@.len(),
            bytes@ == encode_utf8(s@),
            out@ == percent_encode(bytes@.take(i as int)),
        decreases bytes@.len() - i,
    {
        let b = bytes[i];
        let ghost before = out@;
        if (0x41 <= b && b <= 0x5a) || (0x61 <= b && b <= 0x7a) || (0x30 <= b && b <= 0x39) || b
            == 0x2d || b == 0x5f || b == 0x2e || b == 0x7e {
            push_char(&mut out, b as char);
        } else {
            push_char(&mut out, '%');
            push_char(&mut out, hex_char(b / 16));
            push_char(&mut out, hex_char(b % 16));
        }
        proof {
            assert(out@ =~= before + encode_byte(b));
            lemma_percent_encode_push(bytes@.take(i as int), b);
            assert(bytes@.take(i + 1) =~= bytes@.take(i as int).push(b));
        }
        i = i + 1;
    }
    proof {
        assert(bytes@.take(bytes@.len() as int) =~= bytes@);
    }
    out
}

/// The address of the probe that delay tests are made against, already encoded.
pub open spec fn delay_probe() -> Seq<char> {
    "https%3A%2F%2Fwww.gstatic.com%2Fgenerate_204"@
}

/// The path of a delay test of `name` with a timeout in milliseconds.
pub open spec fn delay_path(name: Seq<char>, timeout_ms: u64) -> Seq<char> {
    "/proxies/"@ + percent_encode(encode_utf8(name)) + "/delay?timeout="@ + decimal(
        timeout_ms as nat,
    ) + "&url="@ + delay_probe()
}

fn json_single_member(key: &str, value: &str) -> (b: JsonValue)
    ensures
        is_single_member(b, key@, value@),
{
    let mut members: Vec<(String, JsonValue)> = Vec::new();
    members.push((key.to_string(), JsonValue::String(value.to_string())));
    JsonValue::Object(members)
}

impl Api {
    /// A client of the controller that the settings name.
    pub fn new(global: &GlobalConfig) -> (r: Api)
        ensures
            r@.base == "http://"@ + global.controller@,
            r@.secret == global.secret@,
    {
        let mut base = "http://".to_string();
        base.append(global.controller.as_str());
        Api { base, secret: global.secret.clone() }
    }

    /// The request with method `method` for `path`.
    pub fn req(&self, method: &str, path: &str) -> (r: Result<HttpRequest, ApiError>)
        ensures
            match method_named(method@) {
                Some(m) => r matches Ok(q) && is_request(self@, m, path@, q),
                None => r == Err::<HttpRequest, ApiError>(ApiError::BadMethod),
            },
    {
        let m = if str_eq(method, "GET") {
            HttpMethod::Get
        } else if str_eq(method, "PUT") {
            HttpMethod::Put
        } else if str_eq(method, "PATCH") {
            HttpMethod::Patch
        } else if str_eq(method, "DELETE") {
            HttpMethod::Delete
        } else if str_eq(method, "POST") {
            HttpMethod::Post
        } else {
            return Err(ApiError::BadMethod);
        };
        let mut url = self.base.clone();
        url.append(path);
        let authorization = if self.secret.as_str().is_empty() {
            None
        } else {
            let mut h = "Bearer ".to_string();
            h.append(self.secret.as_str());
            Some(h)
        };
        Ok(HttpRequest { method: m, url, authorization })
    }

    /// `GET /version`.
    pub fn version_request(&self) -> (q: HttpRequest)
        ensures
            is_request(self@, HttpMethod::Get, "/version"@, q),
    {
        proof {
            reveal_strlit("GET");
        }
        match self.req("GET", "/version") {
            Ok(q) => q,
            Err(_) => {
                proof {
                    assert(false);
                }
                HttpRequest { method: HttpMethod::Get, url: String::new(), authorization: None }
            },
        }
    }

    /// `GET /proxies`.
    pub fn proxies_request(&self) -> (q: HttpRequest)
        ensures
            is_request(self@, HttpMethod::Get, "/proxies"@, q),
    {
        proof {
            reveal_strlit("GET");
        }
        match self.req("GET", "/proxies") {
            Ok(q) => q,
            Err(_) => {
                proof {
                    assert(false);
                }
                HttpRequest { method: HttpMethod::Get, url: String::new(), authorization: None }
            },
        }
    }

    /// `PUT /proxies/<group>` with body `{"name": <name>}`: selects node `name` in `group`.
    pub fn select_request(&self, group: &str, name: &str) -> (r: (HttpRequest, JsonValue))
        ensures
            is_request(self@, HttpMethod::Put, "/proxies/"@ + percent_encode(encode_utf8(group@)), r.0),
            is_single_member(r.1, "name"@, name@),
    {
        let mut path = "/proxies/".to_string();
        let enc = urlencoding_path(group);
        path.append(enc.as_str());
        proof {
            reveal_strlit("GET");
            reveal_strlit("PUT");
            assert("PUT"@[0] != "GET"@[0]);
        }
        let q = match self.req("PUT", path.as_str()) {
            Ok(q) => q,
            Err(_) => {
                proof {
                    assert(false);
                }
                HttpRequest { method: HttpMethod::Put, url: String::new(), authorization: None }
            },
        };
        (q, json_single_member("name", name))
    }

    /// `GET /proxies/<name>/delay?timeout=<ms>&url=<probe>`: a delay test of node `name`.
    pub fn delay_request(&self, name: &str, timeout_ms: u64) -> (q: HttpRequest)
        ensures
            is_request(self@, HttpMethod::Get, delay_path(name@, timeout_ms), q),
    {
        let mut path = "/proxies/".to_string();
        let enc = urlencoding_path(name);
        path.append(enc.as_str());
        path.append("/delay?timeout=");
        let t = decimal_string(timeout_ms);
        path.append(t.as_str());
        path.append("&url=");
        path.append("https%3A%2F%2Fwww.gstatic.com%2Fgenerate_204");
        proof {
            reveal_strlit("GET");
        }
        match self.req("GET", path.as_str()) {
            Ok(q) => q,
            Err(_) => {
                proof {
                    assert(false);
                }
                HttpRequest { method: HttpMethod::Get, url: String::new(), authorization: None }
            },
        }
    }

    /// `PUT /configs?force=true` with body `{"path": <config_path>}`: makes mihomo
    /// load the configuration file at `config_path`.
    pub fn reload_request(&self, config_path: &str) -> (r: (HttpRequest, JsonValue))
        ensures
            is_request(self@, HttpMethod::Put, "/configs?force=true"@, r.0),
            is_single_member(r.1, "path"@, config_path@),
    {
        proof {
            reveal_strlit("GET");
            reveal_strlit("PUT");
            assert("PUT"@[0] != "GET"@[0]);
        }
        let q = match self.req("PUT", "/configs?force=true") {
            Ok(q) => q,
            Err(_) => {
                proof {
                    assert(false);
                }
                HttpRequest { method: HttpMethod::Put, url: String::new(), authorization: None }
            },
        };
        (q, json_single_member("path", config_path))
    }
}

/// The version that an answer to `GET /version` reports, or `?`.
pub open spec fn reported_version(v: JsonValue) -> Seq<char> {
    match spec_as_str(spec_field(Some(v), "version"@)) {
        Some(s) => s,
        None => "?"@,
    }
}

/// Reads the version out of an answer to `GET /version`.
pub fn version_from_reply(v: &JsonValue) -> (r: String)
    ensures
        r@ == reported_version(*v),
{
    match as_str(field(Some(v), "version")) {
        Some(s) => s.clone(),
        None => "?".to_string(),
    }
}

/// The delay in milliseconds that an answer to a delay test reports, or 0.
pub open spec fn reported_delay(v: JsonValue) -> u64 {
    match spec_as_u64(spec_field(Some(v), "delay"@)) {
        Some(n) => n,
        None => 0,
    }
}

/// Reads the delay out of an answer to a delay test.
pub fn delay_from_reply(v: &JsonValue) -> (r: u64)
    ensures
        r == reported_delay(*v),
{
    match as_u64(field(Some(v), "delay")) {
        Some(n) => n,
        None => 0,
    }
}

/// Selecting a node failed when it was answered with a status of 300 or more.
pub fn select_outcome(status: u16) -> (r: Result<(), ApiError>)
    ensures
        status >= 300 ==> r == Err::<(), ApiError>(ApiError::SelectFailed(status)),
        status < 300 ==> r is Ok,
{
    if status >= 300 {
        Err(ApiError::SelectFailed(status))
    } else {
        Ok(())
    }
}

/// Reloading succeeded when it was answered with a status below 300.
pub fn reload_outcome(status: u16) -> (r: Result<(), ApiError>)
    ensures
        status >= 300 ==> r == Err::<(), ApiError>(ApiError::ReloadFailed(status)),
        status < 300 ==> r is Ok,
{
    if status < 300 {
        Ok(())
    } else {
        Err(ApiError::ReloadFailed(status))
    }
}

} // verus!
