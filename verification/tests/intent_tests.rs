use mm::intent::{
    default_controller, default_mihomo_bin, default_mixed_port, default_true, GlobalConfig, Intent,
    Node,
};
use mm::tomlval::{toml_to_yaml, TomlValue};
use mm::yaml::{mapping_insert, YamlValue};

fn node(name: &str) -> Node {
    Node {
        name: name.to_string(),
        node_type: "hysteria2".to_string(),
        server: "1.2.3.4".to_string(),
        port: 443,
        password: None,
        sni: None,
        skip_cert_verify: None,
        udp: None,
        up: None,
        down: None,
        alpn: None,
        pin_sha256: None,
        extra: Vec::new(),
    }
}

fn s(v: &str) -> YamlValue {
    YamlValue::String(v.to_string())
}

fn entries(v: &YamlValue) -> &Vec<(String, YamlValue)> {
    match v {
        YamlValue::Mapping(e) => e,
        _ => panic!("not a mapping"),
    }
}

fn keys(v: &YamlValue) -> Vec<String> {
    entries(v).iter().map(|(k, _)| k.clone()).collect()
}

fn dbg(v: &YamlValue) -> String {
    format!("{:?}", v)
}

#[test]
fn global_defaults() {
    let g = GlobalConfig::default();
    assert_eq!(g.mihomo_bin, "mihomo");
    assert_eq!(g.controller, "127.0.0.1:9090");
    assert_eq!(g.secret, "");
    assert_eq!(g.mixed_port, 7897);
    assert_eq!(default_mihomo_bin(), "mihomo");
    assert_eq!(default_controller(), "127.0.0.1:9090");
    assert_eq!(default_mixed_port(), 7897);
    assert!(default_true());
}

#[test]
fn new_with_sub_follows_the_url_with_tun_on() {
    let i = Intent::new_with_sub("https://example.com/sub?t=clash");
    assert_eq!(i.subscription.as_deref(), Some("https://example.com/sub?t=clash"));
    assert_eq!(i.mixed_port, None);
    assert!(i.tun);
    assert!(i.nodes.is_empty());
}

#[test]
fn node_from_readme_example() {
    let mut n = node("home-hy2");
    n.password = Some("secret".to_string());
    n.udp = Some(true);
    let y = n.to_yaml_value();
    assert_eq!(keys(&y), vec!["name", "type", "server", "port", "password", "udp"]);
    let e = entries(&y);
    assert_eq!(dbg(&e[0].1), dbg(&s("home-hy2")));
    assert_eq!(dbg(&e[1].1), dbg(&s("hysteria2")));
    assert_eq!(dbg(&e[2].1), dbg(&s("1.2.3.4")));
    assert_eq!(dbg(&e[3].1), dbg(&YamlValue::Int(443)));
    assert_eq!(dbg(&e[4].1), dbg(&s("secret")));
    assert_eq!(dbg(&e[5].1), dbg(&YamlValue::Bool(true)));
}

#[test]
fn node_with_every_field_in_order() {
    let mut n = node("n");
    n.password = Some("p".to_string());
    n.sni = Some("sni.example".to_string());
    n.skip_cert_verify = Some(false);
    n.udp = Some(true);
    n.up = Some("30 Mbps".to_string());
    n.down = Some("200 Mbps".to_string());
    n.alpn = Some(vec!["h3".to_string(), "h2".to_string()]);
    n.pin_sha256 = Some("abc".to_string());
    let y = n.to_yaml_value();
    assert_eq!(
        keys(&y),
        vec![
            "name", "type", "server", "port", "password", "sni", "skip-cert-verify", "udp", "up",
            "down", "alpn", "pinSHA256"
        ]
    );
    let e = entries(&y);
    assert_eq!(dbg(&e[10].1), dbg(&YamlValue::Sequence(vec![s("h3"), s("h2")])));
}

#[test]
fn extra_fields_are_dashed_and_appended() {
    let mut n = node("n");
    n.extra = vec![
        ("client_fingerprint".to_string(), TomlValue::String("chrome".to_string())),
        ("uuid".to_string(), TomlValue::String("u-1".to_string())),
    ];
    let y = n.to_yaml_value();
    assert_eq!(keys(&y), vec!["name", "type", "server", "port", "client-fingerprint", "uuid"]);
}

#[test]
fn extra_fields_never_replace_own_fields() {
    let mut n = node("mine");
    n.password = Some("own".to_string());
    n.extra = vec![
        ("name".to_string(), TomlValue::String("theirs".to_string())),
        ("password".to_string(), TomlValue::String("x".to_string())),
        ("port".to_string(), TomlValue::Integer(1)),
    ];
    let y = n.to_yaml_value();
    assert_eq!(keys(&y), vec!["name", "type", "server", "port", "password"]);
    assert_eq!(dbg(&entries(&y)[0].1), dbg(&s("mine")));
    assert_eq!(dbg(&entries(&y)[3].1), dbg(&YamlValue::Int(443)));
    assert_eq!(dbg(&entries(&y)[4].1), dbg(&s("own")));
}

#[test]
fn extra_fields_with_unset_reserved_keys_pass_through() {
    let mut n = node("a");
    n.node_type = "trojan".to_string();
    n.server = "s".to_string();
    n.port = 1;
    n.extra = vec![
        ("pinSHA256".to_string(), TomlValue::String("x".to_string())),
        ("skip-cert-verify".to_string(), TomlValue::Boolean(true)),
    ];
    let y = n.to_yaml_value();
    assert_eq!(keys(&y), vec!["name", "type", "server", "port", "pinSHA256", "skip-cert-verify"]);
    assert_eq!(dbg(&entries(&y)[5].1), dbg(&YamlValue::Bool(true)));
}

#[test]
fn sets_key_follows_present_fields() {
    let mut n = node("a");
    assert!(n.sets_key("name") && n.sets_key("type") && n.sets_key("server") && n.sets_key("port"));
    assert!(!n.sets_key("udp"));
    n.udp = Some(false);
    assert!(n.sets_key("udp"));
    assert!(!n.sets_key("uuid"));
}

#[test]
fn extra_fields_that_dash_to_one_key_keep_the_first_place() {
    let mut n = node("n");
    // in key order: "a-b" sorts before "a_b"
    n.extra = vec![
        ("a-b".to_string(), TomlValue::Integer(2)),
        ("a_b".to_string(), TomlValue::Integer(1)),
        ("z".to_string(), TomlValue::Integer(3)),
    ];
    let y = n.to_yaml_value();
    assert_eq!(keys(&y), vec!["name", "type", "server", "port", "a-b", "z"]);
    assert_eq!(dbg(&entries(&y)[4].1), dbg(&YamlValue::Int(1)));
}

#[test]
fn toml_scalars_convert() {
    assert_eq!(dbg(&toml_to_yaml(&TomlValue::String("x".to_string()))), dbg(&s("x")));
    assert_eq!(dbg(&toml_to_yaml(&TomlValue::Integer(-7))), dbg(&YamlValue::Int(-7)));
    assert_eq!(dbg(&toml_to_yaml(&TomlValue::Boolean(false))), dbg(&YamlValue::Bool(false)));
    let bits = 1.5f64.to_bits();
    assert_eq!(dbg(&toml_to_yaml(&TomlValue::FloatBits(bits))), dbg(&YamlValue::FloatBits(bits)));
    assert_eq!(
        dbg(&toml_to_yaml(&TomlValue::Datetime("1979-05-27T07:32:00Z".to_string()))),
        dbg(&s("1979-05-27T07:32:00Z"))
    );
}

#[test]
fn toml_array_and_table_convert() {
    let t = TomlValue::Table(vec![
        ("alpn".to_string(), TomlValue::Array(vec![TomlValue::String("h3".to_string())])),
        ("obfs".to_string(), TomlValue::Table(vec![("mode".to_string(), TomlValue::String("salamander".to_string()))])),
    ]);
    let expected = YamlValue::Mapping(vec![
        ("alpn".to_string(), YamlValue::Sequence(vec![s("h3")])),
        ("obfs".to_string(), YamlValue::Mapping(vec![("mode".to_string(), s("salamander"))])),
    ]);
    assert_eq!(dbg(&toml_to_yaml(&t)), dbg(&expected));
}

#[test]
fn mapping_insert_replaces_in_place_or_appends() {
    let mut m: Vec<(String, YamlValue)> = Vec::new();
    mapping_insert(&mut m, "a".to_string(), YamlValue::Int(1));
    mapping_insert(&mut m, "b".to_string(), YamlValue::Int(2));
    mapping_insert(&mut m, "a".to_string(), YamlValue::Int(3));
    assert_eq!(m.len(), 2);
    assert_eq!(m[0].0, "a");
    assert_eq!(dbg(&m[0].1), dbg(&YamlValue::Int(3)));
    assert_eq!(m[1].0, "b");
}
