use mm::commands::{
    delay_error_line, delay_line, delay_targets, intent_for_sub_add, node_list_lines,
    profile_list_line, profile_present, profile_use_step, reload_after_update, reload_step,
    status_active_line, status_node, status_service_line, sub_list_line, sub_update_targets,
    tun_setting, up_step, validate_name, api_wait_step, gen_target, init_writes_config,
    update_source, ApplyStep, CommandError, GenTarget, UpStep, WaitStep, API_WAIT_ATTEMPTS,
};
use mm::intent::Intent;
use mm::json::{JsonNumber, JsonValue};

fn object(members: Vec<(&str, JsonValue)>) -> JsonValue {
    JsonValue::Object(members.into_iter().map(|(k, v)| (k.to_string(), v)).collect())
}

fn st(s: &str) -> JsonValue {
    JsonValue::String(s.to_string())
}

fn proxies_reply() -> JsonValue {
    object(vec![(
        "proxies",
        object(vec![
            ("DIRECT", object(vec![("type", st("Direct"))])),
            (
                "PROXY",
                object(vec![
                    ("type", st("Selector")),
                    ("now", st("b")),
                    (
                        "all",
                        JsonValue::Array(vec![
                            st("DIRECT"),
                            st("a"),
                            st("b"),
                            JsonValue::Number(JsonNumber::PosInt(5)),
                            st("REJECT"),
                        ]),
                    ),
                ]),
            ),
        ]),
    )])
}

fn local_intent(tun: bool) -> Intent {
    Intent { subscription: None, mixed_port: Some(17897), tun, nodes: Vec::new() }
}

#[test]
fn valid_names() {
    assert!(validate_name("home").is_ok());
    assert!(validate_name("my_sub-1").is_ok());
    assert!(validate_name("ABC").is_ok());
}

#[test]
fn invalid_names() {
    for n in ["", "a b", "héllo", "a/b", "a.b", "../x"] {
        assert!(matches!(validate_name(n), Err(CommandError::InvalidName)), "{n}");
    }
}

#[test]
fn tun_on_only_for_on() {
    assert!(tun_setting("on"));
    assert!(!tun_setting("off"));
    assert!(!tun_setting("ON"));
}

#[test]
fn sub_add_keeps_existing_profile_but_its_url() {
    let i = intent_for_sub_add(Some(local_intent(false)), "https://new");
    assert_eq!(i.subscription.as_deref(), Some("https://new"));
    assert_eq!(i.mixed_port, Some(17897));
    assert!(!i.tun);
    let j = intent_for_sub_add(None, "https://x");
    assert_eq!(j.subscription.as_deref(), Some("https://x"));
    assert!(j.tun);
    assert_eq!(j.mixed_port, None);
}

#[test]
fn sub_list_lines() {
    let i = Intent::new_with_sub("https://u");
    assert_eq!(sub_list_line("home", Some("home"), &i).unwrap(), "* home\thttps://u");
    assert_eq!(sub_list_line("home", Some("work"), &i).unwrap(), "  home\thttps://u");
    assert_eq!(sub_list_line("home", None, &i).unwrap(), "  home\thttps://u");
    assert!(sub_list_line("home", None, &local_intent(true)).is_none());
}

#[test]
fn profile_list_lines() {
    assert_eq!(profile_list_line("home", None, &local_intent(false)), "  home\tlocal\tnotun");
    let i = Intent::new_with_sub("u");
    assert_eq!(profile_list_line("home", Some("home"), &i), "* home\tsub\ttun");
}

#[test]
fn sub_update_targets_and_reload() {
    let all = vec!["a".to_string(), "b".to_string()];
    assert_eq!(sub_update_targets(Some("b"), all.clone()), vec!["b"]);
    assert_eq!(sub_update_targets(None, all.clone()), all);
    assert!(reload_after_update(None, Some("a")));
    assert!(reload_after_update(Some("a"), Some("a")));
    assert!(!reload_after_update(Some("b"), Some("a")));
    assert!(!reload_after_update(None, None));
}

#[test]
fn reload_steps() {
    assert_eq!(reload_step(true, false).unwrap(), ApplyStep::ApiReload);
    assert_eq!(reload_step(true, true).unwrap(), ApplyStep::ApiReload);
    assert_eq!(reload_step(false, true).unwrap(), ApplyStep::Restart);
    assert!(matches!(reload_step(false, false), Err(CommandError::NotRunning)));
}

#[test]
fn profile_use_steps() {
    assert!(profile_present("home", true).is_ok());
    assert!(matches!(profile_present("home", false), Err(CommandError::ProfileNotFound(n)) if n == "home"));
    assert_eq!(profile_use_step(true, true), ApplyStep::ApiReload);
    assert_eq!(profile_use_step(true, false), ApplyStep::Restart);
    assert_eq!(profile_use_step(false, true), ApplyStep::NotRunning);
}

#[test]
fn up_steps() {
    assert_eq!(up_step(true), UpStep::Restart);
    assert_eq!(up_step(false), UpStep::EnableStart);
    assert_eq!(API_WAIT_ATTEMPTS, 20);
}

#[test]
fn status_lines() {
    assert_eq!(status_active_line(Some("home")), "active:  home");
    assert_eq!(status_active_line(None), "active:  (none)");
    assert_eq!(status_service_line(true), "service: active");
    assert_eq!(status_service_line(false), "service: inactive");
    assert_eq!(status_node(&proxies_reply()).as_deref(), Some("b"));
    assert_eq!(status_node(&object(vec![])), None);
}

#[test]
fn node_list_marks_selected() {
    assert_eq!(node_list_lines(&proxies_reply()), vec!["  DIRECT", "  a", "* b", "  ?", "  REJECT"]);
    assert!(node_list_lines(&JsonValue::Null).is_empty());
}

#[test]
fn delay_skips_builtins() {
    assert_eq!(delay_targets(&proxies_reply()), vec!["a", "b", "?"]);
    assert!(delay_targets(&object(vec![])).is_empty());
}

#[test]
fn delay_lines() {
    assert_eq!(delay_line(45, "a"), "   45 ms  a");
    assert_eq!(delay_line(0, "a"), "    0 ms  a");
    assert_eq!(delay_line(123456, "b"), "123456 ms  b");
    assert_eq!(delay_error_line("c"), "  err     c");
}

#[test]
fn api_wait_steps() {
    assert_eq!(api_wait_step(0, true), WaitStep::Done);
    assert_eq!(api_wait_step(0, false), WaitStep::SleepThenAsk);
    assert_eq!(api_wait_step(18, false), WaitStep::SleepThenAsk);
    assert_eq!(api_wait_step(19, false), WaitStep::SleepThenStop);
}

#[test]
fn init_and_update_and_gen_decisions() {
    assert!(init_writes_config(false));
    assert!(!init_writes_config(true));
    assert_eq!(update_source(&Intent::new_with_sub("u")).as_deref(), Some("u"));
    assert_eq!(update_source(&local_intent(true)), None);
    assert!(matches!(gen_target(Some("x")), GenTarget::Named(n) if n == "x"));
    assert!(matches!(gen_target(None), GenTarget::Active));
}
