use mm::paths::Paths;
use mm::systemd::{
    daemon_reload, enable_start, ensure_unit_exists, is_active_query, resolve_bin,
    resolved_by_which, restart, shell_escape, status_query, stop, systemctl_outcome, unit_content,
    BinLookup, SystemdError,
};

fn unescape(s: &str) -> String {
    let inner = &s[1..s.len() - 1];
    inner.replace("\\\"", "\"")
}

#[test]
fn shell_escape_quotes_paths() {
    assert_eq!(shell_escape("/usr/bin/mihomo"), "\"/usr/bin/mihomo\"");
    assert_eq!(shell_escape("a\"b"), "\"a\\\"b\"");
    assert_eq!(shell_escape(""), "\"\"");
}

#[test]
fn shell_escape_round_trips() {
    for s in ["/opt/my dir/mihomo", "q\"uo\"te", "back\\slash", "\\\""] {
        assert_eq!(unescape(&shell_escape(s)), s);
    }
}

#[test]
fn unit_content_exact() {
    let p = Paths { root: "/home/u/.config/mihomo-cli".to_string() };
    let expected = "[Unit]
Description=mihomo (mihomo-cli)
After=network-online.target
Wants=network-online.target

[Service]
Type=simple
ExecStart=\"/usr/bin/mihomo\" -d \"/home/u/.config/mihomo-cli/run\" -f \"/home/u/.config/mihomo-cli/runtime/current.yaml\"
Restart=on-failure
RestartSec=2
LimitNOFILE=1048576

[Install]
WantedBy=default.target
";
    assert_eq!(unit_content(&p, "/usr/bin/mihomo"), expected);
}

#[test]
fn bin_with_slash_is_a_path() {
    assert!(matches!(resolve_bin("/opt/mihomo"), BinLookup::Path(p) if p == "/opt/mihomo"));
    assert!(matches!(resolve_bin("./mihomo"), BinLookup::Path(_)));
    assert!(matches!(resolve_bin("mihomo"), BinLookup::Which));
}

#[test]
fn which_output_is_trimmed_or_not_found() {
    assert_eq!(resolved_by_which("mihomo", true, "/usr/bin/mihomo\n").unwrap(), "/usr/bin/mihomo");
    assert!(matches!(
        resolved_by_which("mihomo", false, ""),
        Err(SystemdError::BinaryNotFound(n)) if n == "mihomo"
    ));
}

#[test]
fn systemctl_arguments() {
    assert_eq!(daemon_reload(), vec!["--user", "daemon-reload"]);
    assert_eq!(enable_start(), vec!["--user", "enable", "--now", "mihomo-cli.service"]);
    assert_eq!(stop(), vec!["--user", "stop", "mihomo-cli.service"]);
    assert_eq!(restart(), vec!["--user", "restart", "mihomo-cli.service"]);
    assert_eq!(is_active_query(), vec!["--user", "is-active", "--quiet", "mihomo-cli.service"]);
    assert_eq!(status_query(), vec!["--user", "status", "mihomo-cli.service", "--no-pager"]);
}

#[test]
fn systemctl_failure_keeps_arguments() {
    assert!(systemctl_outcome(stop(), true).is_ok());
    match systemctl_outcome(stop(), false) {
        Err(SystemdError::Failed(a)) => assert_eq!(a, vec!["--user", "stop", "mihomo-cli.service"]),
        _ => panic!("expected failure"),
    }
}

#[test]
fn unit_is_written_only_when_missing() {
    assert!(ensure_unit_exists(false));
    assert!(!ensure_unit_exists(true));
}
