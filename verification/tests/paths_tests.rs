use mm::paths::{join, Paths, PathsError};

fn paths() -> Paths {
    Paths { root: "/home/u/.config/mihomo-cli".to_string() }
}

#[test]
fn discover_puts_root_under_config_dir() {
    let p = Paths::discover(Some("/home/u/.config")).unwrap();
    assert_eq!(p.root, "/home/u/.config/mihomo-cli");
    assert!(matches!(Paths::discover(None), Err(PathsError::NoConfigDir)));
}

#[test]
fn layout_matches_readme() {
    let p = paths();
    assert_eq!(p.config_toml(), "/home/u/.config/mihomo-cli/config.toml");
    assert_eq!(p.active_file(), "/home/u/.config/mihomo-cli/active");
    assert_eq!(p.profiles_dir(), "/home/u/.config/mihomo-cli/profiles");
    assert_eq!(p.profile_intent("home"), "/home/u/.config/mihomo-cli/profiles/home.toml");
    assert_eq!(p.profile_rules("home"), "/home/u/.config/mihomo-cli/profiles/home.rules.yaml");
    assert_eq!(p.runtime_yaml("home"), "/home/u/.config/mihomo-cli/runtime/home.yaml");
    assert_eq!(p.current_yaml(), "/home/u/.config/mihomo-cli/runtime/current.yaml");
    assert_eq!(p.sub_cache("home"), "/home/u/.config/mihomo-cli/subs/home.yaml");
    assert_eq!(p.run_dir(), "/home/u/.config/mihomo-cli/run");
    assert_eq!(p.unit_path("/home/u/.config"), "/home/u/.config/systemd/user/mihomo-cli.service");
}

#[test]
fn layout_dirs_in_order() {
    let d = paths().layout_dirs();
    let r = "/home/u/.config/mihomo-cli";
    assert_eq!(
        d,
        vec![
            format!("{r}/profiles"),
            format!("{r}/runtime"),
            format!("{r}/subs"),
            format!("{r}/run"),
            format!("{r}/run/providers"),
            format!("{r}/run/ruleset"),
        ]
    );
}

#[test]
fn join_follows_path_rules() {
    assert_eq!(join("/a", "b"), "/a/b");
    assert_eq!(join("/a/", "b"), "/a/b");
    assert_eq!(join("", "b"), "b");
    assert_eq!(join("/a", "/etc/x"), "/etc/x");
    let p = Paths { root: "/r/".to_string() };
    assert_eq!(p.config_toml(), "/r/config.toml");
    assert_eq!(paths().profile_intent("/etc/x"), "/etc/x.toml");
}

#[test]
fn read_active_trims() {
    assert_eq!(Paths::read_active(Some("home\n")).unwrap(), "home");
    assert_eq!(Paths::read_active(Some(" \t a b \r\n")).unwrap(), "a b");
    assert_eq!(Paths::read_active(Some("\u{3000}x\u{85}")).unwrap(), "x");
    assert_eq!(Paths::read_active(Some("")).unwrap(), "");
    assert!(matches!(Paths::read_active(None), Err(PathsError::NoActiveProfile)));
}

#[test]
fn active_reads_back_as_written() {
    for name in ["home", "a-b_c", "x"] {
        let c = Paths::active_contents(name);
        assert_eq!(c, format!("{name}\n"));
        assert_eq!(Paths::read_active(Some(&c)).unwrap(), name);
    }
}

#[test]
fn list_profiles_keeps_toml_stems_sorted() {
    let files: Vec<String> = [
        "b.toml", "a.toml", "a.rules.yaml", ".toml", "x.TOML", "c.d.toml", "notes", "B.toml",
    ]
    .iter()
    .map(|s| s.to_string())
    .collect();
    assert_eq!(Paths::list_profiles(&files), vec!["B", "a", "b", "c.d"]);
    assert!(Paths::list_profiles(&Vec::new()).is_empty());
}

#[test]
fn created_profile_is_listed() {
    let p = paths();
    let intent = p.profile_intent("home");
    let file = intent.rsplit('/').next().unwrap().to_string();
    let listed = Paths::list_profiles(&vec!["zz.toml".to_string(), file]);
    assert!(listed.contains(&"home".to_string()));
}
