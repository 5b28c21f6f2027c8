use tidytui::discovery::{detect_os, OsType};
use tidytui::registry::{
    definition_search_paths, filter_rules, select_definition_source, ConfigError, Definitions,
    Group, Rule,
};

fn rule(os: &str, path: &str) -> Rule {
    Rule { os: os.to_string(), path: path.to_string() }
}

fn group(id: &str, name: &str, rules: Vec<Rule>) -> Group {
    Group { id: id.to_string(), name: name.to_string(), description: None, rules }
}

fn sample() -> Definitions {
    Definitions {
        groups: vec![
            group(
                "pkg",
                "Package cache",
                vec![rule("arch", "/var/cache/pacman/pkg"), rule("debian", "/var/cache/apt")],
            ),
            group("trash", "Trash", vec![rule("any", "~/.local/share/Trash")]),
            group("logs", "Logs", vec![rule("fedora", "/var/log/journal"), rule("any", "~/.logs")]),
        ],
    }
}

fn triple(a: &str, b: &str, c: &str) -> (String, String, String) {
    (a.to_string(), b.to_string(), c.to_string())
}

#[test]
fn filter_keeps_platform_and_wildcard_rules_in_order() {
    let got = filter_rules(&sample(), &OsType::Arch);
    assert_eq!(
        got,
        vec![
            triple("pkg", "Package cache", "/var/cache/pacman/pkg"),
            triple("trash", "Trash", "~/.local/share/Trash"),
            triple("logs", "Logs", "~/.logs"),
        ]
    );
}

#[test]
fn filter_for_fedora() {
    let got = filter_rules(&sample(), &OsType::Fedora);
    assert_eq!(
        got,
        vec![
            triple("trash", "Trash", "~/.local/share/Trash"),
            triple("logs", "Logs", "/var/log/journal"),
            triple("logs", "Logs", "~/.logs"),
        ]
    );
}

#[test]
fn unknown_platform_matches_only_wildcards() {
    let got = filter_rules(&sample(), &OsType::Unknown("gentoo".to_string()));
    assert_eq!(
        got,
        vec![triple("trash", "Trash", "~/.local/share/Trash"), triple("logs", "Logs", "~/.logs")]
    );
}

#[test]
fn filter_of_empty_definitions_is_empty() {
    let got = filter_rules(&Definitions { groups: vec![] }, &OsType::Debian);
    assert!(got.is_empty());
}

#[test]
fn detect_known_families_and_derivatives() {
    assert_eq!(detect_os(Some("arch")), OsType::Arch);
    assert_eq!(detect_os(Some("manjaro")), OsType::Arch);
    assert_eq!(detect_os(Some("endeavouros")), OsType::Arch);
    assert_eq!(detect_os(Some("pop")), OsType::Ubuntu);
    assert_eq!(detect_os(Some("mint")), OsType::Ubuntu);
    assert_eq!(detect_os(Some("debian")), OsType::Debian);
    assert_eq!(detect_os(Some("rhel")), OsType::Fedora);
    assert_eq!(detect_os(Some("centos")), OsType::Fedora);
    assert_eq!(detect_os(Some("opensuse-tumbleweed")), OsType::OpenSuse);
    assert_eq!(detect_os(Some("suse")), OsType::OpenSuse);
}

#[test]
fn detect_unknown_keeps_raw_id_and_unreadable_is_unknown() {
    assert_eq!(detect_os(Some("gentoo")), OsType::Unknown("gentoo".to_string()));
    assert_eq!(detect_os(None), OsType::Unknown("unknown".to_string()));
}

#[test]
fn platform_tags() {
    assert_eq!(OsType::OpenSuse.tag(), "opensuse");
    assert_eq!(OsType::Unknown("x".to_string()).tag(), "any");
}

#[test]
fn search_paths_in_precedence_order() {
    assert_eq!(
        definition_search_paths(Some("/home/u/.config".to_string())),
        vec![
            "definitions.yaml".to_string(),
            "/home/u/.config/tidytui/definitions.yaml".to_string(),
            "/usr/share/tidytui/definitions.yaml".to_string(),
        ]
    );
    assert_eq!(
        definition_search_paths(Some("/home/u/.config/".to_string()))[1],
        "/home/u/.config/tidytui/definitions.yaml"
    );
    assert_eq!(
        definition_search_paths(None),
        vec!["definitions.yaml".to_string(), "/usr/share/tidytui/definitions.yaml".to_string()]
    );
}

#[test]
fn first_existing_source_wins() {
    assert_eq!(select_definition_source(&vec![false, true, true]), Ok(1));
    assert_eq!(select_definition_source(&vec![true, false]), Ok(0));
}

#[test]
fn no_existing_source_is_not_found() {
    assert_eq!(select_definition_source(&vec![false, false, false]), Err(ConfigError::NotFound));
    assert_eq!(select_definition_source(&vec![]), Err(ConfigError::NotFound));
}

#[test]
fn id_comes_first_and_unknown_matches_only_wildcards() {
    let defs = Definitions {
        groups: vec![group("g", "G", vec![rule("arch", "/a"), rule("any", "/b")])],
    };
    assert_eq!(
        filter_rules(&defs, &OsType::Unknown("arch".to_string())),
        vec![triple("g", "G", "/b")]
    );
    assert_eq!(
        filter_rules(&defs, &OsType::Arch),
        vec![triple("g", "G", "/a"), triple("g", "G", "/b")]
    );
}
