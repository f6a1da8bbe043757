use rustique::install::{
    contains_string, eula_contents, server_jar_path, suggested_name, validate_install_path,
};
use rustique::paths::{join_path, Platform};
use rustique::registry::Config;

#[test]
fn install_path_must_be_relative_and_non_empty() {
    assert!(!validate_install_path(""));
    assert!(!validate_install_path("server"));
    assert!(!validate_install_path("/srv/server"));
    assert!(!validate_install_path("."));
    assert!(validate_install_path("./"));
    assert!(validate_install_path("./server"));
}

#[test]
fn suggested_name_strips_dot_slash() {
    assert_eq!(suggested_name("./server"), "server");
    assert_eq!(suggested_name("plain"), "plain");
    assert_eq!(suggested_name("././twice"), "twice");
    assert_eq!(suggested_name(""), "");
}

#[test]
fn jar_lands_inside_the_directory() {
    assert_eq!(server_jar_path("./server"), "./server/server.jar");
}

#[test]
fn eula_acknowledgment_text() {
    assert_eq!(eula_contents(), "eula=true\n");
}

#[test]
fn contains_string_finds_only_offered_choices() {
    let choices = vec![String::from("1.20"), String::from("1.19")];
    assert!(contains_string(&choices, "1.20"));
    assert!(contains_string(&choices, "1.19"));
    assert!(!contains_string(&choices, "1.18"));
    assert!(!contains_string(&choices, ""));
}

#[test]
fn join_path_inserts_separator_only_when_needed() {
    assert_eq!(join_path("a", "b"), "a/b");
    assert_eq!(join_path("a/", "b"), "a/b");
    assert_eq!(join_path("", "b"), "b");
}

#[test]
fn default_config_path_per_platform() {
    let base = String::from("/home/jade/.config");
    assert_eq!(
        Config::default_config_path(Platform::Other, Some(&base)),
        "/home/jade/.config/rustique/config.toml"
    );
    assert_eq!(
        Config::default_config_path(Platform::Other, None),
        "/etc/rustique/config.toml"
    );
    assert_eq!(
        Config::default_config_path(Platform::Windows, None),
        "C:/rustique/config.toml"
    );
    let home = String::from("/Users/jade");
    assert_eq!(
        Config::default_config_path(Platform::MacOs, Some(&home)),
        "/Users/jade/.config/rustique/config.toml"
    );
    assert_eq!(
        Config::default_config_path(Platform::MacOs, None),
        "/Users/.config/rustique/config.toml"
    );
}
