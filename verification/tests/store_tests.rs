use rustique::registry::{Config, Server};
use rustique::store::{load_step, StoreError};

fn record(name: &str, path: &str, server_type: &str, version: &str) -> Server {
    Server::build_record(name, path, server_type, version)
}

fn assert_same(a: &Config, b: &Config) {
    assert_eq!(a.servers.len(), b.servers.len());
    for (x, y) in a.servers.iter().zip(b.servers.iter()) {
        assert_eq!(x.name, y.name);
        assert_eq!(x.path, y.path);
        assert_eq!(x.server_type, y.server_type);
        assert_eq!(x.version, y.version);
    }
}

#[test]
fn round_trip_empty_registry() {
    let config = Config::new();
    let text = config.render();
    let back = Config::parse(&text).expect("rendered text must parse");
    assert_same(&config, &back);
}

#[test]
fn round_trip_one_record() {
    let mut config = Config::new();
    config.add_server(record("test", "/srv/test", "paper", "1.20"));
    let text = config.render();
    let back = Config::parse(&text).expect("rendered text must parse");
    assert_same(&config, &back);
}

#[test]
fn round_trip_many_records_with_hostile_fields() {
    let mut config = Config::new();
    config.add_server(record("quote\"inside", "/srv/a", "paper", "1.20"));
    config.add_server(record("back\\slash", "C:\\games\\mc", "velocity", "3.3"));
    config.add_server(record("newline\nin name", "/srv/c", "paper", "line1\nline2"));
    config.add_server(record("", "", "", ""));
    config.add_server(record("unicode \u{30b5}\u{30fc}\u{30d0}", "/srv/\u{e9}", "paper", "1.20.4"));
    let text = config.render();
    let back = Config::parse(&text).expect("rendered text must parse");
    assert_same(&config, &back);
}

#[test]
fn double_round_trip_is_stable() {
    let mut config = Config::new();
    config.add_server(record("a", "/1", "paper", "1.19"));
    config.add_server(record("b", "/2", "paper", "1.20"));
    let text1 = config.render();
    let loaded1 = Config::parse(&text1).expect("first parse");
    let text2 = loaded1.render();
    assert_eq!(text1, text2);
    let loaded2 = Config::parse(&text2).expect("second parse");
    assert_same(&loaded1, &loaded2);
}

#[test]
fn rendered_text_is_exactly_the_fixed_layout() {
    let mut config = Config::new();
    config.add_server(record("test", "/srv/test", "paper", "1.20"));
    let text = config.render();
    assert_eq!(
        text,
        "[[servers]]\nname = \"test\"\npath = \"/srv/test\"\nserver_type = \"paper\"\nversion = \"1.20\"\n"
    );
}

#[test]
fn rendered_text_escapes_quotes_and_backslashes() {
    let mut config = Config::new();
    config.add_server(record("a\"b", "c\\d", "t", "v"));
    let text = config.render();
    assert_eq!(
        text,
        "[[servers]]\nname = \"a\\\"b\"\npath = \"c\\\\d\"\nserver_type = \"t\"\nversion = \"v\"\n"
    );
}

#[test]
fn parse_rejects_garbage() {
    assert_eq!(Config::parse("not a registry").unwrap_err(), StoreError::Malformed);
    assert_eq!(Config::parse("[[servers]]\n").unwrap_err(), StoreError::Malformed);
    assert_eq!(
        Config::parse("[[servers]]\nname = \"unterminated").unwrap_err(),
        StoreError::Malformed
    );
    assert_eq!(
        Config::parse("[[servers]]\nname = \"bad\\escape\"\n").unwrap_err(),
        StoreError::Malformed
    );
}

#[test]
fn parse_rejects_trailing_junk() {
    let mut config = Config::new();
    config.add_server(record("a", "/1", "paper", "1.19"));
    let mut text = config.render();
    text.push_str("extra");
    assert!(Config::parse(&text).is_err());
}

#[test]
fn bootstrap_creates_empty_registry_and_is_idempotent() {
    let first = load_step(None).expect("missing file bootstraps");
    assert_eq!(first.0.servers.len(), 0);
    let doc = first.1.expect("bootstrap must hand back the text to write");

    let second = load_step(Some(&doc)).expect("bootstrap text must load");
    assert_eq!(second.0.servers.len(), 0);
    assert!(second.1.is_none());
}

#[test]
fn load_step_reads_existing_file_contents() {
    let mut config = Config::new();
    config.add_server(record("srv", "/x", "paper", "1.20"));
    let text = config.render();
    let loaded = load_step(Some(&text)).expect("valid contents load");
    assert_same(&config, &loaded.0);
    assert!(loaded.1.is_none());
}
