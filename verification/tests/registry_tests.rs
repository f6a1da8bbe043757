use rustique::registry::{Config, Server};

fn record(name: &str, path: &str, server_type: &str, version: &str) -> Server {
    Server::build_record(name, path, server_type, version)
}

#[test]
fn get_server_returns_first_match_among_duplicates() {
    let mut config = Config::new();
    config.add_server(record("a", "/srv/one", "paper", "1.19"));
    config.add_server(record("b", "/srv/two", "paper", "1.20"));
    config.add_server(record("a", "/srv/three", "velocity", "3.3"));

    let found = config.get_server("a").expect("first duplicate should be found");
    assert_eq!(found.path, "/srv/one");
    assert_eq!(found.version, "1.19");
}

#[test]
fn get_server_absent_for_unknown_name() {
    let mut config = Config::new();
    config.add_server(record("a", "/srv/one", "paper", "1.19"));
    assert!(config.get_server("never-inserted").is_none());
}

#[test]
fn get_server_on_empty_registry() {
    let config = Config::new();
    assert!(config.get_server("a").is_none());
}

#[test]
fn remove_server_drops_every_match() {
    let mut config = Config::new();
    config.add_server(record("a", "/srv/one", "paper", "1.19"));
    config.add_server(record("b", "/srv/two", "paper", "1.20"));
    config.add_server(record("a", "/srv/three", "velocity", "3.3"));

    let doomed = record("a", "/srv/one", "paper", "1.19");
    config.remove_server(&doomed);

    assert_eq!(config.servers.len(), 1);
    assert_eq!(config.servers[0].name, "b");
}

#[test]
fn remove_server_keeps_order_of_rest() {
    let mut config = Config::new();
    config.add_server(record("x", "/1", "paper", "1"));
    config.add_server(record("y", "/2", "paper", "2"));
    config.add_server(record("x", "/3", "paper", "3"));
    config.add_server(record("z", "/4", "paper", "4"));

    config.remove_server(&record("x", "", "", ""));

    let names: Vec<&str> = config.servers.iter().map(|s| s.name.as_str()).collect();
    assert_eq!(names, vec!["y", "z"]);
}

#[test]
fn display_lines_number_and_describe_each_record() {
    let mut config = Config::new();
    config.add_server(record("alpha", "/srv/alpha", "paper", "1.20"));
    config.add_server(record("beta", "/srv/beta", "velocity", "3.3"));
    let lines = config.display_lines();
    assert_eq!(
        lines,
        vec![
            String::from("Server #1:"),
            String::from(" -> Name: alpha"),
            String::from(" -> Path: /srv/alpha"),
            String::from(" -> Type: paper"),
            String::from(" -> Version: 1.20"),
            String::from("Server #2:"),
            String::from(" -> Name: beta"),
            String::from(" -> Path: /srv/beta"),
            String::from(" -> Type: velocity"),
            String::from(" -> Version: 3.3"),
        ]
    );
}

#[test]
fn display_lines_of_empty_registry() {
    let config = Config::new();
    assert!(config.display_lines().is_empty());
}

#[test]
fn add_server_appends_at_the_end() {
    let mut config = Config::new();
    config.add_server(record("first", "/1", "paper", "1"));
    config.add_server(record("second", "/2", "paper", "2"));
    assert_eq!(config.servers.len(), 2);
    assert_eq!(config.servers[1].name, "second");
}
