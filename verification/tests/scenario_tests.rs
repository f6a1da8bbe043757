//! The whole install-run-delete flow against a stubbed catalog, driven
//! through the library the way the command-line front end drives it.

use rustique::install::{contains_string, server_jar_path, validate_install_path};
use rustique::registry::{Config, Server};
use rustique::resolver::{sort_versions_desc, ServerManager};
use rustique::store::load_step;

#[test]
fn install_then_delete_leaves_no_trace() {
    // The operator chooses a relative directory and a name.
    let directory = "./test";
    assert!(validate_install_path(directory));

    // A stubbed catalog answers the build listing for paper 1.20.
    let stub_builds_response = "{\"builds\":[5,4]}";
    let mut builds =
        ServerManager::extract_builds(stub_builds_response).expect("stub response parses");
    sort_versions_desc(&mut builds);
    assert_eq!(builds, vec![String::from("5"), String::from("4")]);
    let build = builds[0].clone();
    assert!(contains_string(&builds, &build));

    // The download target follows from the choices.
    let manager = ServerManager::new("paper", directory);
    let url = manager.construct_download_url("1.20", &build);
    assert_eq!(
        url,
        "https://papermc.io/api/v2/projects/paper/versions/1.20/builds/5/downloads/paper-1.20-5.jar"
    );
    assert_eq!(server_jar_path(directory), "./test/server.jar");

    // First load bootstraps an empty registry; the install registers the record.
    let (mut config, created) = load_step(None).expect("bootstrap");
    assert!(created.is_some());
    assert_eq!(config.servers.len(), 0);
    config.add_server(Server::build_record("test", "/abs/test", "paper", "1.20"));
    let saved = config.render();

    // A later invocation reloads the registry and finds the install.
    let (reloaded, wrote) = load_step(Some(&saved)).expect("saved registry loads");
    assert!(wrote.is_none());
    assert_eq!(reloaded.servers.len(), 1);
    let found = reloaded.get_server("test").expect("installed server is tracked");
    assert_eq!(found.server_type, "paper");
    assert_eq!(found.version, "1.20");

    // Deletion drops the record and rewrites the file.
    let doomed = found.clone_record();
    let mut config2 = load_step(Some(&saved)).expect("reload for delete").0;
    config2.remove_server(&doomed);
    let saved2 = config2.render();

    // After the delete, the name is gone from a fresh load.
    let (after, _) = load_step(Some(&saved2)).expect("rewritten registry loads");
    assert!(after.get_server("test").is_none());
    assert_eq!(after.servers.len(), 0);
}
