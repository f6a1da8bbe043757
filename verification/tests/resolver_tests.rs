use rustique::resolver::{sort_versions_desc, ResolverError, ServerManager};

#[test]
fn download_url_follows_the_fixed_template() {
    let manager = ServerManager::new("paper", "./server");
    assert_eq!(
        manager.construct_download_url("1.20", "5"),
        "https://papermc.io/api/v2/projects/paper/versions/1.20/builds/5/downloads/paper-1.20-5.jar"
    );
}

#[test]
fn catalog_urls() {
    let manager = ServerManager::new("velocity", "./proxy");
    assert_eq!(
        manager.project_url(),
        "https://papermc.io/api/v2/projects/velocity"
    );
    assert_eq!(
        manager.builds_url("3.3.0"),
        "https://papermc.io/api/v2/projects/velocity/versions/3.3.0"
    );
}

#[test]
fn extract_versions_reads_the_versions_field() {
    let body = "{\"project_id\":\"paper\",\"versions\":[\"1.19\",\"1.20\"]}";
    let versions = ServerManager::extract_versions(body).expect("well-formed response");
    assert_eq!(versions, vec![String::from("1.19"), String::from("1.20")]);
}

#[test]
fn extract_versions_blanks_non_string_entries() {
    let body = "{\"versions\":[\"1.19\",7,\"1.20\"]}";
    let versions = ServerManager::extract_versions(body).expect("well-formed response");
    assert_eq!(versions, vec![String::from("1.19"), String::new(), String::from("1.20")]);
}

#[test]
fn extract_versions_fails_without_the_field() {
    let body = "{\"builds\":[1,2]}";
    assert_eq!(
        ServerManager::extract_versions(body).unwrap_err(),
        ResolverError::MissingField
    );
    let not_an_array = "{\"versions\":\"1.20\"}";
    assert_eq!(
        ServerManager::extract_versions(not_an_array).unwrap_err(),
        ResolverError::MissingField
    );
}

#[test]
fn extract_versions_fails_on_malformed_body() {
    assert_eq!(
        ServerManager::extract_versions("not json at all").unwrap_err(),
        ResolverError::Malformed
    );
}

#[test]
fn extract_builds_renders_numeric_entries() {
    let body = "{\"builds\":[5,4]}";
    let builds = ServerManager::extract_builds(body).expect("well-formed response");
    assert_eq!(builds, vec![String::from("5"), String::from("4")]);
}

#[test]
fn extract_builds_fails_without_the_field() {
    assert_eq!(
        ServerManager::extract_builds("{}").unwrap_err(),
        ResolverError::MissingField
    );
}

#[test]
fn sort_versions_desc_orders_newest_first() {
    let mut versions = vec![
        String::from("1.19"),
        String::from("1.20.1"),
        String::from("1.20"),
    ];
    sort_versions_desc(&mut versions);
    assert_eq!(
        versions,
        vec![
            String::from("1.20.1"),
            String::from("1.20"),
            String::from("1.19"),
        ]
    );
}

#[test]
fn sort_versions_desc_keeps_duplicates() {
    let mut builds = vec![String::from("4"), String::from("5"), String::from("4")];
    sort_versions_desc(&mut builds);
    assert_eq!(
        builds,
        vec![String::from("5"), String::from("4"), String::from("4")]
    );
}

#[test]
fn sort_versions_desc_of_empty_list() {
    let mut empty: Vec<String> = Vec::new();
    sort_versions_desc(&mut empty);
    assert!(empty.is_empty());
}
