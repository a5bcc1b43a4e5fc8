use std::path::PathBuf;

use zoterable::config::{
    config_dir, config_path, device_token_path, init, load, normalize_endpoint,
    remarkable_endpoints, state_path, Config, ConfigError, InitStep, RemarkableEndpoints, TEMPLATE,
};

fn config(user: &str, key: &str, groups: &[&str]) -> Config {
    Config {
        zotero_user_id: user.to_string(),
        zotero_api_key: key.to_string(),
        zotero_group_ids: groups.iter().map(|g| g.to_string()).collect(),
        remarkable_auth_host: None,
        remarkable_upload_host: None,
    }
}

#[test]
fn libraries_are_the_personal_one_and_the_groups() {
    let c = config("42", "k", &["7", "9"]);
    assert_eq!(c.user_library(), "users/42");
    assert_eq!(c.libraries(), ["users/42", "groups/7", "groups/9"]);
    assert_eq!(config("42", "k", &[]).libraries(), ["users/42"]);
}

#[test]
fn a_config_needs_a_user_and_a_key() {
    assert_eq!(load(config("", "k", &[])), Err(ConfigError::MissingCredentials));
    assert_eq!(load(config("42", "", &[])), Err(ConfigError::MissingCredentials));
    assert_eq!(load(config("42", "k", &["7"])), Ok(config("42", "k", &["7"])));
    // Blanks count as filled in.
    assert!(load(config(" ", " ", &[])).is_ok());
}

#[test]
fn hosts_are_normalized() {
    assert_eq!(normalize_endpoint(None, "https://d/"), "https://d");
    assert_eq!(normalize_endpoint(Some("  ".to_string()), "https://d"), "https://d");
    assert_eq!(normalize_endpoint(Some("".to_string()), "https://d"), "https://d");
    assert_eq!(
        normalize_endpoint(Some(" http://localhost:3000// \n".to_string()), "https://d"),
        "http://localhost:3000"
    );
    assert_eq!(normalize_endpoint(Some("///".to_string()), "https://d"), "");
}

#[test]
fn hosts_have_defaults() {
    assert_eq!(
        remarkable_endpoints(config("42", "k", &[])),
        RemarkableEndpoints {
            auth_host: "https://webapp-prod.cloud.remarkable.engineering".to_string(),
            upload_host: "https://internal.cloud.remarkable.com".to_string(),
        }
    );
    let mut c = config("", "", &[]);
    c.remarkable_auth_host = Some("http://auth/".to_string());
    c.remarkable_upload_host = Some("http://up".to_string());
    let endpoints = remarkable_endpoints(c);
    assert_eq!(endpoints.auth_host, "http://auth");
    assert_eq!(endpoints.upload_host, "http://up");
}

#[test]
fn no_host_ends_in_a_slash() {
    for value in [None, Some("a/"), Some("/"), Some(" b// ")] {
        let host = normalize_endpoint(value.map(|v| v.to_string()), "https://d//");
        assert!(!host.ends_with('/'));
    }
}

#[test]
fn files_lie_in_the_program_directory() {
    let dir = config_dir(&PathBuf::from("/home/u/.config"));
    assert_eq!(dir, PathBuf::from("/home/u/.config/zoterable"));
    assert_eq!(config_path(&dir), PathBuf::from("/home/u/.config/zoterable/config.toml"));
    assert_eq!(
        device_token_path(&dir),
        PathBuf::from("/home/u/.config/zoterable/remarkable-device-token")
    );
    assert_eq!(state_path(&dir), PathBuf::from("/home/u/.config/zoterable/state.json"));
}

#[test]
fn an_existing_config_is_left_alone() {
    assert_eq!(init(true), InitStep::KeepExisting);
    assert_eq!(init(false), InitStep::WriteTemplate(TEMPLATE));
}

#[test]
fn the_template_is_a_config_to_be_filled_in() {
    let table: toml::Table = TEMPLATE.parse().unwrap();
    assert_eq!(table.len(), 3);
    assert_eq!(table.get("zotero_user_id").and_then(|v| v.as_str()), Some(""));
    assert_eq!(table.get("zotero_api_key").and_then(|v| v.as_str()), Some(""));
    assert_eq!(table.get("zotero_group_ids").and_then(|v| v.as_array()).map(|a| a.len()), Some(0));
    assert!(TEMPLATE.ends_with("# remarkable_upload_host = \"https://internal.cloud.remarkable.com\"\n"));
}
