use mcmanage::configuration::{Configuration, Server, ServerType, User};
use mcmanage::versions::{DownloadInfo, VersionDownloads, VersionInfo};

fn artifact(url: &str) -> DownloadInfo {
    DownloadInfo { sha1: "da39a3ee".to_string(), size: 1, url: url.to_string() }
}

fn version_info(id: &str) -> VersionInfo {
    VersionInfo {
        downloads: VersionDownloads {
            client: artifact("https://example.invalid/client.jar"),
            client_mappings: artifact("https://example.invalid/client.txt"),
            server: artifact("https://example.invalid/server.jar"),
            server_mappings: artifact("https://example.invalid/server.txt"),
        },
        id: id.to_string(),
    }
}

#[test]
fn new_server_has_default_fields() {
    let server = Server::new("my world".to_string(), "1.21".to_string(), true);
    assert_eq!(server.id, 0);
    assert_eq!(server.name, "my world");
    assert_eq!(server.domain, None);
    assert_eq!(server.port, 25565);
    assert!(matches!(server.server_type, ServerType::Vanilla));
    assert_eq!(server.mc_version_id, "1.21");
    assert!(server.enabled);
    assert!(server.eula);
}

#[test]
fn new_configuration_has_defaults() {
    let config = Configuration::new();
    assert_eq!(config.next_server_id, 0);
    assert_eq!(config.max_concurrent_servers, 1);
    assert_eq!(config.max_total_ram_mb, 3000);
    assert!(config.users.is_empty());
    assert!(config.servers.is_empty());
    assert_eq!(config.server_count(), 0);
    assert!(!config.has_users());
}

#[test]
fn add_server_assigns_sequential_identifiers_and_ports() {
    let mut config = Configuration::new();
    let first = config.add_server(Server::new("a".to_string(), "1.21".to_string(), false));
    let second = config.add_server(Server::new("b".to_string(), "1.20".to_string(), true));
    assert_eq!(first.id, 0);
    assert_eq!(first.port, 25565);
    assert_eq!(second.id, 1);
    assert_eq!(second.port, 25566);
    assert_eq!(config.next_server_id, 2);
    assert_eq!(config.server_count(), 2);
}

#[test]
fn create_new_server_uses_the_version_name() {
    let mut config = Configuration::new();
    let stored = config.create_new_server("fresh".to_string(), &version_info("1.21.4"), true);
    assert_eq!(stored.id, 0);
    assert_eq!(stored.name, "fresh");
    assert_eq!(stored.mc_version_id, "1.21.4");
    assert!(stored.enabled);
    assert!(stored.eula);
    assert_eq!(config.server_count(), 1);
}

#[test]
fn get_server_finds_by_identifier() {
    let mut config = Configuration::new();
    config.add_server(Server::new("a".to_string(), "1.21".to_string(), false));
    config.add_server(Server::new("b".to_string(), "1.20".to_string(), false));
    let found = config.get_server(1).expect("second server");
    assert_eq!(found.name, "b");
    assert!(config.get_server(9).is_none());
}

#[test]
fn modify_server_replaces_the_matching_definition() {
    let mut config = Configuration::new();
    config.add_server(Server::new("a".to_string(), "1.21".to_string(), false));
    let mut changed = config.get_server(0).unwrap();
    changed.name = "renamed".to_string();
    config.modify_server(changed);
    assert_eq!(config.get_server(0).unwrap().name, "renamed");
}

#[test]
fn set_server_enabled_touches_only_the_named_server() {
    let mut config = Configuration::new();
    config.add_server(Server::new("a".to_string(), "1.21".to_string(), false));
    config.add_server(Server::new("b".to_string(), "1.21".to_string(), false));
    config.set_server_enabled(0, false);
    assert!(!config.get_server(0).unwrap().enabled);
    assert!(config.get_server(1).unwrap().enabled);
    // A missing identifier changes nothing.
    config.set_server_enabled(9, false);
    assert!(config.get_server(1).unwrap().enabled);
}

#[test]
fn enabled_servers_filters_in_stored_order() {
    let mut config = Configuration::new();
    config.add_server(Server::new("a".to_string(), "1.21".to_string(), false));
    config.add_server(Server::new("b".to_string(), "1.21".to_string(), false));
    config.add_server(Server::new("c".to_string(), "1.21".to_string(), false));
    config.set_server_enabled(1, false);
    let enabled = config.enabled_servers();
    assert_eq!(enabled.len(), 2);
    assert_eq!(enabled[0].name, "a");
    assert_eq!(enabled[1].name, "c");
}

#[test]
fn disable_all_clears_every_enabled_flag() {
    let mut config = Configuration::new();
    config.add_server(Server::new("a".to_string(), "1.21".to_string(), false));
    config.add_server(Server::new("b".to_string(), "1.21".to_string(), false));
    config.disable_all();
    assert!(!config.get_server(0).unwrap().enabled);
    assert!(!config.get_server(1).unwrap().enabled);
    assert!(config.enabled_servers().is_empty());
}

#[test]
fn get_user_finds_the_first_match() {
    let mut config = Configuration::new();
    config.add_user(User {
        username: "alice".to_string(),
        hashed_password: "first".to_string(),
        is_admin: true,
    });
    config.add_user(User {
        username: "alice".to_string(),
        hashed_password: "second".to_string(),
        is_admin: false,
    });
    let found = config.get_user("alice".to_string()).expect("user");
    assert_eq!(found.hashed_password, "first");
    assert!(config.get_user("bob".to_string()).is_none());
}

#[test]
fn modify_user_replaces_the_matching_account() {
    let mut config = Configuration::new();
    config.add_user(User {
        username: "alice".to_string(),
        hashed_password: "old".to_string(),
        is_admin: false,
    });
    config.modify_user(User {
        username: "alice".to_string(),
        hashed_password: "new".to_string(),
        is_admin: true,
    });
    let found = config.get_user("alice".to_string()).unwrap();
    assert_eq!(found.hashed_password, "new");
    assert!(found.is_admin);
}

#[test]
fn signup_then_login_succeeds_with_the_same_password() {
    let mut config = Configuration::new();
    let account = User::with_password("alice".to_string(), "correct horse").expect("hashing");
    assert_eq!(account.username, "alice");
    assert!(account.is_admin);
    config.add_user(account);
    assert!(config.has_users());
    assert_eq!(
        config.validate_password("alice".to_string(), "correct horse".to_string()),
        Ok(())
    );
}

#[test]
fn login_fails_with_the_wrong_password() {
    let mut config = Configuration::new();
    let account = User::with_password("alice".to_string(), "correct horse").expect("hashing");
    config.add_user(account);
    assert_eq!(
        config.validate_password("alice".to_string(), "battery staple".to_string()),
        Err(())
    );
}

#[test]
fn login_fails_for_an_unknown_user() {
    let config = Configuration::new();
    assert_eq!(
        config.validate_password("nobody".to_string(), "anything".to_string()),
        Err(())
    );
}

#[test]
fn login_fails_when_the_stored_hash_is_not_a_phc_string() {
    let mut config = Configuration::new();
    config.add_user(User {
        username: "alice".to_string(),
        hashed_password: "not a hash".to_string(),
        is_admin: true,
    });
    assert_eq!(
        config.validate_password("alice".to_string(), "anything".to_string()),
        Err(())
    );
}
