use agapornis_agent::paths;

#[test]
fn rejects_path_traversal() {
    assert!(paths::relative("../secret").is_err());
    assert!(paths::relative("safe/config.yml").is_ok());
    assert_eq!(paths::relative("/safe/config.yml").unwrap(), "safe/config.yml");
    assert!(paths::relative("/safe/../../secret").is_err());
}

#[test]
fn rejects_unsafe_server_ids() {
    assert!(paths::server_dir("/srv", "../../etc").is_err());
    assert!(paths::server_dir("/srv", "server-123").is_ok());
}

#[test]
fn detects_data_images() {
    assert_eq!(paths::data_path("itzg/minecraft-server", &[]), "/data");
    assert_eq!(paths::data_path("debian", &[]), "/home/container");
}

#[test]
fn refused_paths_and_ids_are_explained() {
    assert_eq!(paths::relative("a/../b").unwrap_err().message, "invalid file path");
    assert_eq!(paths::validate_id("").unwrap_err().message, "invalid server id");
    assert_eq!(paths::validate_id("a/b").unwrap_err().message, "invalid server id");
}

#[test]
fn accepted_paths_are_accepted_again() {
    for path in ["/a/./b//c", "a\\b", "x", "", "./y/"] {
        let once = paths::relative(path).unwrap();
        assert_eq!(paths::relative(&once).unwrap(), once);
        assert!(!once.contains('\\'));
        assert!(!once.starts_with('/'));
    }
    assert_eq!(paths::relative("a\\b").unwrap(), "a/b");
}

#[test]
fn host_paths_stay_below_their_root() {
    assert_eq!(
        paths::safe_host_path("/srv/one", "/plugins/./config.yml").unwrap(),
        "/srv/one/plugins/config.yml"
    );
    assert!(paths::is_below("/srv/one/plugins", "/srv/one"));
    assert!(!paths::is_below("/srv/one-two", "/srv/one"));
}

#[test]
fn servers_have_directories_of_their_own() {
    let a = paths::server_dir("/srv", "one").unwrap();
    let b = paths::server_dir("/srv", "two").unwrap();
    assert_eq!(a, "/srv/one");
    assert_ne!(a, b);
    assert_eq!(
        paths::disk_limit_path("/srv", "one").unwrap(),
        "/srv/.metadata/one.disk-limit"
    );
}

#[test]
fn container_paths_keep_the_root() {
    assert_eq!(paths::container_path("/data", "").unwrap(), "/data");
    assert_eq!(paths::container_path("/data/", "/world").unwrap(), "/data/world");
    assert!(paths::container_path("/data", "../etc").is_err());
}

#[test]
fn base_directories_follow_the_settings() {
    assert_eq!(paths::base_servers_dir(Some("/x"), false, None), "/x");
    assert_eq!(paths::base_servers_dir(None, false, None), "/var/lib/agapornis/servers");
    for (data, expected) in [
        (None, "C:\\ProgramData\\agapornis\\servers"),
        (Some("D:\\Data"), "D:\\Data\\agapornis\\servers"),
        (Some("D:\\"), "D:\\agapornis\\servers"),
        (Some("D:/"), "D:/agapornis\\servers"),
        (Some("D:"), "D:agapornis\\servers"),
        (Some(""), "agapornis\\servers"),
    ] {
        assert_eq!(paths::base_servers_dir(None, true, data), expected);
    }
}

#[test]
fn paths_come_apart_and_together() {
    assert_eq!(paths::parent("/a/b/c").unwrap(), "/a/b");
    assert_eq!(paths::parent("/a").unwrap(), "/");
    assert!(paths::parent("/").is_none());
    assert_eq!(paths::file_name("/a/b.txt").unwrap(), "b.txt");
    assert!(paths::file_name("/a/..").is_none());
    assert_eq!(paths::trim_leading_slashes("/\\x/", true), "x/");
    assert_eq!(paths::trim_slashes("/x//"), "/x");
}

#[test]
fn configuration_descriptors_are_kept_beside_the_servers() {
    assert_eq!(
        paths::config_files_path("/srv", "a").unwrap(),
        "/srv/.metadata/a.config-files.json"
    );
    assert!(paths::config_files_path("/srv", "a/b").is_err());
}
