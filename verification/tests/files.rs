use agapornis_agent::docker::inspection::ServerRoot;
use agapornis_agent::files::listing::{
    browse_path, list_command, listed_items, HostEntry, Listing,
};
use agapornis_agent::files::modpack::{
    check_address, check_announced, check_format, check_manifest_size, download_plan,
    override_prefixes, override_step, pack_archive, safe_pack_path, temporary_path,
    verify_download, MrpackFile, OverrideStep, PackBudget, PackDownload,
};
use agapornis_agent::files::operations::{
    archive_arguments, archive_command, archive_destination, check_archive, check_archive_source,
    check_move, check_rename, check_size, confine, delete_plan, directory_plan, extract_arguments,
    extract_command, input_arguments, move_command, move_target, ownership_arguments,
    ownership_paths, read_command, read_result, read_source, rename_destination, rename_plan,
    server_image, upload_outcome, validate_file_name, validated_sources, write_plan, Confined,
    Plan, Probe, ReadSource, Root, MAX_IN_MEMORY_FILE_BYTES,
};
use agapornis_agent::json::Json;
use agapornis_agent::table::Table;

fn list(items: &[&str]) -> Vec<String> {
    items.iter().map(|s| s.to_string()).collect()
}

fn host() -> Root {
    Root { host: "/servers/one".into(), container: "/data".into(), use_host: true }
}

fn inside() -> Root {
    Root { host: "/servers/one".into(), container: "/data".into(), use_host: false }
}

fn shell(plan: Plan) -> String {
    match plan {
        Plan::Shell(command) => command,
        Plan::Host(path) => panic!("on the host: {path}"),
    }
}

fn on_host(plan: Plan) -> String {
    match plan {
        Plan::Host(path) => path,
        Plan::Shell(command) => panic!("in the container: {command}"),
    }
}

#[test]
fn selected_sources_are_confined_unique_and_bounded() {
    assert!(validated_sources(&list(&[])).is_err());
    assert!(validated_sources(&list(&["/safe/file.txt", "/safe/file.txt"])).is_err());
    assert!(validated_sources(&list(&["../../outside"])).is_err());
    assert!(validated_sources(&list(&["/"])).is_err());
    assert_eq!(
        validated_sources(&list(&["/safe/file.txt", "/folder"])).unwrap(),
        vec!["safe/file.txt", "folder"],
    );
}

#[test]
fn ownership_normalization_includes_nested_parents_and_root() {
    assert_eq!(
        ownership_paths("/servers/example", "/servers/example/plugins/config/settings.json"),
        vec![
            "/servers/example/plugins/config/settings.json",
            "/servers/example/plugins/config",
            "/servers/example/plugins",
            "/servers/example",
        ],
    );
}

#[test]
fn modpack_paths_stay_relative_and_confined() {
    assert!(safe_pack_path("mods/example.jar", false).is_ok());
    assert!(safe_pack_path("config/example.toml", false).is_ok());
    assert!(safe_pack_path("../server.jar", false).is_err());
    assert!(safe_pack_path("/etc/passwd", false).is_err());
    assert!(safe_pack_path("mods\\example.jar", false).is_err());
    assert!(safe_pack_path("./mods/example.jar", false).is_err());
}

#[test]
fn refused_selections_are_explained() {
    let message = |items: &[&str]| validated_sources(&list(items)).unwrap_err().message;
    assert_eq!(message(&[]), "At least one source path is required.");
    assert_eq!(message(&["a", "./a"]), "Duplicate source paths are not allowed.");
    assert_eq!(message(&["/"]), "The server root cannot be selected.");
    assert_eq!(message(&["a/.."]), "invalid file path");
    let many: Vec<String> = (0..101).map(|i| i.to_string()).collect();
    assert_eq!(
        validated_sources(&many).unwrap_err().message,
        "No more than 100 items can be processed at once."
    );
    assert_eq!(validated_sources(&many[..100].to_vec()).unwrap().len(), 100);
}

#[test]
fn listings_of_containers_are_read() {
    assert_eq!(browse_path("/"), ".");
    assert_eq!(browse_path("\\/plugins"), "plugins");
    let items = listed_items("b.txt\tf\t12\t2026-01-01T00:00:00Z\nworld\td\t0\t\nbroken\n").unwrap();
    assert_eq!(items.len(), 2);
    assert_eq!((items[0].name.as_str(), items[0].size, items[0].directory), ("b.txt", 12, false));
    assert_eq!((items[1].name.as_str(), items[1].modified.as_str()), ("world", ""));
    assert!(items[1].directory);
    assert!(list_command("/data/it's").starts_with("target='/data/it'\\''s'; [ -d \"$target\" ]"));
    let many = "x\tf\t1\t\n".repeat(10_001);
    assert_eq!(
        listed_items(&many).unwrap_err().message,
        "Directory contains more than 10000 entries."
    );
}

fn entry(name: &str, symlink: bool, directory: bool) -> HostEntry {
    HostEntry {
        name: name.into(),
        symlink,
        directory,
        file: !directory,
        size: 5,
        modified: String::new(),
    }
}

#[test]
fn listings_of_the_host_are_in_order_and_without_links() {
    let mut listing = Listing::new();
    for (name, symlink, directory) in
        [("b", false, false), ("link", true, false), ("a", false, true), ("c", false, false)]
    {
        listing.add(entry(name, symlink, directory)).unwrap();
    }
    let names: Vec<&str> = listing.items.iter().map(|i| i.name.as_str()).collect();
    assert_eq!(names, ["a", "b", "c"]);
    assert_eq!(listing.items[0].size, 0);
    assert_eq!(listing.items[1].size, 5);
}

#[test]
fn too_many_entries_of_the_host_are_refused() {
    let mut listing = Listing::new();
    for index in 0..10_000 {
        listing.add(entry(&format!("{index:05}"), false, false)).unwrap();
    }
    assert_eq!(
        listing.add(entry("more", false, false)).unwrap_err().message,
        "Directory contains more than 10000 entries."
    );
    assert!(listing.add(entry("link", true, false)).is_ok());
}

#[test]
fn running_servers_are_reached_in_their_container() {
    let root = |running, exact| {
        Root::of(ServerRoot { path: "/p".into(), data: "/data".into(), running, exact }).use_host
    };
    assert!(root(false, false));
    assert!(root(true, true));
    assert!(!root(true, false));
}

#[test]
fn links_out_of_the_root_are_refused() {
    let real = |place: &str| confine("/real/one", "/servers/one/x", true, true, Probe::Real(place.into()));
    assert!(matches!(real("/real/one/x"), Confined::Accepted));
    assert!(matches!(real("/real/one"), Confined::Accepted));
    assert!(matches!(real("/real/one-more"), Confined::Refused(e)
        if e.message == "Path escapes the server root."));
    assert!(matches!(
        confine("/real/one", "/servers/one/a/b", false, true, Probe::Missing),
        Confined::Look(next) if next == "/servers/one/a"
    ));
    assert!(matches!(
        confine("/real/one", "/servers/one/a", true, true, Probe::Missing),
        Confined::Refused(_)
    ));
    assert!(matches!(
        confine("/real/one", "/", false, false, Probe::Missing),
        Confined::Refused(e) if e.message == "Path has no confined parent."
    ));
    assert!(matches!(
        confine("/real/one", "/x", false, true, Probe::Failed("denied".into())),
        Confined::Refused(e) if e.message == "denied"
    ));
}

#[test]
fn files_are_read_where_they_are() {
    assert!(matches!(read_source(&host(), "one", "/a.txt").ok().unwrap(),
        ReadSource::Host(p) if p == "/servers/one/a.txt"));
    assert!(matches!(read_source(&inside(), "one", "a\\b").ok().unwrap(),
        ReadSource::Container { id, path } if id == "one" && path == "/data/a/b"));
    assert!(read_source(&host(), "one", "../a").is_err());
    assert_eq!(read_command("/data/a", 10), "head -c 11 -- '/data/a' | base64");
    assert_eq!(read_result("aGVs\nbG8=\n", 5).unwrap(), b"hello");
    assert_eq!(
        read_result("aGVsbG8=", 4).unwrap_err().message,
        "File is too large to read into memory."
    );
    assert!(read_result("!!!!", 4).unwrap_err().message.starts_with("Invalid symbol 33"));
    assert!(check_size(4, 4).is_ok());
    assert!(check_size(5, 4).is_err());
}

#[test]
fn files_are_written_where_they_belong() {
    assert_eq!(on_host(write_plan(&host(), "/a/b.txt").ok().unwrap()), "/servers/one/a/b.txt");
    assert_eq!(
        shell(write_plan(&inside(), "a/b.txt").ok().unwrap()),
        "mkdir -p -- '/data/a' && cat > '/data/a/b.txt'"
    );
    assert_eq!(write_plan(&host(), "//").err().unwrap().message, "A file path is required.");
    assert_eq!(input_arguments("one", "cat"), ["exec", "-i", "one", "/bin/sh", "-lc", "cat"]);
    assert!(upload_outcome(true, Some(0)).is_ok());
    assert_eq!(
        upload_outcome(false, None).unwrap_err().message,
        "docker upload stream exited with status -1"
    );
    assert_eq!(ownership_arguments("/r", "/r/a"), ["999:999", "/r/a", "/r"]);
    assert!(ownership_paths("/r", "/other/a").is_empty());
}

#[test]
fn the_root_is_neither_deleted_nor_renamed() {
    assert_eq!(shell(delete_plan(&inside(), "/a").ok().unwrap()), "rm -rf -- '/data/a'");
    assert_eq!(on_host(delete_plan(&host(), "/a").ok().unwrap()), "/servers/one/a");
    for path in ["", "/", "."] {
        assert_eq!(
            delete_plan(&host(), path).err().unwrap().message,
            "Deleting the server root is not allowed."
        );
        assert_eq!(
            rename_plan(&host(), path, "x").err().unwrap().message,
            "Renaming the server root is not allowed."
        );
    }
    assert_eq!(
        shell(rename_plan(&inside(), "/a/b", "c").ok().unwrap()),
        "[ ! -e '/data/a/c' ] || exit 45; mv -- '/data/a/b' '/data/a/c'"
    );
    assert_eq!(rename_destination("/servers/one/a", "b").unwrap(), "/servers/one/b");
    assert!(check_rename(true).is_err());
    assert!(check_rename(false).is_ok());
}

#[test]
fn new_names_are_single_names() {
    assert!(validate_file_name("server.properties").is_ok());
    for name in ["", ".", "..", "a/b", "a\\b", "a\0", "a\n", "a<b", "a:b", "a?", "\u{85}"] {
        assert_eq!(
            validate_file_name(name).unwrap_err().message,
            "New name must be a single file or directory name."
        );
    }
}

#[test]
fn directories_are_made() {
    assert_eq!(on_host(directory_plan(&host(), "/a").ok().unwrap()), "/servers/one/a");
    assert_eq!(shell(directory_plan(&inside(), "/a/").ok().unwrap()), "mkdir -- '/data/a'");
    assert_eq!(
        directory_plan(&host(), "/").err().unwrap().message,
        "A directory path is required."
    );
}

#[test]
fn moves_are_checked_first() {
    assert_eq!(move_target("/r/a/x", "/r/b").unwrap(), "/r/b/x");
    let check = |source: &str, destination: &str, symlink, exists, directory| {
        let target = move_target(source, destination).unwrap();
        check_move(source, &target, destination, symlink, exists, directory)
            .err()
            .map(|e| e.message)
    };
    assert_eq!(check("/r/a", "/r/b", false, false, true), None);
    assert_eq!(
        check("/r/a", "/r/b", true, false, false).unwrap(),
        "Symbolic links cannot be moved."
    );
    assert_eq!(
        check("/r/b/a", "/r/b", false, true, false).unwrap(),
        "An item is already in the selected destination."
    );
    assert_eq!(
        check("/r/a", "/r/b", false, true, false).unwrap(),
        "A file or directory with that name already exists in the destination."
    );
    assert_eq!(
        check("/r/a", "/r/a/b", false, false, true).unwrap(),
        "A directory cannot be moved inside itself."
    );
    let command = move_command(&inside(), &list(&["a", "b/c"]), "to").unwrap();
    assert!(command.starts_with("[ -d '/data/to' ] || "));
    assert!(command.ends_with("; mv -- '/data/a' '/data/to/a'; mv -- '/data/b/c' '/data/to/c'"));
    let first_move = command.find("mv -- ").unwrap();
    assert!(!command[first_move..].contains("exit"));
    assert!(move_command(&inside(), &list(&["a"]), "..").is_err());
}

#[test]
fn archives_are_made_beside_what_they_hold() {
    assert_eq!(archive_destination("/x.TAR.GZ").unwrap(), "x.TAR.GZ");
    assert_eq!(
        archive_destination("/x.zip").unwrap_err().message,
        "Archive name must end with .tar.gz."
    );
    assert_eq!(
        archive_destination("/").unwrap_err().message,
        "An archive destination path is required."
    );
    assert!(check_archive(false, true).is_ok());
    assert!(check_archive(true, true).is_err());
    assert!(check_archive(false, false).is_err());
    assert!(check_archive_source("/r/a", "/r/x.tar.gz", false, true).is_ok());
    assert!(check_archive_source("/r/a", "/r/a/x.tar.gz", false, true).is_err());
    assert!(check_archive_source("/r/a", "/r/x.tar.gz", true, false).is_err());
    assert_eq!(
        archive_arguments("/r", "/r/x.tar.gz", &list(&["a", "b"])),
        ["-czf", "/r/x.tar.gz", "-C", "/r", "--", "a", "b"]
    );
    let command = archive_command(&inside(), &list(&["a", "b"]), "x.tar.gz", "u").unwrap();
    assert!(command.ends_with(
        "trap 'rm -f -- '/data/x.tar.gz.agapornis-u'' EXIT; cd '/data'; tar -czf '/data/x.tar.gz.agapornis-u' -- 'a' 'b'; mv -- '/data/x.tar.gz.agapornis-u' '/data/x.tar.gz'; trap - EXIT"
    ));
    assert!(command.contains("case '/data/x.tar.gz'/ in '/data/a'/*)"));
}

#[test]
fn archives_are_unpacked_by_their_name() {
    let command = |name: &str| extract_command(name).map(|(_, command)| command);
    assert_eq!(
        command("/a.tgz").unwrap(),
        "tar --no-same-owner --no-same-permissions -xzf /archive -C /extract"
    );
    assert_eq!(
        command("a.TAR").unwrap(),
        "tar --no-same-owner --no-same-permissions -xf /archive -C /extract"
    );
    assert_eq!(command("a.zip").unwrap(), "unzip -o /archive -d /extract");
    assert_eq!(
        command("a.rar").unwrap_err().message,
        "Only .zip, .tar, .tar.gz, and .tgz archives can be extracted."
    );
    assert_eq!(command("/").unwrap_err().message, "An archive path is required.");
    let inspect = Json::parse(br#"{"Config": {"Image": "debian"}}"#).unwrap();
    assert_eq!(server_image(&inspect).unwrap(), "debian");
    let none = Json::parse(br#"{"Config": {"Image": " "}}"#).unwrap();
    assert_eq!(server_image(&none).unwrap_err().message, "server image is unavailable");
    let arguments = extract_arguments("/a.zip", "/to", "debian", "unzip");
    assert_eq!(arguments.len(), 28);
    assert!(arguments.contains(&"type=bind,src=/a.zip,dst=/archive,readonly".to_string()));
    assert_eq!(&arguments[24..], ["/bin/sh", "debian", "-lc", "unzip"]);
}

fn pack_file(url: &str) -> MrpackFile {
    let mut hashes = Table::new();
    hashes.insert("sha512".to_string(), "ABCD".to_string());
    MrpackFile { path: "mods/a.jar".into(), hashes, downloads: vec![url.into()], env: None }
}

#[test]
fn packs_are_fetched_from_their_host_alone() {
    let plan = download_plan("/r", &pack_file("https://cdn.modrinth.com/data/a.jar"), false).ok().unwrap();
    assert_eq!(plan.target, "/r/mods/a.jar");
    assert_eq!(plan.temporary, "/r/mods/a.jar.agapornis-part");
    assert_eq!(plan.expected, "abcd");
    let refusal = |file: &MrpackFile| download_plan("/r", file, false).err().unwrap().message;
    for url in [
        "http://cdn.modrinth.com/a.jar",
        "https://example.org/a.jar",
        "https://cdn.modrinth.com@example.org/a.jar",
        "https://cdn.modrinth.com.example.org/a.jar",
    ] {
        assert_eq!(
            refusal(&pack_file(url)),
            "Pack file mods/a.jar uses an untrusted download host."
        );
    }
    assert_eq!(refusal(&pack_file("not a url")), "relative URL without a base");
    let mut file = pack_file("https://cdn.modrinth.com/a.jar");
    file.downloads.clear();
    assert_eq!(refusal(&file), "Pack file mods/a.jar has no download URL");
    file.hashes = Table::new();
    assert_eq!(refusal(&file), "Pack file mods/a.jar has no SHA-512 hash");
    file.path = "../a".into();
    assert_eq!(refusal(&file), "Modrinth pack contains an unsafe path.");
    assert!(check_address("a", Ok(("https".into(), Some("cdn.modrinth.com".into())))).is_ok());
    assert!(check_address("a", Ok(("https".into(), None))).is_err());
}

#[test]
fn files_for_clients_are_left_out() {
    let mut file = pack_file("https://cdn.modrinth.com/a.jar");
    assert!(!file.is_unsupported_on_server());
    let mut env = Table::new();
    env.insert("server".to_string(), "unsupported".to_string());
    file.env = Some(env);
    assert!(file.is_unsupported_on_server());
}

#[test]
fn packs_are_checked_as_they_come() {
    assert_eq!(pack_archive(true, "/a.MRPACK").unwrap(), "a.MRPACK");
    assert_eq!(
        pack_archive(false, "/a.mrpack").unwrap_err().message,
        "Stop the server before installing a Modrinth modpack."
    );
    assert_eq!(pack_archive(true, "/a.zip").unwrap_err().message, "A .mrpack archive is required.");
    assert!(check_manifest_size(4_194_304).is_ok());
    assert!(check_manifest_size(4_194_305).is_err());
    assert!(check_format(1).is_ok());
    assert!(check_format(2).is_err());
    assert!(check_announced("a", None).is_ok());
    assert!(check_announced("a", Some(536_870_913)).is_err());
    let mut budget = PackBudget::new();
    let mut file = PackDownload::new();
    assert!(file.accept(&mut budget, b"ab").is_ok());
    assert!(file.accept(&mut budget, b"c").is_ok());
    assert_eq!(budget.total_bytes, 3);
    let large = vec![0; 536_870_910];
    assert_eq!(
        file.accept(&mut budget, &large).unwrap_err().message,
        "Modrinth pack exceeds the extraction size limit."
    );
    let mut budget = PackBudget { total_bytes: 2_147_483_647 };
    assert!(file.accept(&mut budget, b"de").is_err());
    assert!(file.accept(&mut budget, b"").is_ok());
    let digest = "ddaf35a193617abacc417349ae20413112e6fa4e89a97ea20a9eeee64b55d39a\
        2192992a274fc1a836ba3c23a3feebbd454d4423643ce80e2a9ac94fa54ca49f";
    assert!(verify_download("a", file, digest).is_ok());
    assert_eq!(
        verify_download("a", PackDownload::new(), digest).unwrap_err().message,
        "SHA-512 verification failed for a."
    );
}

#[test]
fn overrides_are_put_below_the_root() {
    assert_eq!(override_prefixes(), ["overrides/", "server-overrides/"]);
    let step = |name: &str, mode, directory| {
        override_step("/r", "overrides/", name, mode, directory, false)
    };
    assert!(matches!(step("overrides/", None, true), Ok(OverrideStep::Skip)));
    assert!(matches!(step("modrinth.index.json", None, false), Ok(OverrideStep::Skip)));
    assert!(matches!(step("overrides/config/", None, true),
        Ok(OverrideStep::Directory(p)) if p == "/r/config/"));
    assert!(matches!(step("overrides/config/a.toml", Some(0o100644), false),
        Ok(OverrideStep::File(p, t))
            if p == "/r/config/a.toml" && t == "/r/config/a.toml.agapornis-part"));
    assert_eq!(
        step("overrides/link", Some(0o120777), false).err().unwrap().message,
        "Modrinth pack symbolic links are not allowed."
    );
    assert!(step("overrides/../x", None, false).is_err());
    assert_eq!(temporary_path("/r/LICENSE"), "/r/LICENSE..agapornis-part");
    assert_eq!(temporary_path("/r/a.jar/./"), "/r/a.jar.agapornis-part");
    assert_eq!(temporary_path("/r/a/."), "/r/a..agapornis-part");
    assert_eq!(temporary_path("/r/a."), "/r/a..agapornis-part");
    assert_eq!(temporary_path("/"), "/");
    assert_eq!(temporary_path("/r/.env"), "/r/.env..agapornis-part");
}

#[test]
fn files_of_eight_mebibytes_fit_into_memory() {
    assert!(check_size(8 * 1024 * 1024, MAX_IN_MEMORY_FILE_BYTES).is_ok());
    assert!(check_size(8 * 1024 * 1024 + 1, MAX_IN_MEMORY_FILE_BYTES).is_err());
}

#[test]
fn packs_know_drives_on_windows() {
    assert!(safe_pack_path("C:mods/a.jar", false).is_ok());
    assert!(safe_pack_path("C:mods/a.jar", true).is_err());
    assert!(safe_pack_path("c:/mods/a.jar", true).is_err());
    assert!(safe_pack_path("mods/C:/a.jar", true).is_ok());
}
