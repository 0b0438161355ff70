use agapornis_agent::backup::archive::{
    archive_path, backup_of_file, backups_base, list_arguments, metadata_path, pack_arguments,
    unpack_arguments, unrecorded_backup, validate_archive, validate_backup_id, validate_entry,
    validate_storage, verify_integrity, ArchiveReader, BackupInfo,
};
use agapornis_agent::backup::crypto::{
    decrypt_backup, encrypt_backup, encryption_key, Decryptor, Encryptor, FrameLength,
};
use agapornis_agent::backup::manager::{
    backups_transfer_path, check_lookup, create_plan, deleted_files, expired, find_backup,
    new_backup, new_backup_id, prepare, server_transfer_path, sorted, temporary_dir, BackupStep,
};
use agapornis_agent::backup::restore::{restore_places, RestoreStep, StepOutcome, Verdict};
use agapornis_agent::backup::s3::{is_metadata_key, S3Settings, S3Store};
use agapornis_agent::digest::{hash_eq, sha256_hex};

const KEY: &str = "BwcHBwcHBwcHBwcHBwcHBwcHBwcHBwcHBwcHBwcHBwc=";

fn backup(id: &str, created_at: &str) -> BackupInfo {
    new_backup("server-one", "s3", false, id, read(&[b"archive"]), created_at)
}

fn read(pieces: &[&[u8]]) -> ArchiveReader {
    let mut reader = ArchiveReader::new();
    for piece in pieces {
        reader.read(piece);
    }
    reader
}

fn ids(list: &[BackupInfo]) -> Vec<String> {
    list.iter().map(|b| b.backup_id.clone()).collect()
}

#[test]
fn backup_ids_reject_traversal() {
    assert!(validate_backup_id("../../etc").is_err());
    assert!(validate_backup_id("valid-2026").is_ok());
}

#[test]
fn refused_identifiers_and_places_are_explained() {
    for id in ["", "a/b", "a\\b", ".."] {
        assert_eq!(validate_backup_id(id).unwrap_err().message, "Invalid backup id.");
    }
    assert_eq!(
        validate_storage("disk").unwrap_err().message,
        "Backup storage must be local or s3."
    );
    assert!(validate_storage("local").is_ok());
    assert!(validate_storage("s3").is_ok());
}

#[test]
fn backups_lie_below_their_server() {
    assert_eq!(backups_base(None, false, None), "/var/lib/agapornis/backups");
    assert_eq!(backups_base(None, true, None), "C:\\ProgramData\\agapornis/backups");
    assert_eq!(backups_base(None, true, Some("D:\\")), "D:\\agapornis/backups");
    assert_eq!(backups_base(None, true, Some("")), "agapornis/backups");
    assert_eq!(archive_path("/b", "one", "x").unwrap(), "/b/one/x.tar.gz");
    assert_eq!(metadata_path("/b", "one", "x").unwrap(), "/b/one/x.json");
    assert_eq!(archive_path("/b", "../one", "x").unwrap_err().message, "invalid server id");
    assert_eq!(backup_of_file("x.tar.gz").unwrap(), "x");
    assert!(backup_of_file("x.json").is_none());
    assert_eq!(
        deleted_files("/b", "one", "x").unwrap(),
        ("/b/one/x.tar.gz".to_string(), "/b/one/x.json".to_string())
    );
    let found = unrecorded_backup("one", "x", "x.tar.gz", 7, "then");
    assert_eq!((found.size_bytes, found.storage.as_str()), (7, "local"));
    assert_eq!(found.checksum_type, "sha256");
}

#[test]
fn archives_are_packed_and_listed_with_tar() {
    assert_eq!(pack_arguments("/s", "/t"), ["-czf", "/t", "-C", "/s", "."]);
    assert_eq!(unpack_arguments("/s", "/t"), ["-xzf", "/s", "-C", "/t"]);
    assert_eq!(list_arguments("/s"), ["-tzf", "/s"]);
}

#[test]
fn unsafe_archive_entries_are_refused() {
    assert!(validate_entry("./world/level.dat").is_ok());
    assert!(validate_entry("a..b").is_ok());
    for entry in ["/etc/passwd", "a/../../b", "..\\x", " ../x"] {
        assert_eq!(
            validate_entry(entry).unwrap_err().message,
            "Backup contains an unsafe archive path."
        );
    }
    let entries = vec!["./".to_string(), "./a".to_string()];
    assert!(validate_archive(&entries, true, Some(0)).is_ok());
    assert_eq!(
        validate_archive(&entries, false, Some(2)).unwrap_err().message,
        "archive validation exited with status 2"
    );
    assert_eq!(
        validate_archive(&entries, false, None).unwrap_err().message,
        "archive validation exited with status -1"
    );
}

#[test]
fn digests_are_those_of_sha256() {
    assert_eq!(
        sha256_hex(b"abc"),
        "ba7816bf8f01cfea414140de5dae2223b00361a396177a9cb410ff61f20015ad"
    );
    assert!(hash_eq("0aFF", "0Aff"));
    assert!(!hash_eq("0aFF", "0afe"));
    assert!(!hash_eq("0aF", "0aF"));
    assert!(!hash_eq("zz", "zz"));
    assert!(hash_eq("", ""));
}

#[test]
fn changed_archives_are_refused() {
    let actual = sha256_hex(b"archive");
    let mut info = new_backup("one", "local", false, "x", read(&[b"arc", b"", b"hive"]), "now");
    assert_eq!(info.checksum_sha256, actual);
    assert_eq!(info.size_bytes, 7);
    let check = |bytes: &[u8], info: &BackupInfo, expected: Option<&str>| {
        verify_integrity(read(&[bytes]), info, expected).map_err(|e| e.message)
    };
    assert!(check(b"archive", &info, None).is_ok());
    assert!(check(b"archive", &info, Some(&actual.to_uppercase())).is_ok());
    assert_eq!(
        check(b"archive", &info, Some("00")).unwrap_err(),
        "Backup checksum did not match the requested restore."
    );
    assert_eq!(
        check(b"another", &info, None).unwrap_err(),
        "Backup checksum did not match its metadata."
    );
    info.size_bytes = 8;
    assert_eq!(
        check(b"archive", &info, None).unwrap_err(),
        "Backup size did not match its metadata."
    );
}

#[test]
fn archives_are_read_in_pieces() {
    assert_eq!(read(&[b"a", b"", b"bc"]).sha256(), sha256_hex(b"abc"));
    assert_eq!(read(&[b"a", b"bc"]).size, 3);
    assert_eq!(read(&[]).sha256(), sha256_hex(b""));
}

#[test]
fn encryption_is_undone_by_decryption() {
    let key = encryption_key(KEY).unwrap();
    assert_eq!(key, vec![7u8; 32]);
    let chunks = vec![b"first chunk".to_vec(), vec![0u8; 1000], b"!".to_vec()];
    let data = encrypt_backup(&key, &[1, 2, 3, 4, 5, 6, 7, 8], &chunks).unwrap();
    assert_eq!(&data[..8], b"AGPBK01\0");
    assert_eq!(data.len(), 16 + 3 * (4 + 16) + 11 + 1000 + 1 + 4);
    assert!(!data.windows(11).any(|w| w == b"first chunk"));
    assert_eq!(decrypt_backup(&key, &data).unwrap(), chunks.concat());
    let empty = encrypt_backup(&key, &[0; 8], &Vec::new()).unwrap();
    assert!(decrypt_backup(&key, &empty).unwrap().is_empty());
}

#[test]
fn damaged_backups_are_refused() {
    let key = vec![7u8; 32];
    let data = encrypt_backup(&key, &[9; 8], &vec![b"secret".to_vec()]).unwrap();
    for kept in 0..data.len() {
        assert_eq!(
            decrypt_backup(&key, &data[..kept]).unwrap_err().message,
            "failed to fill whole buffer"
        );
    }
    let mut flipped = data.clone();
    flipped[25] ^= 1;
    assert_eq!(
        decrypt_backup(&key, &flipped).unwrap_err().message,
        "encrypted backup authentication failed"
    );
    assert_eq!(
        decrypt_backup(&vec![8u8; 32], &data).unwrap_err().message,
        "encrypted backup authentication failed"
    );
    let mut renamed = data.clone();
    renamed[0] = b'X';
    assert_eq!(
        decrypt_backup(&key, &renamed).unwrap_err().message,
        "Encrypted backup header is invalid."
    );
    let mut huge = data;
    huge[16] = 0xff;
    assert_eq!(
        decrypt_backup(&key, &huge).unwrap_err().message,
        "Encrypted backup chunk is invalid."
    );
}

#[test]
fn chunks_may_not_change_places() {
    let key = vec![1u8; 32];
    let mut encryptor = Encryptor::new(key.clone(), vec![2u8; 8]);
    let header = encryptor.header();
    let first = encryptor.chunk(b"one").unwrap();
    let second = encryptor.chunk(b"two").unwrap();
    let mut decryptor = Decryptor::new(key, &header).unwrap();
    assert_eq!(decryptor.length(&first[..4]).unwrap(), FrameLength::Sealed(19));
    assert!(decryptor.chunk(&second[4..]).is_err());
    assert_eq!(decryptor.chunk(&first[4..]).unwrap(), b"one");
    assert_eq!(decryptor.chunk(&second[4..]).unwrap(), b"two");
    assert_eq!(decryptor.length(&encryptor.finish()).unwrap(), FrameLength::End);
}

#[test]
fn chunks_run_out() {
    let mut encryptor = Encryptor { key: vec![0; 32], prefix: vec![0; 8], counter: u32::MAX };
    assert_eq!(
        encryptor.chunk(b"x").unwrap_err().message,
        "backup is too large for the encrypted chunk format"
    );
    let mut last = Encryptor { key: vec![0; 32], prefix: vec![0; 8], counter: u32::MAX - 1 };
    let frame = last.chunk(b"x").unwrap();
    let mut decryptor = Decryptor { key: vec![0; 32], prefix: vec![0; 8], counter: u32::MAX - 1 };
    assert_eq!(decryptor.chunk(&frame[4..]).unwrap(), b"x");
}

#[test]
fn keys_have_32_bytes() {
    for setting in ["", "AAAA", "not base64!"] {
        assert_eq!(
            encryption_key(setting).unwrap_err().message,
            "AGAPORNIS_BACKUP_ENCRYPTION_KEY must be a base64 encoded 32-byte key."
        );
    }
}

#[test]
fn another_key_does_not_open_a_backup() {
    let key = encryption_key(KEY).unwrap();
    let data = encrypt_backup(&key, &[9; 8], &vec![b"secret".to_vec()]).unwrap();
    assert_eq!(
        decrypt_backup(&[8; 32], &data).unwrap_err().message,
        "encrypted backup authentication failed"
    );
    let empty = encrypt_backup(&key, &[9; 8], &Vec::new()).unwrap();
    assert_eq!(decrypt_backup(&[8; 32], &empty).unwrap(), b"");
}

#[test]
fn backups_are_planned() {
    let plan = |storage: &str, configured, encrypt, key: &str, exists| {
        create_plan("one", storage, configured, 2, encrypt, key, exists, "x", "/b", "/tmp/t")
    };
    let local = plan("local", false, true, KEY, true).unwrap();
    assert_eq!(local.archive, "/b/one/x.tar.gz");
    assert!(local.upload.is_none());
    assert_eq!(local.steps, [BackupStep::MakeDirectory, BackupStep::Pack, BackupStep::Record]);
    let remote = plan("s3", true, false, "", true).unwrap();
    assert_eq!(remote.upload.unwrap(), "/tmp/t/x.tar.gz");
    let sealed = plan("s3", true, true, KEY, true).unwrap();
    assert_eq!(sealed.upload.unwrap(), "/tmp/t/x.tar.gz.agp");
    assert_eq!(
        sealed.steps,
        [
            BackupStep::MakeDirectory,
            BackupStep::Pack,
            BackupStep::Encrypt,
            BackupStep::Upload,
            BackupStep::Verify,
            BackupStep::RemoveUpload,
            BackupStep::RemoveArchive,
            BackupStep::Expire,
            BackupStep::Find,
        ]
    );
    let unlimited =
        create_plan("one", "s3", true, 0, false, "", true, "x", "/b", "/tmp/t").unwrap();
    assert!(!unlimited.steps.contains(&BackupStep::Expire));
    assert_eq!(
        plan("s3", false, false, "", true).err().unwrap().message,
        "S3 storage is not configured on this agent."
    );
    assert_eq!(
        plan("local", false, false, "", false).err().unwrap().message,
        "Server volume not found: one"
    );
    assert!(plan("local", false, true, "", true).is_err());
    assert!(plan("elsewhere", false, false, "", true).is_err());
    assert_eq!(new_backup_id("20260720-041213", 0xab), "20260720-041213-000000ab");
}

#[test]
fn listings_have_the_newest_first() {
    let list = vec![backup("a", "2026-01-01"), backup("b", "2026-03-01"), backup("c", "2026-02-01"), backup("d", "2026-03-01")];
    assert_eq!(ids(&sorted(list)), ["b", "d", "c", "a"]);
}

#[test]
fn retention_keeps_the_newest() {
    let list = || vec![backup("a", "1"), backup("b", "3"), backup("c", "2")];
    assert_eq!(ids(&expired(list(), 1)), ["c", "a"]);
    assert_eq!(ids(&expired(list(), 2)), ["a"]);
    assert!(expired(list(), 3).is_empty());
    assert!(expired(list(), 0).is_empty());
    assert!(expired(list(), -1).is_empty());
}

#[test]
fn backups_are_found_and_prepared() {
    let list = vec![backup("a", "1"), backup("b", "2")];
    let found = find_backup(list, "b").unwrap();
    assert_eq!(found.created_at, "2");
    assert!(find_backup(Vec::new(), "b").is_none());
    let prepared = prepare("one", "b", "s3", "/b", "/t", "u", Some(found)).unwrap();
    assert_eq!(prepared.archive, "/t/b-u.tar.gz");
    assert_eq!(prepared.stored.unwrap(), "/t/b-u.stored");
    let local = prepare("one", "a", "local", "/b", "/t", "u", Some(backup("a", "1"))).unwrap();
    assert_eq!(local.archive, "/b/one/a.tar.gz");
    assert!(local.stored.is_none());
    assert_eq!(
        prepare("one", "a", "local", "/b", "/t", "u", None).err().unwrap().message,
        "Backup not found."
    );
    assert!(check_lookup("../one", "a", "s3").is_ok());
    assert!(check_lookup("../one", "a", "local").is_err());
    assert_eq!(server_transfer_path("/t", "one", "20260101000000"), "/t/one-20260101000000.tar.gz");
    assert_eq!(
        backups_transfer_path("/t", "one", "20260101000000"),
        "/t/one-backups-20260101000000.tar.gz"
    );
    assert_eq!(temporary_dir("/tmp"), "/tmp/agapornis-backups");
}

#[test]
fn objects_have_keys_below_their_server() {
    let store = S3Store::new("bucket", "access", "secret", Some("/agents/"));
    assert!(store.configured());
    assert!(store.client().is_ok());
    assert_eq!(store.prefix("one"), "agents/servers/one/backups/");
    assert_eq!(store.archive("one", "x", true), "agents/servers/one/backups/x.tar.gz.agp");
    assert_eq!(
        store.deleted_keys("one", "x", false),
        ["agents/servers/one/backups/x.tar.gz", "agents/servers/one/backups/x.metadata.json"]
    );
    assert!(is_metadata_key(&store.metadata("one", "x")));
    let none = S3Store::new("bucket", "", "secret", Some("other"));
    assert!(!none.configured());
    assert_eq!(none.prefix, "agapornis");
    assert_eq!(
        none.client().unwrap_err().message,
        "S3 storage is not configured on this agent."
    );
    let settings = S3Settings::new(None, Some(" "), Some("false"));
    assert_eq!(settings.region, "us-east-1");
    assert!(settings.endpoint.is_none());
    assert!(!settings.force_path_style);
}

#[test]
fn local_backup_verifies_and_restores_exact_snapshot() {
    let created = new_backup("server-one", "local", false, "x", read(&[b"packed"]), "now");
    assert!(verify_integrity(read(&[b"packed"]), &created, None).is_ok());
    assert!(
        verify_integrity(read(&[b"packed"]), &created, Some(&created.checksum_sha256)).is_ok()
    );
    let places = restore_places("/servers", "server-one", "s").unwrap();
    assert_eq!(places.target, "/servers/server-one");
    assert_eq!(places.staging, "/servers/.server-one.restore-s");
    assert_eq!(places.previous, "/servers/.server-one.previous-s");

    let mut target = vec!["world.txt=changed", "stale.txt=must disappear"];
    let mut staging: Vec<&str> = Vec::new();
    let mut previous: Vec<&str> = Vec::new();
    let mut step = RestoreStep::first();
    loop {
        match &step {
            RestoreStep::Unpack => staging = vec!["world.txt=original"],
            RestoreStep::MoveAside => previous.append(&mut target),
            RestoreStep::MoveIn => target.append(&mut staging),
            RestoreStep::Finished(verdict) => {
                assert!(matches!(verdict, Verdict::Restored));
                break;
            }
            _ => {}
        }
        step = step.after(StepOutcome::Done);
    }
    assert_eq!(target, ["world.txt=original"]);
}

#[test]
fn a_failed_restore_brings_the_old_data_back() {
    let mut step = RestoreStep::MoveIn.after(StepOutcome::Failed("disk full".into()));
    assert!(matches!(step, RestoreStep::ClearTarget));
    step = step.after(StepOutcome::Done);
    assert!(matches!(step, RestoreStep::UndoMoveIn(None)));
    step = step.after(StepOutcome::Done).after(StepOutcome::Done).after(StepOutcome::Done);
    assert!(matches!(step,
        RestoreStep::Finished(Verdict::Intact(m)) if m == "activate restored server data"));
    let torn = RestoreStep::UndoAside.after(StepOutcome::Failed("gone".into()));
    assert!(matches!(torn, RestoreStep::RemoveStaging(..)));
    let torn = torn.after(StepOutcome::Done);
    assert!(matches!(torn, RestoreStep::Finished(Verdict::Torn(m))
        if m == "move current server data aside before restore; rollback also failed: gone"));
    let unpacked = RestoreStep::Unpack.after(StepOutcome::Failed("bad archive".into()));
    assert!(matches!(unpacked.after(StepOutcome::Done),
        RestoreStep::Finished(Verdict::Intact(m)) if m == "bad archive"));
}

#[test]
fn what_was_moved_aside_stays_where_it_could_not_be_brought_back() {
    let failed = || StepOutcome::Failed("stuck".into());
    for clears in [true, false] {
        let cleared = if clears { StepOutcome::Done } else { failed() };
        let mut step = RestoreStep::MoveIn.after(failed()).after(cleared).after(failed());
        while !matches!(step, RestoreStep::Finished(_)) {
            assert!(!matches!(step, RestoreStep::RemovePrevious(..)));
            step = step.after(StepOutcome::Done);
        }
        assert!(matches!(step, RestoreStep::Finished(Verdict::Torn(_))));
    }
}

#[test]
fn a_refused_archive_is_not_restored() {
    let refused = RestoreStep::first().after(StepOutcome::Failed("another archive".into()));
    assert!(matches!(refused,
        RestoreStep::Finished(Verdict::Intact(m)) if m == "another archive"));
    let unsafe_entries =
        RestoreStep::first().after(StepOutcome::Done).after(StepOutcome::Failed("unsafe".into()));
    assert!(matches!(unsafe_entries, RestoreStep::Finished(Verdict::Intact(_))));
}
