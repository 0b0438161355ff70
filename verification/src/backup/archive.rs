//! Archives on disk: where they lie, and whether one may be trusted.

use crate::digest;
use crate::digest::{sha256_input, Sha256Hasher};
use crate::error::Failure;
use crate::paths;
use crate::text;
use vstd::prelude::*;

verus! {

/// The kind of checksum that a backup carries.
pub const CHECKSUM: &'static str = "sha256";

/// What is known of a backup.
pub struct BackupInfo {
    pub backup_id: String,
    pub server_id: String,
    pub archive_name: String,
    pub size_bytes: i64,
    pub created_at: String,
    pub checksum_sha256: String,
    pub checksum_type: String,
    pub storage: String,
    pub encrypted: bool,
    pub last_verified_at: Option<String>,
    pub expires_at: Option<String>,
}

/// The directory that holds every backup: what is configured, or the platform's default.
pub fn backups_base(configured: Option<&str>, windows: bool, program_data: Option<&str>) -> (r:
    String)
    ensures
        r@ == match configured {
            Some(dir) => dir@,
            None => if windows {
                paths::windows_joined(
                    match program_data {
                        Some(dir) => dir@,
                        None => "C:\\ProgramData"@,
                    },
                    "agapornis/backups"@,
                )
            } else {
                "/var/lib/agapornis/backups"@
            },
        },
{
    match configured {
        Some(dir) => dir.to_owned(),
        None => if windows {
            let root = match program_data {
                Some(dir) => dir,
                None => "C:\\ProgramData",
            };
            paths::windows_join(root, "agapornis/backups")
        } else {
            "/var/lib/agapornis/backups".to_owned()
        },
    }
}

/// The directory that holds the backups of a server.
pub fn backup_dir(base: &str, id: &str) -> (r: Result<String, Failure>)
    ensures
        r is Ok <==> paths::valid_id(id@),
        r is Ok ==> r->Ok_0@ == paths::joined(base@, id@),
        r is Err ==> r->Err_0.message@ == "invalid server id"@,
{
    match paths::validate_id(id) {
        Ok(()) => Ok(paths::join_path(base, id)),
        Err(e) => Err(e),
    }
}

/// An identifier of a backup: it is not empty, does not climb, and names one entry.
pub open spec fn valid_backup_id(id: Seq<char>) -> bool {
    id.len() > 0 && !text::contains(id, ".."@) && !id.contains('/') && !id.contains('\\')
}

/// Refuses an identifier that could name anything but one entry of a backup directory.
pub fn validate_backup_id(id: &str) -> (r: Result<(), Failure>)
    ensures
        r is Ok <==> valid_backup_id(id@),
        r is Err ==> r->Err_0.message@ == "Invalid backup id."@,
{
    if text::is_empty(id) || text::has(id, "..") || text::has_char(id, '/') || text::has_char(
        id,
        '\\',
    ) {
        Err(Failure::new("Invalid backup id."))
    } else {
        Ok(())
    }
}

/// Where the archive of a backup lies.
pub fn archive_path(base: &str, id: &str, backup_id: &str) -> (r: Result<String, Failure>)
    ensures
        r is Ok <==> valid_backup_id(backup_id@) && paths::valid_id(id@),
        r is Ok ==> r->Ok_0@ == paths::joined(
            paths::joined(base@, id@),
            backup_id@ + ".tar.gz"@,
        ),
        !valid_backup_id(backup_id@) ==> r->Err_0.message@ == "Invalid backup id."@,
        valid_backup_id(backup_id@) && r is Err ==> r->Err_0.message@ == "invalid server id"@,
{
    match validate_backup_id(backup_id) {
        Ok(()) => match backup_dir(base, id) {
            Ok(dir) => {
                let name = text::concat2(backup_id, ".tar.gz");
                Ok(paths::join_path(dir.as_str(), name.as_str()))
            },
            Err(e) => Err(e),
        },
        Err(e) => Err(e),
    }
}

/// Where what is known of a backup lies.
pub fn metadata_path(base: &str, id: &str, backup_id: &str) -> (r: Result<String, Failure>)
    ensures
        r is Ok <==> valid_backup_id(backup_id@) && paths::valid_id(id@),
        r is Ok ==> r->Ok_0@ == paths::joined(paths::joined(base@, id@), backup_id@ + ".json"@),
        !valid_backup_id(backup_id@) ==> r->Err_0.message@ == "Invalid backup id."@,
        valid_backup_id(backup_id@) && r is Err ==> r->Err_0.message@ == "invalid server id"@,
{
    match validate_backup_id(backup_id) {
        Ok(()) => match backup_dir(base, id) {
            Ok(dir) => {
                let name = text::concat2(backup_id, ".json");
                Ok(paths::join_path(dir.as_str(), name.as_str()))
            },
            Err(e) => Err(e),
        },
        Err(e) => Err(e),
    }
}

/// A place that backups can be kept in.
pub open spec fn valid_storage(s: Seq<char>) -> bool {
    s == "local"@ || s == "s3"@
}

/// Refuses a place that backups cannot be kept in.
pub fn validate_storage(s: &str) -> (r: Result<(), Failure>)
    ensures
        r is Ok <==> valid_storage(s@),
        r is Err ==> r->Err_0.message@ == "Backup storage must be local or s3."@,
{
    if !text::same(s, "local") && !text::same(s, "s3") {
        Err(Failure::new("Backup storage must be local or s3."))
    } else {
        Ok(())
    }
}

/// The identifier of the backup that a file of a backup directory holds, if it holds one.
pub fn backup_of_file(name: &str) -> (r: Option<String>)
    ensures
        text::opt_view(r) == text::without_suffix(name@, ".tar.gz"@),
{
    text::strip_suffix(name, ".tar.gz")
}

/// What is known of a local archive with nothing recorded of it.
pub fn unrecorded_backup(
    id: &str,
    backup_id: &str,
    name: &str,
    size: i64,
    created_at: &str,
) -> (r: BackupInfo)
    ensures
        r.backup_id@ == backup_id@,
        r.server_id@ == id@,
        r.archive_name@ == name@,
        r.size_bytes == size,
        r.created_at@ == created_at@,
        r.checksum_sha256@ == ""@,
        r.checksum_type@ == CHECKSUM@,
        r.storage@ == "local"@,
        !r.encrypted,
        r.last_verified_at is None,
        r.expires_at is None,
{
    BackupInfo {
        backup_id: backup_id.to_owned(),
        server_id: id.to_owned(),
        archive_name: name.to_owned(),
        size_bytes: size,
        created_at: created_at.to_owned(),
        checksum_sha256: "".to_owned(),
        checksum_type: CHECKSUM.to_owned(),
        storage: "local".to_owned(),
        encrypted: false,
        last_verified_at: None,
        expires_at: None,
    }
}

/// The arguments with which `tar` packs a directory.
pub fn pack_arguments(source: &str, target: &str) -> (r: Vec<String>)
    ensures
        text::views(r@) == seq!["-czf"@, target@, "-C"@, source@, "."@],
{
    let list: Vec<&str> = vec!["-czf", target, "-C", source, "."];
    let r = text::owned(list);
    assert(text::views(r@) =~= seq!["-czf"@, target@, "-C"@, source@, "."@]);
    r
}

/// The arguments with which `tar` unpacks an archive.
pub fn unpack_arguments(source: &str, target: &str) -> (r: Vec<String>)
    ensures
        text::views(r@) == seq!["-xzf"@, source@, "-C"@, target@],
{
    let list: Vec<&str> = vec!["-xzf", source, "-C", target];
    let r = text::owned(list);
    assert(text::views(r@) =~= seq!["-xzf"@, source@, "-C"@, target@]);
    r
}

/// The arguments with which `tar` lists what an archive holds.
pub fn list_arguments(path: &str) -> (r: Vec<String>)
    ensures
        text::views(r@) == seq!["-tzf"@, path@],
{
    let list: Vec<&str> = vec!["-tzf", path];
    let r = text::owned(list);
    assert(text::views(r@) =~= seq!["-tzf"@, path@]);
    r
}

/// An entry of an archive, with slashes between its names.
pub open spec fn normal_entry(raw: Seq<char>) -> Seq<char> {
    text::swapped(text::trimmed(raw), '\\', '/')
}

/// An entry of an archive that stays below the directory that the archive is unpacked in.
pub open spec fn safe_entry(raw: Seq<char>) -> bool {
    !text::begins(normal_entry(raw), "/"@) && !text::split_on(normal_entry(raw), '/').contains(
        ".."@,
    )
}

/// Refuses an entry of an archive that would not stay below the directory that the archive is
/// unpacked in.
pub fn validate_entry(raw: &str) -> (r: Result<(), Failure>)
    ensures
        r is Ok <==> safe_entry(raw@),
        r is Err ==> r->Err_0.message@ == "Backup contains an unsafe archive path."@,
{
    let plain = text::trim(raw);
    let entry = text::swap_char(plain.as_str(), '\\', '/');
    let parts = text::split(entry.as_str(), '/');
    if text::starts_with(entry.as_str(), "/") || text::list_has(parts.as_slice(), "..") {
        Err(Failure::new("Backup contains an unsafe archive path."))
    } else {
        Ok(())
    }
}

/// Whether an archive can be unpacked, by the lines that `tar` listed and how it ended.
pub fn validate_archive(entries: &Vec<String>, success: bool, code: Option<i32>) -> (r: Result<
    (),
    Failure,
>)
    ensures
        ({
            let safe = forall|i: int|
                0 <= i < entries@.len() ==> safe_entry(#[trigger] text::views(entries@)[i]);
            &&& r is Ok <==> safe && success
            &&& !safe ==> r->Err_0.message@ == "Backup contains an unsafe archive path."@
            &&& safe && !success ==> r->Err_0.message@
                == "archive validation exited with status "@ + text::signed_decimal(
                match code {
                    Some(n) => n as int,
                    None => -1,
                },
            )
        }),
{
    let mut i: usize = 0;
    while i < entries.len()
        invariant
            0 <= i <= entries@.len(),
            forall|k: int| 0 <= k < i ==> safe_entry(#[trigger] text::views(entries@)[k]),
        decreases entries.len() - i,
    {
        let checked = validate_entry(entries[i].as_str());
        assert(text::views(entries@)[i as int] == entries@[i as int]@);
        if checked.is_err() {
            return checked;
        }
        i += 1;
    }
    if success {
        Ok(())
    } else {
        let n: i64 = match code {
            Some(n) => n as i64,
            None => -1,
        };
        let number = text::signed_decimal_string(n);
        let message = text::concat2("archive validation exited with status ", number.as_str());
        Err(Failure { message })
    }
}

/// An archive that is read piece by piece, to be held to its digest.
pub struct ArchiveReader {
    /// The bytes that were read, in their order.
    pub hasher: Sha256Hasher,
    /// How many bytes were read.
    pub size: i64,
}

impl View for ArchiveReader {
    type V = Seq<u8>;

    open spec fn view(&self) -> Seq<u8> {
        sha256_input(self.hasher)
    }
}

/// The most bytes of an archive that can be held to its digest.
pub const MAX_ARCHIVE_BYTES: i64 = 0x1fff_ffff_ffff_ffff;

impl ArchiveReader {
    /// What was read was counted.
    pub open spec fn wf(&self) -> bool {
        self.size == self@.len() && self.size <= MAX_ARCHIVE_BYTES
    }

    /// Nothing was read.
    pub fn new() -> (r: ArchiveReader)
        ensures
            r.wf(),
            r@ == Seq::<u8>::empty(),
    {
        ArchiveReader { hasher: Sha256Hasher::new(), size: 0 }
    }

    /// More of the archive was read.
    pub fn read(&mut self, bytes: &[u8])
        requires
            old(self).wf(),
            old(self)@.len() + bytes@.len() <= MAX_ARCHIVE_BYTES,
        ensures
            final(self).wf(),
            final(self)@ == old(self)@ + bytes@,
    {
        self.hasher.update(bytes);
        self.size = self.size + bytes.len() as i64;
    }

    /// The digest of what was read, as hexadecimal digits.
    pub fn sha256(self) -> (r: String)
        ensures
            r@ == digest::hex(digest::sha256(self@)),
    {
        let bytes = self.hasher.finish();
        digest::hex_text(bytes.as_slice())
    }
}

/// Why an archive with the given bytes is not the one that is wanted; none where it is.
pub open spec fn integrity_refusal(
    bytes: Seq<u8>,
    info: BackupInfo,
    expected: Option<Seq<char>>,
) -> Option<Seq<char>> {
    let actual = digest::hex(digest::sha256(bytes));
    if expected is Some && !digest::same_hash(actual, expected->0) {
        Some("Backup checksum did not match the requested restore."@)
    } else if info.checksum_sha256@.len() > 0 && !digest::same_hash(
        actual,
        info.checksum_sha256@,
    ) {
        Some("Backup checksum did not match its metadata."@)
    } else if bytes.len() != info.size_bytes {
        Some("Backup size did not match its metadata."@)
    } else {
        None
    }
}

/// Refuses an archive that is not the one that was asked for, or not the one that was recorded, by
/// the bytes that were read of it.
pub fn verify_integrity(archive: ArchiveReader, info: &BackupInfo, expected: Option<&str>) -> (r:
    Result<(), Failure>)
    requires
        archive.wf(),
    ensures
        ({
            let refusal = integrity_refusal(
                archive@,
                *info,
                match expected {
                    Some(e) => Some(e@),
                    None => None,
                },
            );
            &&& r is Ok <==> refusal is None
            &&& r is Err ==> Some(r->Err_0.message@) == refusal
        }),
{
    let size = archive.size;
    let actual = archive.sha256();
    match expected {
        Some(expected) => {
            if !digest::hash_eq(actual.as_str(), expected) {
                return Err(Failure::new("Backup checksum did not match the requested restore."));
            }
        },
        None => {},
    }
    if !text::is_empty(info.checksum_sha256.as_str()) && !digest::hash_eq(
        actual.as_str(),
        info.checksum_sha256.as_str(),
    ) {
        return Err(Failure::new("Backup checksum did not match its metadata."));
    }
    if size != info.size_bytes {
        return Err(Failure::new("Backup size did not match its metadata."));
    }
    Ok(())
}

// ---------------------------------------------------------------------------------------------
// Laws.

/// What lies in a backup directory under the name of a backup's archive is that backup.
pub proof fn law_archive_names_its_backup(backup_id: Seq<char>)
    ensures
        text::without_suffix(backup_id + ".tar.gz"@, ".tar.gz"@) == Some(backup_id),
{
    let name = backup_id + ".tar.gz"@;
    assert(name.subrange(backup_id.len() as int, name.len() as int) =~= ".tar.gz"@);
    assert(name.take(backup_id.len() as int) =~= backup_id);
}

/// What is recorded of a backup is the digest and the size of its archive.
pub open spec fn recorded_of(info: BackupInfo, bytes: Seq<u8>) -> bool {
    &&& info.checksum_sha256@ == digest::hex(digest::sha256(bytes))
    &&& info.size_bytes == bytes.len()
}

/// An archive that was recorded with its digest and size passes while it is unchanged, whether or
/// not that digest is asked for.
pub proof fn law_unchanged_archive_passes(bytes: Seq<u8>, info: BackupInfo, asked: bool)
    requires
        recorded_of(info, bytes),
    ensures
        integrity_refusal(
            bytes,
            info,
            if asked {
                Some(info.checksum_sha256@)
            } else {
                None
            },
        ) is None,
{
    digest::law_digests_compare_by_value(digest::sha256(bytes), digest::sha256(bytes));
}

/// An archive whose size or digest is another than that of the archive that was recorded is
/// refused, whatever else holds.
pub proof fn law_changed_archive_is_refused(
    now: Seq<u8>,
    then: Seq<u8>,
    info: BackupInfo,
    expected: Option<Seq<char>>,
)
    requires
        recorded_of(info, then),
        info.checksum_sha256@.len() > 0,
        now.len() != then.len() || digest::sha256(now) != digest::sha256(then),
    ensures
        integrity_refusal(now, info, expected) is Some,
{
    digest::law_digests_compare_by_value(digest::sha256(now), digest::sha256(then));
}

/// An archive is refused for a digest that is asked for and that is not its own.
pub proof fn law_other_archives_are_refused(bytes: Seq<u8>, asked: Seq<u8>, info: BackupInfo)
    requires
        asked != digest::sha256(bytes),
    ensures
        integrity_refusal(bytes, info, Some(digest::hex(asked))) == Some(
            "Backup checksum did not match the requested restore."@,
        ),
{
    digest::law_digests_compare_by_value(digest::sha256(bytes), asked);
}

/// An identifier of a backup names one entry of a directory: it is not empty, has no separator, and
/// no two dots in a row.
pub proof fn law_backup_ids_name_one_entry(id: Seq<char>)
    ensures
        valid_backup_id(id) <==> id.len() > 0 && (forall|i: int|
            0 <= i < id.len() ==> id[i] != '/' && id[i] != '\\') && (forall|i: int|
            0 <= i < id.len() - 1 ==> !((#[trigger] id[i]) == '.' && id[i + 1] == '.')),
        valid_storage(id) <==> id == "local"@ || id == "s3"@,
{
    reveal_strlit("..");
    if text::contains(id, ".."@) {
        let i = choose|i: int| text::occurs_at(id, ".."@, i);
        assert(id.subrange(i, i + 2)[0] == id[i]);
        assert(id.subrange(i, i + 2)[1] == id[i + 1]);
    }
    if exists|i: int| 0 <= i < id.len() - 1 && (#[trigger] id[i]) == '.' && id[i + 1] == '.' {
        let i = choose|i: int|
            0 <= i < id.len() - 1 && (#[trigger] id[i]) == '.' && id[i + 1] == '.';
        assert(id.subrange(i, i + 2) =~= ".."@);
        assert(text::occurs_at(id, ".."@, i));
    }
    assert forall|i: int| 0 <= i < id.len() implies id.contains(#[trigger] id[i]) by {}
}

/// An entry that climbs out of its directory, with separators of either kind, or that begins at the
/// root, is not safe, wherever in its path it climbs.
pub proof fn law_climbing_entries_are_not_safe(raw: Seq<char>, a: Seq<char>, b: Seq<char>)
    ensures
        normal_entry(raw) == ".."@ ==> !safe_entry(raw),
        normal_entry(raw) == ".."@ + seq!['/'] + b ==> !safe_entry(raw),
        normal_entry(raw) == a.push('/') + ".."@ ==> !safe_entry(raw),
        normal_entry(raw) == a.push('/') + (".."@.push('/') + b) ==> !safe_entry(raw),
        normal_entry(raw).len() > 0 && normal_entry(raw)[0] == '/' ==> !safe_entry(raw),
{
    reveal_strlit("..");
    reveal_strlit("/");
    let dots = ".."@;
    let s = normal_entry(raw);
    let alone = text::split_on(dots, '/');
    text::lemma_index_of_unique(dots, '/', 2);
    assert(dots.take(2) =~= dots);
    assert(alone =~= seq![dots]);
    assert(alone[0] == dots);
    text::law_pieces_of_joined_text(dots, '/', b);
    let two = alone + text::split_on(b, '/');
    assert(two[0] == dots);
    assert(dots.push('/') + b =~= dots + seq!['/'] + b);
    text::law_pieces_of_joined_text(a, '/', dots);
    let first = text::split_on(a, '/');
    let three = first + alone;
    assert(three[first.len() as int] == dots);
    text::law_pieces_of_joined_text(a, '/', dots.push('/') + b);
    let four = first + two;
    assert(four[first.len() as int] == dots);
    if s.len() > 0 && s[0] == '/' {
        assert(s.subrange(0, 1) =~= "/"@);
    }
}

/// An entry below the directory of its archive is safe: it does not begin with a separator and has
/// no two dots in a row. Its separators are read as slashes, and nothing else of it changes.
pub proof fn law_plain_entries_are_safe(raw: Seq<char>, k: int)
    requires
        text::trimmed(raw) == raw,
    ensures
        normal_entry(raw).len() == raw.len(),
        0 <= k < raw.len() ==> normal_entry(raw)[k] == if raw[k] == '\\' {
            '/'
        } else {
            raw[k]
        },
        raw.len() > 0 && raw[0] != '/' && raw[0] != '\\' && (forall|i: int|
            0 <= i < raw.len() - 1 ==> !((#[trigger] raw[i]) == '.' && raw[i + 1] == '.'))
            ==> safe_entry(raw),
{
    reveal_strlit("..");
    reveal_strlit("/");
    let s = normal_entry(raw);
    if raw.len() > 0 && raw[0] != '/' && raw[0] != '\\' && (forall|i: int|
        0 <= i < raw.len() - 1 ==> !((#[trigger] raw[i]) == '.' && raw[i + 1] == '.')) {
        if text::begins(s, "/"@) {
            assert(s.subrange(0, 1)[0] == s[0]);
        }
        if text::split_on(s, '/').contains(".."@) {
            lemma_piece_stands(s, ".."@);
            let (x, y) = choose|x: Seq<char>, y: Seq<char>| s == #[trigger] (x + ".."@ + y);
            let n = x.len() as int;
            assert(s[n] == '.' && s[n + 1] == '.');
            assert(raw[n] == '.' && raw[n + 1] == '.');
        }
    }
}

proof fn lemma_piece_stands(s: Seq<char>, piece: Seq<char>)
    requires
        text::split_on(s, '/').contains(piece),
    ensures
        exists|x: Seq<char>, y: Seq<char>| s == #[trigger] (x + piece + y),
    decreases s.len(),
{
    text::lemma_index_of(s, '/');
    let all = text::split_on(s, '/');
    let k = choose|k: int| 0 <= k < all.len() && all[k] == piece;
    let i = text::index_of(s, '/');
    if i < s.len() {
        let rest = s.skip(i + 1);
        assert(all == seq![s.take(i)] + text::split_on(rest, '/'));
        if k == 0 {
            let x = Seq::<char>::empty();
            let y = s.skip(i);
            assert(s =~= x + piece + y);
        } else {
            assert(text::split_on(rest, '/')[k - 1] == piece);
            lemma_piece_stands(rest, piece);
            let (x, y) = choose|x: Seq<char>, y: Seq<char>| rest == #[trigger] (x + piece + y);
            let longer = s.take(i + 1) + x;
            assert(s =~= s.take(i + 1) + rest);
            assert(s.take(i + 1) + (x + piece + y) =~= longer + piece + y);
        }
    } else {
        let x = Seq::<char>::empty();
        assert(all =~= seq![s]);
        assert(s =~= x + piece + x);
    }
}

} // verus!
