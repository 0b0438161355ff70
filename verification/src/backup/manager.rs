//! Making, listing, finding and removing backups.

use crate::backup::archive::{
    archive_path, metadata_path, recorded_of, validate_backup_id, validate_storage, ArchiveReader,
    BackupInfo, CHECKSUM,
};
use crate::backup::crypto::encryption_key;
use crate::digest;
use crate::error::Failure;
use crate::paths;
use crate::text;
use vstd::prelude::*;

verus! {

/// A number as eight hexadecimal digits.
pub open spec fn hex8(n: u32) -> Seq<char> {
    digest::hex(crate::backup::crypto::be32(n))
}

/// The identifier of a backup that is made at the given time.
pub fn new_backup_id(stamp: &str, random: u32) -> (r: String)
    ensures
        r@ == stamp@ + "-"@ + hex8(random),
{
    let bytes: Vec<u8> = vec![
        (random / 16777216) as u8,
        (random / 65536 % 256) as u8,
        (random / 256 % 256) as u8,
        (random % 256) as u8,
    ];
    assert(bytes@ =~= crate::backup::crypto::be32(random));
    let digits = digest::hex_text(bytes.as_slice());
    text::concat3(stamp, "-", digits.as_str())
}

/// A step of making a backup.
#[derive(Clone, Copy, Debug, PartialEq, Eq, Structural)]
pub enum BackupStep {
    MakeDirectory,
    Pack,
    /// Writes down what is known of a local backup.
    Record,
    Encrypt,
    Upload,
    /// Fetches what was stored, and checks that it can be restored.
    Verify,
    /// Removes the bytes that went to the object store; that they stay is no failure.
    RemoveUpload,
    /// Removes the archive that was made; that it stays is no failure.
    RemoveArchive,
    /// Deletes the backups that are too many.
    Expire,
    /// Looks what is known of the backup that was stored.
    Find,
}

/// The steps in which a backup is made, in order. Each is taken once the one before it succeeded.
pub open spec fn backup_steps(local: bool, encrypt: bool, limited: bool) -> Seq<BackupStep> {
    seq![BackupStep::MakeDirectory, BackupStep::Pack] + if local {
        seq![BackupStep::Record]
    } else {
        (if encrypt {
            seq![BackupStep::Encrypt]
        } else {
            Seq::empty()
        }) + seq![
            BackupStep::Upload,
            BackupStep::Verify,
            BackupStep::RemoveUpload,
            BackupStep::RemoveArchive,
        ] + (if limited {
            seq![BackupStep::Expire]
        } else {
            Seq::empty()
        }) + seq![BackupStep::Find]
    }
}

fn plan_steps(local: bool, encrypt: bool, limited: bool) -> (r: Vec<BackupStep>)
    ensures
        r@ == backup_steps(local, encrypt, limited),
{
    let mut steps: Vec<BackupStep> = Vec::new();
    steps.push(BackupStep::MakeDirectory);
    steps.push(BackupStep::Pack);
    if local {
        steps.push(BackupStep::Record);
    } else {
        if encrypt {
            steps.push(BackupStep::Encrypt);
        }
        steps.push(BackupStep::Upload);
        steps.push(BackupStep::Verify);
        steps.push(BackupStep::RemoveUpload);
        steps.push(BackupStep::RemoveArchive);
        if limited {
            steps.push(BackupStep::Expire);
        }
        steps.push(BackupStep::Find);
    }
    assert(steps@ =~= backup_steps(local, encrypt, limited));
    steps
}

/// What making a backup does.
pub struct CreatePlan {
    /// The directory that the archive is made in.
    pub directory: String,
    pub archive_name: String,
    /// Where the archive is made.
    pub archive: String,
    /// Where the bytes lie that go to the object store, if any do.
    pub upload: Option<String>,
    pub steps: Vec<BackupStep>,
}

/// Why a backup is not made; none where it is.
pub open spec fn create_refusal(
    id: Seq<char>,
    storage: Seq<char>,
    store_configured: bool,
    encrypt: bool,
    key: Seq<char>,
    exists: bool,
) -> Option<Seq<char>> {
    if !crate::backup::archive::valid_storage(storage) {
        Some("Backup storage must be local or s3."@)
    } else if !paths::valid_id(id) {
        Some("invalid server id"@)
    } else if storage == "s3"@ && !store_configured {
        Some("S3 storage is not configured on this agent."@)
    } else if encrypt && !(digest::base64(key) is Ok && digest::base64(key)->Ok_0.len() == 32) {
        Some("AGAPORNIS_BACKUP_ENCRYPTION_KEY must be a base64 encoded 32-byte key."@)
    } else if !exists {
        Some("Server volume not found: "@ + id)
    } else {
        None
    }
}

/// Decides what making a backup does. Local backups are made where they stay and are never
/// encrypted; those for the object store are made in a temporary directory.
pub fn create_plan(
    id: &str,
    storage: &str,
    store_configured: bool,
    retention: i32,
    encrypt: bool,
    key: &str,
    exists: bool,
    backup_id: &str,
    base: &str,
    temporary: &str,
) -> (r: Result<CreatePlan, Failure>)
    ensures
        ({
            let refusal = create_refusal(id@, storage@, store_configured, encrypt, key@, exists);
            &&& r is Ok <==> refusal is None
            &&& r is Err ==> Some(r->Err_0.message@) == refusal
            &&& r is Ok ==> {
                let plan = r->Ok_0;
                &&& plan.directory@ == if storage@ == "local"@ {
                    paths::joined(base@, id@)
                } else {
                    temporary@
                }
                &&& plan.archive_name@ == backup_id@ + ".tar.gz"@
                &&& plan.archive@ == paths::joined(plan.directory@, plan.archive_name@)
                &&& text::opt_view(plan.upload) == if storage@ == "local"@ {
                    None
                } else if encrypt {
                    Some(plan.archive@ + ".agp"@)
                } else {
                    Some(plan.archive@)
                }
                &&& plan.steps@ == backup_steps(storage@ == "local"@, encrypt, retention > 0)
            }
        }),
{
    if let Err(e) = validate_storage(storage) {
        return Err(e);
    }
    if let Err(e) = paths::validate_id(id) {
        return Err(e);
    }
    if text::same(storage, "s3") && !store_configured {
        return Err(Failure::new("S3 storage is not configured on this agent."));
    }
    if encrypt {
        if let Err(e) = encryption_key(key) {
            return Err(e);
        }
    }
    if !exists {
        return Err(Failure { message: text::concat2("Server volume not found: ", id) });
    }
    let local = text::same(storage, "local");
    let directory = if local {
        paths::join_path(base, id)
    } else {
        temporary.to_owned()
    };
    let archive_name = text::concat2(backup_id, ".tar.gz");
    let archive = paths::join_path(directory.as_str(), archive_name.as_str());
    let upload = if local {
        None
    } else if encrypt {
        Some(text::concat2(archive.as_str(), ".agp"))
    } else {
        Some(archive.as_str().to_owned())
    };
    let steps = plan_steps(local, encrypt, retention > 0);
    Ok(CreatePlan { directory, archive_name, archive, upload, steps })
}

/// What is known of a backup that was just made, by the bytes that were read of its archive.
pub fn new_backup(
    id: &str,
    storage: &str,
    encrypt: bool,
    backup_id: &str,
    archive: ArchiveReader,
    created_at: &str,
) -> (r: BackupInfo)
    requires
        archive.wf(),
    ensures
        r.backup_id@ == backup_id@,
        r.server_id@ == id@,
        r.archive_name@ == backup_id@ + ".tar.gz"@,
        recorded_of(r, archive@),
        r.created_at@ == created_at@,
        r.checksum_type@ == CHECKSUM@,
        r.storage@ == storage@,
        r.encrypted == encrypt,
        r.last_verified_at is None,
        r.expires_at is None,
{
    BackupInfo {
        backup_id: backup_id.to_owned(),
        server_id: id.to_owned(),
        archive_name: text::concat2(backup_id, ".tar.gz"),
        size_bytes: archive.size,
        created_at: created_at.to_owned(),
        checksum_sha256: archive.sha256(),
        checksum_type: CHECKSUM.to_owned(),
        storage: storage.to_owned(),
        encrypted: encrypt,
        last_verified_at: None,
        expires_at: None,
    }
}

/// One backup was made before another.
pub open spec fn older(a: BackupInfo, b: BackupInfo) -> bool {
    text::precedes(a.created_at@, b.created_at@)
}

/// A backup put into a list that has the newest first, behind those that are not older.
pub open spec fn inserted(list: Seq<BackupInfo>, info: BackupInfo) -> Seq<BackupInfo>
    decreases list.len(),
{
    if list.len() > 0 && older(list.last(), info) {
        inserted(list.drop_last(), info).push(list.last())
    } else {
        list.push(info)
    }
}

/// The backups with the newest first; of two that were made at one time, the one that stood first.
pub open spec fn newest_first(list: Seq<BackupInfo>) -> Seq<BackupInfo>
    decreases list.len(),
{
    if list.len() == 0 {
        list
    } else {
        inserted(newest_first(list.drop_last()), list.last())
    }
}

proof fn lemma_inserted(list: Seq<BackupInfo>, info: BackupInfo, k: int)
    requires
        0 <= k <= list.len(),
        k > 0 ==> !older(list[k - 1], info),
        forall|i: int| k <= i < list.len() ==> older(#[trigger] list[i], info),
    ensures
        inserted(list, info) == list.insert(k, info),
    decreases list.len(),
{
    if k == list.len() {
        assert(list.push(info) =~= list.insert(k, info));
    } else {
        assert(older(list[list.len() - 1], info));
        let shorter = list.drop_last();
        assert forall|i: int| k <= i < shorter.len() implies older(#[trigger] shorter[i], info) by {
            assert(older(list[i], info));
        }
        lemma_inserted(shorter, info, k);
        assert(shorter.insert(k, info).push(list.last()) =~= list.insert(k, info));
    }
}

/// The backups with the newest first.
pub fn sorted(list: Vec<BackupInfo>) -> (r: Vec<BackupInfo>)
    ensures
        r@ == newest_first(list@),
{
    let ghost all = list@;
    let mut out: Vec<BackupInfo> = Vec::new();
    assert(all.take(0) =~= Seq::<BackupInfo>::empty());
    for info in it: list
        invariant
            it.seq() == all,
            out@ == newest_first(all.take(it.index() as int)),
    {
        let ghost n = it.index() as int;
        let mut k: usize = out.len();
        while k > 0 && text::is_before(out[k - 1].created_at.as_str(), info.created_at.as_str())
            invariant
                0 <= k <= out@.len(),
                forall|i: int| k <= i < out@.len() ==> older(#[trigger] out@[i], info),
            decreases k,
        {
            k -= 1;
        }
        proof {
            lemma_inserted(out@, info, k as int);
            assert(all.take(n + 1).drop_last() =~= all.take(n));
            assert(all.take(n + 1).last() == info);
        }
        out.insert(k, info);
    }
    assert(all.take(all.len() as int) =~= all);
    out
}

/// The backups that go so that at most the given number stays: all but the newest ones. A number
/// that is not positive keeps everything.
pub open spec fn expired_of(list: Seq<BackupInfo>, retention: int) -> Seq<BackupInfo> {
    if retention <= 0 || retention >= list.len() {
        Seq::empty()
    } else {
        newest_first(list).skip(retention)
    }
}

/// The backups that go so that at most the given number stays.
pub fn expired(list: Vec<BackupInfo>, retention: i32) -> (r: Vec<BackupInfo>)
    ensures
        r@ == expired_of(list@, retention as int),
{
    let ghost all = list@;
    if retention <= 0 {
        return Vec::new();
    }
    let keep: usize = retention as usize;
    let mut list = sorted(list);
    proof {
        law_listing_is_newest_first(all);
    }
    if keep >= list.len() {
        return Vec::new();
    }
    let out = list.split_off(keep);
    assert(out@ =~= newest_first(all).skip(retention as int));
    out
}

/// Where the first backup with an identifier stands in a list; its length where none does.
pub open spec fn place_of(list: Seq<BackupInfo>, backup_id: Seq<char>) -> int
    decreases list.len(),
{
    if list.len() == 0 || list[0].backup_id@ == backup_id {
        0
    } else {
        1 + place_of(list.skip(1), backup_id)
    }
}

/// The first backup with an identifier.
pub fn find_backup(list: Vec<BackupInfo>, backup_id: &str) -> (r: Option<BackupInfo>)
    ensures
        ({
            let at = place_of(list@, backup_id@);
            r == if 0 <= at < list@.len() {
                Some(list@[at])
            } else {
                None
            }
        }),
{
    let ghost all = list@;
    let mut rest = list;
    let mut i: usize = 0;
    assert(all.skip(0) =~= all);
    while i < rest.len()
        invariant
            all == list@,
            rest@ == all,
            0 <= i <= rest@.len(),
            place_of(all, backup_id@) == i + place_of(all.skip(i as int), backup_id@),
        decreases rest.len() - i,
    {
        assert(all.skip(i as int)[0] == all[i as int]);
        if text::same(rest[i].backup_id.as_str(), backup_id) {
            return Some(rest.swap_remove(i));
        }
        assert(all.skip(i as int).skip(1) =~= all.skip(i + 1));
        i += 1;
    }
    None
}

/// Refuses to look for a backup that cannot be: by its place, by its own identifier, and, where
/// it lies on disk, by the server's.
pub fn check_lookup(id: &str, backup_id: &str, storage: &str) -> (r: Result<(), Failure>)
    ensures
        ({
            let refusal = lookup_refusal(id@, backup_id@, storage@);
            &&& r is Ok <==> refusal is None
            &&& r is Err ==> Some(r->Err_0.message@) == refusal
        }),
{
    if let Err(e) = validate_storage(storage) {
        return Err(e);
    }
    if let Err(e) = validate_backup_id(backup_id) {
        return Err(e);
    }
    if text::same(storage, "local") {
        if let Err(e) = paths::validate_id(id) {
            return Err(e);
        }
    }
    Ok(())
}

/// Why a backup is not looked for; none where it is.
pub open spec fn lookup_refusal(id: Seq<char>, backup_id: Seq<char>, storage: Seq<char>) -> Option<
    Seq<char>,
> {
    if !crate::backup::archive::valid_storage(storage) {
        Some("Backup storage must be local or s3."@)
    } else if !crate::backup::archive::valid_backup_id(backup_id) {
        Some("Invalid backup id."@)
    } else if storage == "local"@ && !paths::valid_id(id) {
        Some("invalid server id"@)
    } else {
        None
    }
}

/// How the archive of a backup becomes readable.
pub struct Prepared {
    /// Where the archive is readable.
    pub archive: String,
    /// Where the bytes of the object store go first.
    pub stored: Option<String>,
    /// Whether those bytes are to be opened.
    pub decrypt: bool,
    pub info: BackupInfo,
}

/// Decides how the archive of a backup becomes readable, from what is known of it; `unique` is to
/// be different each time. An archive from the object store is temporary.
pub fn prepare(
    id: &str,
    backup_id: &str,
    storage: &str,
    base: &str,
    temporary: &str,
    unique: &str,
    found: Option<BackupInfo>,
) -> (r: Result<Prepared, Failure>)
    ensures
        ({
            let refusal = lookup_refusal(id@, backup_id@, storage@);
            &&& r is Ok <==> refusal is None && found is Some
            &&& refusal is Some ==> Some(r->Err_0.message@) == refusal
            &&& refusal is None && found is None ==> r->Err_0.message@ == "Backup not found."@
            &&& r is Ok ==> {
                let prepared = r->Ok_0;
                let name = backup_id@ + "-"@ + unique@;
                &&& prepared.info == found->0
                &&& storage@ == "local"@ ==> {
                    &&& prepared.archive@ == paths::joined(
                        paths::joined(base@, id@),
                        backup_id@ + ".tar.gz"@,
                    )
                    &&& prepared.stored is None
                    &&& !prepared.decrypt
                }
                &&& storage@ == "s3"@ ==> {
                    &&& prepared.archive@ == paths::joined(temporary@, name + ".tar.gz"@)
                    &&& text::opt_view(prepared.stored) == Some(
                        paths::joined(temporary@, name + ".stored"@),
                    )
                    &&& prepared.decrypt == found->0.encrypted
                }
            }
        }),
{
    proof {
        reveal_strlit("local");
        reveal_strlit("s3");
    }
    if let Err(e) = check_lookup(id, backup_id, storage) {
        return Err(e);
    }
    let info = match found {
        Some(info) => info,
        None => {
            return Err(Failure::new("Backup not found."));
        },
    };
    if text::same(storage, "local") {
        assert("local"@.len() != "s3"@.len());
        return match archive_path(base, id, backup_id) {
            Ok(archive) => Ok(Prepared { archive, stored: None, decrypt: false, info }),
            Err(e) => Err(e),
        };
    }
    let stored = text::concat4(backup_id, "-", unique, ".stored");
    let plain = text::concat4(backup_id, "-", unique, ".tar.gz");
    let decrypt = info.encrypted;
    Ok(
        Prepared {
            archive: paths::join_path(temporary, plain.as_str()),
            stored: Some(paths::join_path(temporary, stored.as_str())),
            decrypt,
            info,
        },
    )
}

/// The files that go when a local backup goes: its archive, and what is known of it.
pub fn deleted_files(base: &str, id: &str, backup_id: &str) -> (r: Result<(String, String), Failure>)
    ensures
        r is Ok <==> crate::backup::archive::valid_backup_id(backup_id@) && paths::valid_id(id@),
        r is Ok ==> (r->Ok_0).0@ == paths::joined(
            paths::joined(base@, id@),
            backup_id@ + ".tar.gz"@,
        ),
        r is Ok ==> (r->Ok_0).1@ == paths::joined(
            paths::joined(base@, id@),
            backup_id@ + ".json"@,
        ),
        !crate::backup::archive::valid_backup_id(backup_id@) ==> r->Err_0.message@
            == "Invalid backup id."@,
        crate::backup::archive::valid_backup_id(backup_id@) && r is Err ==> r->Err_0.message@
            == "invalid server id"@,
{
    match archive_path(base, id, backup_id) {
        Ok(archive) => match metadata_path(base, id, backup_id) {
            Ok(metadata) => Ok((archive, metadata)),
            Err(e) => Err(e),
        },
        Err(e) => Err(e),
    }
}

/// Where the data of a server is packed to be sent elsewhere.
pub fn server_transfer_path(temporary: &str, id: &str, stamp: &str) -> (r: String)
    ensures
        r@ == paths::joined(temporary@, id@ + "-"@ + stamp@ + ".tar.gz"@),
{
    let name = text::concat4(id, "-", stamp, ".tar.gz");
    paths::join_path(temporary, name.as_str())
}

/// Where the backups of a server are packed to be sent elsewhere.
pub fn backups_transfer_path(temporary: &str, id: &str, stamp: &str) -> (r: String)
    ensures
        r@ == paths::joined(temporary@, id@ + "-backups-"@ + stamp@ + ".tar.gz"@),
{
    let name = text::concat4(id, "-backups-", stamp, ".tar.gz");
    paths::join_path(temporary, name.as_str())
}

/// The directory that holds temporary archives.
pub fn temporary_dir(root: &str) -> (r: String)
    ensures
        r@ == paths::joined(root@, "agapornis-backups"@),
{
    paths::join_path(root, "agapornis-backups")
}

// ---------------------------------------------------------------------------------------------
// Laws.

/// No backup in a list is older than one behind it.
pub open spec fn is_newest_first(list: Seq<BackupInfo>) -> bool {
    forall|i: int, j: int|
        0 <= i < j < list.len() ==> !older(#[trigger] list[i], #[trigger] list[j])
}

proof fn lemma_inserted_sorted(list: Seq<BackupInfo>, info: BackupInfo)
    requires
        is_newest_first(list),
    ensures
        is_newest_first(inserted(list, info)),
        inserted(list, info).to_multiset() == list.to_multiset().insert(info),
        inserted(list, info).len() == list.len() + 1,
        forall|i: int|
            0 <= i < inserted(list, info).len() ==> {
                ||| #[trigger] inserted(list, info)[i] == info
                ||| list.contains(inserted(list, info)[i])
            },
    decreases list.len(),
{
    broadcast use vstd::seq_lib::group_to_multiset_ensures;

    let r = inserted(list, info);
    if list.len() > 0 && older(list.last(), info) {
        let shorter = list.drop_last();
        lemma_inserted_sorted(shorter, info);
        let inner = inserted(shorter, info);
        assert(shorter.push(list.last()) =~= list);
        assert(list.to_multiset() =~= shorter.to_multiset().insert(list.last()));
        assert(r.to_multiset() =~= inner.to_multiset().insert(list.last()));
        assert(r.to_multiset() =~= list.to_multiset().insert(info));
        assert forall|i: int| 0 <= i < r.len() implies {
            ||| #[trigger] r[i] == info
            ||| list.contains(r[i])
        } by {
            if i < inner.len() {
                assert(r[i] == inner[i]);
                if inner[i] != info {
                    let k = choose|k: int| 0 <= k < shorter.len() && shorter[k] == inner[i];
                    assert(list[k] == r[i]);
                }
            } else {
                assert(r[i] == list[list.len() - 1]);
            }
        }
        assert forall|i: int, j: int| 0 <= i < j < r.len() implies !older(
            #[trigger] r[i],
            #[trigger] r[j],
        ) by {
            if j < inner.len() {
                assert(!older(inner[i], inner[j]));
            } else {
                assert(r[j] == list.last());
                assert(r[i] == inner[i]);
                if inner[i] == info {
                    text::lemma_order(list.last().created_at@, info.created_at@);
                } else {
                    let k = choose|k: int| 0 <= k < shorter.len() && shorter[k] == inner[i];
                    assert(!older(list[k], list[list.len() - 1]));
                }
            }
        }
    } else {
        assert(r =~= list.push(info));
        assert forall|i: int| 0 <= i < r.len() implies {
            ||| #[trigger] r[i] == info
            ||| list.contains(r[i])
        } by {
            if i < list.len() {
                assert(list[i] == r[i]);
            }
        }
        assert forall|i: int, j: int| 0 <= i < j < r.len() implies !older(
            #[trigger] r[i],
            #[trigger] r[j],
        ) by {
            if j < list.len() {
                assert(!older(list[i], list[j]));
            } else if i == list.len() - 1 {
            } else {
                assert(!older(list[i], list[list.len() - 1]));
                if older(list[i], info) {
                    text::lemma_order(info.created_at@, list.last().created_at@);
                    text::lemma_order(list[i].created_at@, list.last().created_at@);
                    if text::precedes(info.created_at@, list.last().created_at@) {
                        text::lemma_order_transitive(
                            list[i].created_at@,
                            info.created_at@,
                            list.last().created_at@,
                        );
                    }
                }
            }
        }
    }
}

/// A backup for the object store is checked after it was stored, and nothing is removed before
/// that: neither the archive that was made nor a backup that is too many. A local backup is never
/// removed.
pub proof fn law_backups_are_verified_before_anything_goes(
    local: bool,
    encrypt: bool,
    limited: bool,
    i: int,
)
    requires
        0 <= i < backup_steps(local, encrypt, limited).len(),
    ensures
        ({
            let steps = backup_steps(local, encrypt, limited);
            let verify = if encrypt {
                4int
            } else {
                3int
            };
            let removes = match steps[i] {
                BackupStep::RemoveUpload | BackupStep::RemoveArchive | BackupStep::Expire => true,
                _ => false,
            };
            &&& local ==> !removes
            &&& !local ==> steps[verify] == BackupStep::Verify
            &&& removes ==> i > verify
            &&& steps[i] == BackupStep::Upload ==> i < verify
        }),
{
}

/// A listing holds the backups that it was made of, each as often as it came, and none of them is
/// older than one behind it.
pub proof fn law_listing_is_newest_first(list: Seq<BackupInfo>)
    ensures
        is_newest_first(newest_first(list)),
        newest_first(list).to_multiset() == list.to_multiset(),
        newest_first(list).len() == list.len(),
    decreases list.len(),
{
    broadcast use vstd::seq_lib::group_to_multiset_ensures;

    if list.len() > 0 {
        law_listing_is_newest_first(list.drop_last());
        lemma_inserted_sorted(newest_first(list.drop_last()), list.last());
        assert(list.drop_last().push(list.last()) =~= list);
    }
}

/// Retention keeps the newest: as many as it says, or all where there are no more, and none that
/// goes is newer than one that stays.
pub proof fn law_retention_keeps_the_newest(list: Seq<BackupInfo>, retention: int)
    requires
        retention > 0,
    ensures
        expired_of(list, retention).len() == if list.len() > retention {
            list.len() - retention
        } else {
            0
        },
        retention < list.len() ==> newest_first(list).take(retention) + expired_of(list, retention)
            == newest_first(list),
        forall|i: int, j: int|
            0 <= i < retention && retention < list.len() && 0 <= j < expired_of(
                list,
                retention,
            ).len() ==> !older(
                #[trigger] newest_first(list)[i],
                #[trigger] expired_of(list, retention)[j],
            ),
{
    law_listing_is_newest_first(list);
    let all = newest_first(list);
    if retention < list.len() {
        assert(all.take(retention) + all.skip(retention) =~= all);
        assert forall|i: int, j: int|
            0 <= i < retention && 0 <= j < expired_of(list, retention).len() implies !older(
            #[trigger] all[i],
            #[trigger] expired_of(list, retention)[j],
        ) by {
            assert(expired_of(list, retention)[j] == all[retention + j]);
            assert(!older(all[i], all[retention + j]));
        }
    }
}

/// A step of making a backup comes before another one, where both are taken.
pub open spec fn step_order(step: BackupStep) -> int {
    match step {
        BackupStep::MakeDirectory => 0,
        BackupStep::Pack => 1,
        BackupStep::Record => 2,
        BackupStep::Encrypt => 3,
        BackupStep::Upload => 4,
        BackupStep::Verify => 5,
        BackupStep::RemoveUpload => 6,
        BackupStep::RemoveArchive => 7,
        BackupStep::Expire => 8,
        BackupStep::Find => 9,
    }
}

/// Every backup is packed. A local one is written down and nothing else; any other is encrypted
/// exactly where that is asked for, and then uploaded, verified and removed here, each once and in
/// this order, whether it is encrypted or not; older ones go exactly where there is a limit, after
/// that; and it is looked up in the end.
pub proof fn law_backups_reach_their_storage(local: bool, encrypt: bool, limited: bool)
    ensures
        ({
            let steps = backup_steps(local, encrypt, limited);
            &&& forall|i: int, j: int|
                0 <= i < j < steps.len() ==> step_order(#[trigger] steps[i]) < step_order(
                    #[trigger] steps[j],
                )
            &&& steps.contains(BackupStep::MakeDirectory)
            &&& steps.contains(BackupStep::Pack)
            &&& steps.contains(BackupStep::Record) <==> local
            &&& steps.contains(BackupStep::Encrypt) <==> !local && encrypt
            &&& steps.contains(BackupStep::Upload) <==> !local
            &&& steps.contains(BackupStep::Verify) <==> !local
            &&& steps.contains(BackupStep::RemoveUpload) <==> !local
            &&& steps.contains(BackupStep::RemoveArchive) <==> !local
            &&& steps.contains(BackupStep::Expire) <==> !local && limited
            &&& steps.contains(BackupStep::Find) <==> !local
        }),
{
    let steps = backup_steps(local, encrypt, limited);
    assert(steps[0] == BackupStep::MakeDirectory && steps[1] == BackupStep::Pack);
    let n = steps.len() as int;
    if local {
        assert(n == 3 && steps[2] == BackupStep::Record);
    } else {
        let u = if encrypt {
            3int
        } else {
            2int
        };
        assert(encrypt ==> steps[2] == BackupStep::Encrypt);
        assert(steps[u] == BackupStep::Upload);
        assert(steps[u + 1] == BackupStep::Verify);
        assert(steps[u + 2] == BackupStep::RemoveUpload);
        assert(steps[u + 3] == BackupStep::RemoveArchive);
        assert(limited ==> steps[u + 4] == BackupStep::Expire);
        assert(steps[n - 1] == BackupStep::Find);
        assert(n == u + 5 + if limited {
            1int
        } else {
            0int
        });
    }
    assert forall|i: int, j: int| 0 <= i < j < steps.len() implies step_order(#[trigger] steps[i])
        < step_order(#[trigger] steps[j]) by {}
}

/// A backup is made exactly where its storage is one that there is and that is configured, its
/// server has a proper name and files, and a key is there where it is to be encrypted.
pub proof fn law_possible_backups_are_made(
    id: Seq<char>,
    storage: Seq<char>,
    store_configured: bool,
    encrypt: bool,
    key: Seq<char>,
    exists: bool,
)
    ensures
        create_refusal(id, storage, store_configured, encrypt, key, exists) is None <==> (storage
            == "local"@ || storage == "s3"@ && store_configured) && paths::valid_id(id) && (encrypt
            ==> digest::base64(key) is Ok && digest::base64(key)->Ok_0.len() == 32) && exists,
{
    reveal_strlit("local");
    reveal_strlit("s3");
    assert("local"@.len() != "s3"@.len());
}

/// A backup is looked for exactly where its storage is one that there is and its identifier is one;
/// in the local storage the server has to have a proper name too.
pub proof fn law_named_backups_are_looked_for(
    id: Seq<char>,
    backup_id: Seq<char>,
    storage: Seq<char>,
)
    ensures
        lookup_refusal(id, backup_id, storage) is None <==> (storage == "local"@
            && paths::valid_id(id) || storage == "s3"@)
            && crate::backup::archive::valid_backup_id(backup_id),
{
    reveal_strlit("local");
    reveal_strlit("s3");
    assert("local"@.len() != "s3"@.len());
}

/// The backup that is found is the first one with the identifier; none is found where none has it.
pub proof fn law_the_first_backup_is_found(list: Seq<BackupInfo>, backup_id: Seq<char>)
    ensures
        0 <= place_of(list, backup_id) <= list.len(),
        place_of(list, backup_id) < list.len() ==> list[place_of(list, backup_id)].backup_id@
            == backup_id,
        forall|i: int|
            0 <= i < place_of(list, backup_id) ==> (#[trigger] list[i]).backup_id@ != backup_id,
    decreases list.len(),
{
    if list.len() > 0 && list[0].backup_id@ != backup_id {
        let rest = list.skip(1);
        law_the_first_backup_is_found(rest, backup_id);
        assert forall|i: int| 0 <= i < place_of(list, backup_id) implies (
        #[trigger] list[i]).backup_id@ != backup_id by {
            if i > 0 {
                assert(rest[i - 1] == list[i]);
            }
        }
    }
}

/// A backup that is put into a list of which the newest come first goes before exactly those that
/// are older, and so behind those that were made at its own time.
pub proof fn law_backups_of_one_time_keep_their_order(list: Seq<BackupInfo>, info: BackupInfo)
    requires
        is_newest_first(list),
    ensures
        exists|k: int|
            0 <= k <= list.len() && #[trigger] inserted(list, info) == list.take(k).push(info)
                + list.skip(k) && (forall|i: int| 0 <= i < k ==> !older(#[trigger] list[i], info))
                && (forall|i: int| k <= i < list.len() ==> older(#[trigger] list[i], info)),
        newest_first(list.push(info)) == inserted(newest_first(list), info),
    decreases list.len(),
{
    assert(list.push(info).drop_last() =~= list);
    if list.len() > 0 && older(list.last(), info) {
        let before = list.drop_last();
        assert(is_newest_first(before)) by {
            assert forall|i: int, j: int| 0 <= i < j < before.len() implies !older(
                #[trigger] before[i],
                #[trigger] before[j],
            ) by {
                assert(before[i] == list[i] && before[j] == list[j]);
            }
        }
        law_backups_of_one_time_keep_their_order(before, info);
        let k = choose|k: int|
            0 <= k <= before.len() && #[trigger] inserted(before, info) == before.take(k).push(info)
                + before.skip(k) && (forall|i: int|
                0 <= i < k ==> !older(#[trigger] before[i], info)) && (forall|i: int|
                k <= i < before.len() ==> older(#[trigger] before[i], info));
        assert(inserted(list, info) =~= list.take(k).push(info) + list.skip(k));
        assert forall|i: int| 0 <= i < k implies !older(#[trigger] list[i], info) by {
            assert(before[i] == list[i]);
        }
        assert forall|i: int| k <= i < list.len() implies older(#[trigger] list[i], info) by {
            if i < before.len() {
                assert(before[i] == list[i]);
            }
        }
    } else {
        let k = list.len() as int;
        assert(inserted(list, info) =~= list.take(k).push(info) + list.skip(k));
        assert forall|i: int| 0 <= i < k implies !older(#[trigger] list[i], info) by {
            if i < k - 1 && older(list[i], info) {
                text::law_texts_are_ordered(
                    list[k - 1].created_at@,
                    list[i].created_at@,
                    info.created_at@,
                );
            }
        }
    }
}

/// The random part of a backup's identifier is eight digits from which the number reads back.
pub proof fn law_backup_numbers_read_back(n: u32)
    ensures
        hex8(n).len() == 8,
        digest::unhex(hex8(n)) is Some,
        crate::backup::crypto::from_be32(digest::unhex(hex8(n))->0) == n,
{
    crate::backup::crypto::lemma_be32(n);
    digest::law_hex_reads_back(crate::backup::crypto::be32(n));
}

} // verus!
