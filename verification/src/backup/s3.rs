//! Backups in an object store: which store, and under which keys.

use crate::error::Failure;
use crate::paths;
use crate::text;
use vstd::prelude::*;

verus! {

/// The object store that backups are kept in.
pub struct S3Store {
    /// Whether the store can be reached: its credentials are known.
    pub connected: bool,
    pub bucket: String,
    pub prefix: String,
}

/// How the object store is to be reached.
pub struct S3Settings {
    pub region: String,
    pub endpoint: Option<String>,
    pub force_path_style: bool,
}


impl S3Store {
    /// The store that the given settings name. Without a bucket or without credentials there is
    /// none.
    pub fn new(bucket: &str, access: &str, secret: &str, prefix: Option<&str>) -> (r: S3Store)
        ensures
            r.connected == (bucket@.len() > 0 && access@.len() > 0 && secret@.len() > 0),
            r.bucket@ == bucket@,
            r.prefix@ == if r.connected && prefix is Some {
                paths::without_slashes(paths::unled(prefix->0@, false))
            } else {
                "agapornis"@
            },
    {
        if text::is_empty(bucket) || text::is_empty(access) || text::is_empty(secret) {
            return S3Store {
                connected: false,
                bucket: bucket.to_owned(),
                prefix: "agapornis".to_owned(),
            };
        }
        let prefix = match prefix {
            Some(p) => {
                let p = paths::trim_leading_slashes(p, false);
                paths::trim_slashes(p.as_str())
            },
            None => "agapornis".to_owned(),
        };
        S3Store { connected: true, bucket: bucket.to_owned(), prefix }
    }

    /// Whether backups can be kept in the store.
    pub fn configured(&self) -> (r: bool)
        ensures
            r == (self.connected && self.bucket@.len() > 0),
    {
        self.connected && !text::is_empty(self.bucket.as_str())
    }

    /// Refuses to go on without a store.
    pub fn client(&self) -> (r: Result<(), Failure>)
        ensures
            r is Ok <==> self.connected,
            r is Err ==> r->Err_0.message@ == "S3 storage is not configured on this agent."@,
    {
        if self.connected {
            Ok(())
        } else {
            Err(Failure::new("S3 storage is not configured on this agent."))
        }
    }

    /// What the keys of a server's backups begin with.
    pub open spec fn prefix_of(&self, id: Seq<char>) -> Seq<char> {
        self.prefix@ + "/servers/"@ + id + "/backups/"@
    }

    /// What the keys of a server's backups begin with.
    pub fn prefix(&self, id: &str) -> (r: String)
        ensures
            r@ == self.prefix_of(id@),
    {
        text::concat4(self.prefix.as_str(), "/servers/", id, "/backups/")
    }

    /// The key of a backup's archive.
    pub open spec fn archive_key(
        &self,
        id: Seq<char>,
        backup_id: Seq<char>,
        encrypted: bool,
    ) -> Seq<char> {
        self.prefix_of(id) + backup_id + ".tar.gz"@ + if encrypted {
            ".agp"@
        } else {
            ""@
        }
    }

    /// The key of a backup's archive.
    pub fn archive(&self, id: &str, backup_id: &str, encrypted: bool) -> (r: String)
        ensures
            r@ == self.archive_key(id@, backup_id@, encrypted),
    {
        let prefix = self.prefix(id);
        let suffix = if encrypted {
            ".agp"
        } else {
            ""
        };
        text::concat4(prefix.as_str(), backup_id, ".tar.gz", suffix)
    }

    /// The key of what is known of a backup.
    pub open spec fn metadata_key(&self, id: Seq<char>, backup_id: Seq<char>) -> Seq<char> {
        self.prefix_of(id) + backup_id + ".metadata.json"@
    }

    /// The key of what is known of a backup.
    pub fn metadata(&self, id: &str, backup_id: &str) -> (r: String)
        ensures
            r@ == self.metadata_key(id@, backup_id@),
    {
        let prefix = self.prefix(id);
        text::concat3(prefix.as_str(), backup_id, ".metadata.json")
    }

    /// The keys that go when a backup goes.
    pub fn deleted_keys(&self, id: &str, backup_id: &str, encrypted: bool) -> (r: Vec<String>)
        ensures
            text::views(r@) == seq![
                self.archive_key(id@, backup_id@, encrypted),
                self.metadata_key(id@, backup_id@),
            ],
    {
        let r: Vec<String> = vec![
            self.archive(id, backup_id, encrypted),
            self.metadata(id, backup_id),
        ];
        assert(text::views(r@) =~= seq![
            self.archive_key(id@, backup_id@, encrypted),
            self.metadata_key(id@, backup_id@),
        ]);
        r
    }
}

/// Whether a key holds what is known of a backup.
pub fn is_metadata_key(key: &str) -> (r: bool)
    ensures
        r == text::ends(key@, ".metadata.json"@),
{
    text::ends_with(key, ".metadata.json")
}

impl S3Settings {
    /// How the given settings say that the object store is to be reached.
    pub fn new(
        region: Option<&str>,
        endpoint: Option<&str>,
        force_path_style: Option<&str>,
    ) -> (r: S3Settings)
        ensures
            r.region@ == match region {
                Some(s) => s@,
                None => "us-east-1"@,
            },
            text::opt_view(r.endpoint) == match endpoint {
                Some(s) => if text::is_blank(s@) {
                    None
                } else {
                    Some(s@)
                },
                None => None,
            },
            r.force_path_style == match force_path_style {
                Some(s) => s@ != "false"@,
                None => true,
            },
    {
        let region = match region {
            Some(s) => s.to_owned(),
            None => "us-east-1".to_owned(),
        };
        let endpoint = match endpoint {
            Some(s) => if text::blank(s) {
                None
            } else {
                Some(s.to_owned())
            },
            None => None,
        };
        let force_path_style = match force_path_style {
            Some(s) => !text::same(s, "false"),
            None => true,
        };
        S3Settings { region, endpoint, force_path_style }
    }
}

// ---------------------------------------------------------------------------------------------
// Laws.

/// What is known of a backup is found under a key that says so, and below the keys of its server.
pub proof fn law_metadata_is_recognised(store: S3Store, id: Seq<char>, backup_id: Seq<char>)
    ensures
        text::ends(store.metadata_key(id, backup_id), ".metadata.json"@),
        text::begins(store.metadata_key(id, backup_id), store.prefix_of(id)),
        text::begins(store.archive_key(id, backup_id, true), store.prefix_of(id)),
        text::begins(store.archive_key(id, backup_id, false), store.prefix_of(id)),
{
    let key = store.metadata_key(id, backup_id);
    let prefix = store.prefix_of(id);
    let suffix = ".metadata.json"@;
    assert(key.subrange(key.len() - suffix.len(), key.len() as int) =~= suffix);
    assert(key.subrange(0, prefix.len() as int) =~= prefix);
    let sealed = store.archive_key(id, backup_id, true);
    assert(sealed.subrange(0, prefix.len() as int) =~= prefix);
    let plain = store.archive_key(id, backup_id, false);
    assert(plain.subrange(0, prefix.len() as int) =~= prefix);
}

} // verus!
