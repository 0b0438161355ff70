//! Installing a Modrinth modpack: what is fetched, from where, how much of it, and where it goes.

use crate::digest;
use crate::digest::{sha512_input, Sha512Hasher};
use crate::error::Failure;
use crate::paths;
use crate::table::Table;
use crate::text;
use vstd::prelude::*;

verus! {

/// The most bytes of one file of a pack.
pub const MAX_FILE_BYTES: u64 = 536_870_912;

/// The most bytes of all files of a pack.
pub const MAX_TOTAL_BYTES: u64 = 2_147_483_648;

/// The most bytes of the description of a pack.
pub const MAX_MANIFEST_BYTES: u64 = 4_194_304;

/// A file of a pack.
pub struct MrpackFile {
    pub path: String,
    pub hashes: Table<String>,
    pub downloads: Vec<String>,
    pub env: Option<Table<String>>,
}

/// What a table of texts holds under a name.
pub open spec fn entry_of(table: Map<Seq<char>, String>, name: Seq<char>) -> Option<Seq<char>> {
    if table.dom().contains(name) {
        Some(table[name]@)
    } else {
        None
    }
}

impl MrpackFile {
    /// The pack says that a server cannot use the file.
    pub open spec fn unsupported(&self) -> bool {
        match self.env {
            Some(env) => entry_of(env@, "server"@) == Some("unsupported"@),
            None => false,
        }
    }

    /// Whether the pack says that a server cannot use the file.
    pub fn is_unsupported_on_server(&self) -> (r: bool)
        ensures
            r == self.unsupported(),
    {
        match &self.env {
            Some(env) => match env.get("server") {
                Some(value) => text::same(value.as_str(), "unsupported"),
                None => false,
            },
            None => false,
        }
    }
}

/// The path of a pack's archive below the root. A pack is installed on the host alone, and its
/// name says what it is.
pub fn pack_archive(use_host: bool, archive_path: &str) -> (r: Result<String, Failure>)
    ensures
        ({
            let clean = paths::unled(archive_path@, true);
            let named = text::ends(text::lowered(clean), ".mrpack"@);
            &&& r is Ok <==> use_host && named
            &&& r is Ok ==> r->Ok_0@ == clean
            &&& !use_host ==> r->Err_0.message@
                == "Stop the server before installing a Modrinth modpack."@
            &&& use_host && !named ==> r->Err_0.message@ == "A .mrpack archive is required."@
        }),
{
    if !use_host {
        return Err(Failure::new("Stop the server before installing a Modrinth modpack."));
    }
    let clean = paths::trim_leading_slashes(archive_path, true);
    let name = text::to_lower(clean.as_str());
    if text::ends_with(name.as_str(), ".mrpack") {
        Ok(clean)
    } else {
        Err(Failure::new("A .mrpack archive is required."))
    }
}

/// Refuses the description of a pack that is too large.
pub fn check_manifest_size(size: u64) -> (r: Result<(), Failure>)
    ensures
        r is Ok <==> size <= MAX_MANIFEST_BYTES,
        r is Err ==> r->Err_0.message@ == "Modrinth pack manifest is too large."@,
{
    if size > MAX_MANIFEST_BYTES {
        Err(Failure::new("Modrinth pack manifest is too large."))
    } else {
        Ok(())
    }
}

/// Refuses a pack of a format that is not known.
pub fn check_format(version: u32) -> (r: Result<(), Failure>)
    ensures
        r is Ok <==> version == 1,
        r is Err ==> r->Err_0.message@ == "Unsupported Modrinth pack format version."@,
{
    if version != 1 {
        Err(Failure::new("Unsupported Modrinth pack format version."))
    } else {
        Ok(())
    }
}

/// A path of a pack that names something below the directory that the pack is installed in, with
/// slashes of one kind between its names. On Windows a path may also begin with a drive, and then
/// names something else.
pub open spec fn safe_pack(value: Seq<char>, windows: bool) -> bool {
    &&& value.len() > 0
    &&& !(windows && paths::has_drive(value))
    &&& !value.contains('\\')
    &&& value[0] != '/'
    &&& !text::split_on(value, '/').contains(".."@)
    &&& text::split_on(value, '/')[0] != "."@
}

/// Refuses a path of a pack that could name something else than what lies below the directory that
/// the pack is installed in.
pub fn safe_pack_path(value: &str, windows: bool) -> (r: Result<String, Failure>)
    ensures
        r is Ok <==> safe_pack(value@, windows),
        r is Ok ==> r->Ok_0@ == value@,
        r is Err ==> r->Err_0.message@ == "Modrinth pack contains an unsafe path."@,
{
    let cs = text::chars_of(value);
    if cs.len() == 0 || text::has_char(value, '\\') || cs[0] == '/' || (windows
        && paths::begins_with_drive(value)) {
        return Err(Failure::new("Modrinth pack contains an unsafe path."));
    }
    let parts = text::split(value, '/');
    let ghost all = text::split_on(value@, '/');
    if text::list_has(parts.as_slice(), "..") {
        return Err(Failure::new("Modrinth pack contains an unsafe path."));
    }
    assert(all.len() == parts@.len());
    assert(all.len() > 0);
    assert(all[0] == parts@[0]@);
    if text::same(parts[0].as_str(), ".") {
        return Err(Failure::new("Modrinth pack contains an unsafe path."));
    }
    Ok(value.to_owned())
}

/// The scheme and host of an address, or why it is none.
pub uninterp spec fn address(url: Seq<char>) -> Result<(Seq<char>, Option<Seq<char>>), Seq<char>>;

/// An address by its contents.
pub open spec fn address_view(r: Result<(String, Option<String>), String>) -> Result<
    (Seq<char>, Option<Seq<char>>),
    Seq<char>,
> {
    match r {
        Ok(pair) => Ok((pair.0@, text::opt_view(pair.1))),
        Err(m) => Err(m@),
    }
}

/// `reqwest::Url::parse`, with the scheme and the host of what it gives, and the text of its
/// error. Which addresses are accepted, and what their parts are, is named here and not spelled
/// out.
#[verifier::external_body]
fn parse_address(url: &str) -> (r: Result<(String, Option<String>), String>)
    ensures
        address_view(r) == address(url@),
{
    match reqwest::Url::parse(url) {
        Ok(parsed) => Ok((parsed.scheme().to_owned(), parsed.host_str().map(|h| h.to_owned()))),
        Err(e) => Err(e.to_string()),
    }
}

/// Why nothing is fetched from an address; none where something is.
pub open spec fn address_refusal(
    path: Seq<char>,
    parsed: Result<(Seq<char>, Option<Seq<char>>), Seq<char>>,
) -> Option<Seq<char>> {
    match parsed {
        Ok(pair) => if pair.0 == "https"@ && pair.1 == Some("cdn.modrinth.com"@) {
            None
        } else {
            Some("Pack file "@ + path + " uses an untrusted download host."@)
        },
        Err(m) => Some(m),
    }
}

/// Refuses an address that is none, and one that is not of the host of packs.
pub fn check_address(path: &str, parsed: Result<(String, Option<String>), String>) -> (r: Result<
    (),
    Failure,
>)
    ensures
        ({
            let refusal = address_refusal(path@, address_view(parsed));
            &&& r is Ok <==> refusal is None
            &&& r is Err ==> Some(r->Err_0.message@) == refusal
        }),
{
    match parsed {
        Ok(pair) => {
            let trusted = match &pair.1 {
                Some(host) => text::same(host.as_str(), "cdn.modrinth.com"),
                None => false,
            };
            if trusted && text::same(pair.0.as_str(), "https") {
                Ok(())
            } else {
                Err(
                    Failure {
                        message: text::concat3(
                            "Pack file ",
                            path,
                            " uses an untrusted download host.",
                        ),
                    },
                )
            }
        },
        Err(m) => Err(Failure { message: m }),
    }
}

/// How a file of a pack is fetched.
pub struct DownloadPlan {
    pub url: String,
    /// The digest of what is fetched, in lower case.
    pub expected: String,
    pub target: String,
    /// Where the bytes go until they were checked.
    pub temporary: String,
}

/// Why a file of a pack is not fetched; none where it is.
pub open spec fn download_refusal(file: MrpackFile, windows: bool) -> Option<Seq<char>> {
    if !safe_pack(file.path@, windows) {
        Some("Modrinth pack contains an unsafe path."@)
    } else if entry_of(file.hashes@, "sha512"@) is None {
        Some("Pack file "@ + file.path@ + " has no SHA-512 hash"@)
    } else if file.downloads@.len() == 0 {
        Some("Pack file "@ + file.path@ + " has no download URL"@)
    } else {
        address_refusal(file.path@, address(file.downloads@[0]@))
    }
}

proof fn lemma_safe_pack_stays(value: Seq<char>, windows: bool)
    requires
        safe_pack(value, windows),
    ensures
        !paths::escapes(value),
{
    assert(text::swapped(value, '\\', '/') =~= value) by {
        assert forall|k: int| 0 <= k < value.len() implies value[k] != '\\' by {
            assert(value.contains(value[k]));
        }
    }
}

/// Decides how a file of a pack is fetched: from the host of packs alone, and with a digest to
/// hold it to.
pub fn download_plan(root: &str, file: &MrpackFile, windows: bool) -> (r: Result<DownloadPlan, Failure>)
    ensures
        ({
            let refusal = download_refusal(*file, windows);
            &&& r is Ok <==> refusal is None
            &&& r is Err ==> Some(r->Err_0.message@) == refusal
            &&& r is Ok ==> {
                let plan = r->Ok_0;
                &&& plan.url@ == file.downloads@[0]@
                &&& plan.expected@ == text::lowered(entry_of(file.hashes@, "sha512"@)->0)
                &&& plan.target@ == paths::joined(root@, paths::confined(file.path@))
                &&& plan.temporary@ == temporary_of(plan.target@)
            }
        }),
{
    if let Err(e) = safe_pack_path(file.path.as_str(), windows) {
        return Err(e);
    }
    proof {
        lemma_safe_pack_stays(file.path@, windows);
    }
    let target = match paths::safe_host_path(root, file.path.as_str()) {
        Ok(p) => p,
        Err(e) => {
            return Err(e);
        },
    };
    let expected = match file.hashes.get("sha512") {
        Some(hash) => text::to_lower(hash.as_str()),
        None => {
            return Err(
                Failure {
                    message: text::concat3(
                        "Pack file ",
                        file.path.as_str(),
                        " has no SHA-512 hash",
                    ),
                },
            );
        },
    };
    if file.downloads.len() == 0 {
        return Err(
            Failure {
                message: text::concat3("Pack file ", file.path.as_str(), " has no download URL"),
            },
        );
    }
    let url = file.downloads[0].as_str().to_owned();
    let parsed = parse_address(url.as_str());
    if let Err(e) = check_address(file.path.as_str(), parsed) {
        return Err(e);
    }
    let temporary = temporary_path(target.as_str());
    Ok(DownloadPlan { url, expected, target, temporary })
}

/// A name has a part behind a dot that is not its first character.
pub open spec fn has_extension(name: Seq<char>) -> bool {
    name != ".."@ && text::after_last(name, '.') > 1
}

/// Where the bytes of a file go until they were checked: beside it.
pub open spec fn temporary_of(target: Seq<char>) -> Seq<char> {
    match paths::file_name_of(target) {
        Some(name) => if has_extension(name) {
            paths::to_last_name(target) + ".agapornis-part"@
        } else {
            paths::to_last_name(target) + "..agapornis-part"@
        },
        None => target,
    }
}

/// Where the bytes of a file go until they were checked: beside it.
pub fn temporary_path(target: &str) -> (r: String)
    ensures
        r@ == temporary_of(target@),
{
    match paths::file_name(target) {
        Some(name) => {
            let cs = text::chars_of(name.as_str());
            let dot = text::find_last(cs.as_slice(), '.');
            let base = paths::cut_to_last_name(target);
            if !text::same(name.as_str(), "..") && dot > 1 {
                text::concat2(base.as_str(), ".agapornis-part")
            } else {
                text::concat2(base.as_str(), "..agapornis-part")
            }
        },
        None => target.to_owned(),
    }
}

/// Refuses a file that is announced to be too large.
pub fn check_announced(path: &str, length: Option<u64>) -> (r: Result<(), Failure>)
    ensures
        r is Err <==> length is Some && length->0 > MAX_FILE_BYTES,
        r is Err ==> r->Err_0.message@ == "Pack file "@ + path@ + " exceeds the size limit."@,
{
    match length {
        Some(n) => if n > MAX_FILE_BYTES {
            Err(
                Failure {
                    message: text::concat3("Pack file ", path, " exceeds the size limit."),
                },
            )
        } else {
            Ok(())
        },
        None => Ok(()),
    }
}

/// How much of a pack was fetched.
pub struct PackBudget {
    pub total_bytes: u64,
}

impl PackBudget {
    /// The limit is not passed.
    pub open spec fn wf(&self) -> bool {
        self.total_bytes <= MAX_TOTAL_BYTES
    }

    /// Nothing was fetched.
    pub fn new() -> (r: PackBudget)
        ensures
            r.wf(),
            r.total_bytes == 0,
    {
        PackBudget { total_bytes: 0 }
    }
}

/// A file of a pack that is being fetched.
pub struct PackDownload {
    /// The bytes that came, in their order.
    pub hasher: Sha512Hasher,
    /// How many bytes came.
    pub size: u64,
}

impl View for PackDownload {
    type V = Seq<u8>;

    open spec fn view(&self) -> Seq<u8> {
        sha512_input(self.hasher)
    }
}

impl PackDownload {
    /// No more came than may come, and it was counted.
    pub open spec fn wf(&self) -> bool {
        self.size == self@.len() && self.size <= MAX_FILE_BYTES
    }

    /// Nothing came yet.
    pub fn new() -> (r: PackDownload)
        ensures
            r.wf(),
            r@ == Seq::<u8>::empty(),
    {
        PackDownload { hasher: Sha512Hasher::new(), size: 0 }
    }

    /// More bytes of the file came. Too many, of the file or of the pack, are refused.
    pub fn accept(&mut self, budget: &mut PackBudget, bytes: &[u8]) -> (r: Result<(), Failure>)
        requires
            old(self).wf(),
            old(budget).wf(),
        ensures
            final(self).wf(),
            final(budget).wf(),
            r is Ok <==> old(self)@.len() + bytes@.len() <= MAX_FILE_BYTES
                && old(budget).total_bytes + bytes@.len() <= MAX_TOTAL_BYTES,
            r is Ok ==> final(self)@ == old(self)@ + bytes@ && final(budget).total_bytes
                == old(budget).total_bytes + bytes@.len(),
            r is Err ==> final(self)@ == old(self)@ && *final(budget) == *old(budget)
                && r->Err_0.message@ == "Modrinth pack exceeds the extraction size limit."@,
    {
        let length: u64 = bytes.len() as u64;
        if length > MAX_FILE_BYTES - self.size || length > MAX_TOTAL_BYTES - budget.total_bytes {
            return Err(Failure::new("Modrinth pack exceeds the extraction size limit."));
        }
        self.hasher.update(bytes);
        self.size = self.size + length;
        budget.total_bytes = budget.total_bytes + length;
        Ok(())
    }
}

/// Refuses a file whose bytes have another SHA-512 digest than the one that the pack gives.
pub fn verify_download(path: &str, file: PackDownload, expected: &str) -> (r: Result<(), Failure>)
    ensures
        r is Ok <==> digest::hex(digest::sha512(file@)) == expected@,
        r is Err ==> r->Err_0.message@ == "SHA-512 verification failed for "@ + path@ + "."@,
{
    let bytes = file.hasher.finish();
    let actual = digest::hex_text(bytes.as_slice());
    if text::same(actual.as_str(), expected) {
        Ok(())
    } else {
        Err(
            Failure {
                message: text::concat3("SHA-512 verification failed for ", path, "."),
            },
        )
    }
}

/// What becomes of an entry of a pack's archive.
pub enum OverrideStep {
    /// Nothing.
    Skip,
    /// The directory is made.
    Directory(String),
    /// The bytes are written to the second path, which then becomes the first.
    File(String, String),
}

/// The entry is a symbolic link, by its mode.
pub open spec fn is_link(mode: Option<u32>) -> bool {
    match mode {
        Some(m) => m & 0o170000 == 0o120000,
        None => false,
    }
}

/// Decides what becomes of an entry of a pack's archive: those below the given directory of the
/// archive are put below the root.
pub fn override_step(
    root: &str,
    prefix: &str,
    name: &str,
    mode: Option<u32>,
    directory: bool,
    windows: bool,
) -> (r: Result<OverrideStep, Failure>)
    ensures
        match text::without_prefix(name@, prefix@) {
            None => r is Ok && r->Ok_0 is Skip,
            Some(relative) => if relative.len() == 0 {
                r is Ok && r->Ok_0 is Skip
            } else {
                let target = paths::joined(root@, relative);
                &&& r is Ok <==> !is_link(mode) && safe_pack(relative, windows)
                &&& is_link(mode) ==> r->Err_0.message@
                    == "Modrinth pack symbolic links are not allowed."@
                &&& !is_link(mode) && r is Err ==> r->Err_0.message@
                    == "Modrinth pack contains an unsafe path."@
                &&& r is Ok ==> match r->Ok_0 {
                    OverrideStep::Skip => false,
                    OverrideStep::Directory(p) => directory && p@ == target,
                    OverrideStep::File(p, t) => !directory && p@ == target && t@ == temporary_of(
                        target,
                    ),
                }
            },
        },
{
    let relative = match text::strip_prefix(name, prefix) {
        Some(rest) => rest,
        None => {
            return Ok(OverrideStep::Skip);
        },
    };
    if text::is_empty(relative.as_str()) {
        return Ok(OverrideStep::Skip);
    }
    let link = match mode {
        Some(m) => m & 0o170000 == 0o120000,
        None => false,
    };
    if link {
        return Err(Failure::new("Modrinth pack symbolic links are not allowed."));
    }
    if let Err(e) = safe_pack_path(relative.as_str(), windows) {
        return Err(e);
    }
    let target = paths::join_path(root, relative.as_str());
    if directory {
        Ok(OverrideStep::Directory(target))
    } else {
        let temporary = temporary_path(target.as_str());
        Ok(OverrideStep::File(target, temporary))
    }
}

/// The directories of a pack's archive whose entries are put below the root, in the order in which
/// they are: what a later one holds replaces what an earlier one held.
pub fn override_prefixes() -> (r: Vec<String>)
    ensures
        text::views(r@) == seq!["overrides/"@, "server-overrides/"@],
{
    let list: Vec<&str> = vec!["overrides/", "server-overrides/"];
    let r = text::owned(list);
    assert(text::views(r@) =~= seq!["overrides/"@, "server-overrides/"@]);
    r
}

// ---------------------------------------------------------------------------------------------
// Laws.

/// A file of a pack that is kept came from the host of packs over HTTPS, and its bytes have the
/// SHA-512 digest that the pack gives.
pub proof fn law_pack_files_are_held_to_their_digest(
    file: MrpackFile,
    windows: bool,
    bytes: Seq<u8>,
)
    requires
        download_refusal(file, windows) is None,
        digest::hex(digest::sha512(bytes)) == text::lowered(
            entry_of(file.hashes@, "sha512"@)->0,
        ),
    ensures
        address(file.downloads@[0]@) == Ok::<(Seq<char>, Option<Seq<char>>), Seq<char>>(
            ("https"@, Some("cdn.modrinth.com"@)),
        ),
        digest::unhex(text::lowered(entry_of(file.hashes@, "sha512"@)->0)) == Some(
            digest::sha512(bytes),
        ),
{
    digest::law_hex_reads_back(digest::sha512(bytes));
}

/// What a pack may write lies below the directory that it is installed in: no name of an accepted
/// path steps up, and the path is not absolute.
pub proof fn law_pack_stays_below(value: Seq<char>, windows: bool)
    requires
        safe_pack(value, windows),
    ensures
        !paths::escapes(value),
        value[0] != '/',
        windows ==> !paths::has_drive(value),
        forall|i: int|
            0 <= i < paths::path_parts(value).len() ==> {
                let part = #[trigger] paths::path_parts(value)[i];
                part != ".."@ && part != "/"@ && part != "."@
            },
{
    reveal_strlit("/");
    reveal_strlit(".");
    lemma_safe_pack_stays(value, windows);
    let pieces = text::split_on(value, '/');
    paths::lemma_names(pieces);
    text::lemma_split_pieces(value, '/');
    assert forall|i: int| 0 <= i < paths::path_parts(value).len() implies {
        let part = #[trigger] paths::path_parts(value)[i];
        part != ".."@ && part != "/"@ && part != "."@
    } by {
        let part = paths::names(pieces)[i];
        let j = choose|j: int| 0 <= j < pieces.len() && pieces[j] == part;
        assert(!pieces[j].contains('/'));
        if part == "/"@ {
            assert(part[0] == '/');
        }
    }
}

/// A file of a pack is fetched exactly where its path is safe, it has a digest, and its first
/// address is one of Modrinth's over HTTPS; it is left out where the pack says that servers cannot
/// use it.
pub proof fn law_trusted_pack_files_are_fetched(file: MrpackFile, windows: bool)
    ensures
        download_refusal(file, windows) is None <==> safe_pack(file.path@, windows) && entry_of(
            file.hashes@,
            "sha512"@,
        ) is Some && file.downloads@.len() > 0 && address(file.downloads@[0]@) is Ok && address(
            file.downloads@[0]@,
        )->Ok_0.0 == "https"@ && address(file.downloads@[0]@)->Ok_0.1 == Some("cdn.modrinth.com"@),
        file.unsupported() <==> file.env is Some && file.env->0@.dom().contains("server"@)
            && file.env->0@["server"@]@ == "unsupported"@,
{
}

} // verus!
