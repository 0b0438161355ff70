//! Changing a server's files: on the host, or with commands inside its container.

use crate::digest;
use crate::docker::inspection::ServerRoot;
use crate::docker::lifecycle::image_of;
use crate::error::Failure;
use crate::files::listing::{browse_path, browsed};
use crate::json::Json;
use crate::paths;
use crate::process;
use crate::text;
use vstd::prelude::*;

verus! {

/// The most bytes of a file that are held in memory.
pub const MAX_IN_MEMORY_FILE_BYTES: usize = 8_388_608;

/// The user that servers run as.
pub const SERVER_RUNTIME_USER: &'static str = "999:999";

/// Where the files of a server are reached.
pub struct Root {
    pub host: String,
    pub container: String,
    /// The files are reached on the host.
    pub use_host: bool,
}

impl Root {
    /// Where the files of a server are reached: on the host, unless the server runs and its data
    /// lies elsewhere.
    pub fn of(root: ServerRoot) -> (r: Root)
        ensures
            r.host@ == root.path@,
            r.container@ == root.data@,
            r.use_host == (!root.running || root.exact),
    {
        let use_host = !root.running || root.exact;
        Root { host: root.path, container: root.data, use_host }
    }
}

/// A path inside a container, with slashes of one kind.
pub open spec fn inside_of(root: Root, path: Seq<char>) -> Seq<char> {
    text::swapped(paths::inside(root.container@, path), '\\', '/')
}

fn inside(root: &Root, path: &str) -> (r: Result<String, Failure>)
    ensures
        r is Ok <==> !paths::escapes(path@),
        r is Ok ==> r->Ok_0@ == inside_of(*root, path@),
        r is Err ==> r->Err_0.message@ == "invalid file path"@,
{
    match paths::container_path(root.container.as_str(), path) {
        Ok(p) => Ok(text::swap_char(p.as_str(), '\\', '/')),
        Err(e) => Err(e),
    }
}

/// What holds an entry inside a container.
pub open spec fn holder_of(root: Root, target: Seq<char>) -> Seq<char> {
    match text::split_last(target, '/') {
        Some(pair) => pair.0,
        None => root.container@,
    }
}

fn holder(root: &Root, target: &str) -> (r: String)
    ensures
        r@ == holder_of(*root, target@),
{
    match text::rsplit_once(target, '/') {
        Some(pair) => pair.0,
        None => root.container.as_str().to_owned(),
    }
}

/// How an operation on one path is done.
pub enum Plan {
    /// On the host, on the given path.
    Host(String),
    /// With the given text of a shell, inside the container.
    Shell(String),
}

/// A plan by its contents.
pub ghost enum PlanView {
    Host(Seq<char>),
    Shell(Seq<char>),
}

impl View for Plan {
    type V = PlanView;

    open spec fn view(&self) -> PlanView {
        match self {
            Plan::Host(p) => PlanView::Host(p@),
            Plan::Shell(c) => PlanView::Shell(c@),
        }
    }
}

/// The path on the host below a server's root.
pub open spec fn on_host(root: Root, path: Seq<char>) -> Seq<char> {
    paths::joined(root.host@, paths::confined(path))
}

// ---------------------------------------------------------------------------------------------
// Staying below the root.

/// What looking for the real place of a path gave.
pub enum Probe {
    /// Its place, without symbolic links.
    Real(String),
    Missing,
    Failed(String),
}

/// What follows from a look at a path.
pub enum Confined {
    /// The path may be used.
    Accepted,
    /// Look at this path next.
    Look(String),
    Refused(Failure),
}

/// Decides whether a path may be used, by the real place of the path or, where it need not exist,
/// of the nearest directory above it that does: that place lies below the real place of the root.
pub fn confine(real_root: &str, looked_at: &str, must_exist: bool, first: bool, probe: Probe) -> (r:
    Confined)
    ensures
        match probe {
            Probe::Real(place) => if paths::below(place@, real_root@) {
                r is Accepted
            } else {
                r is Refused && r->Refused_0.message@ == "Path escapes the server root."@
            },
            Probe::Missing => if first && must_exist {
                r is Refused && r->Refused_0.message@
                    == "No such file or directory (os error 2)"@
            } else {
                match paths::parent_of(looked_at@) {
                    Some(next) => r is Look && r->Look_0@ == next,
                    None => r is Refused && r->Refused_0.message@
                        == "Path has no confined parent."@,
                }
            },
            Probe::Failed(m) => r is Refused && r->Refused_0.message@ == m@,
        },
{
    match probe {
        Probe::Real(place) => if paths::is_below(place.as_str(), real_root) {
            Confined::Accepted
        } else {
            Confined::Refused(Failure::new("Path escapes the server root."))
        },
        Probe::Missing => if first && must_exist {
            Confined::Refused(Failure::new("No such file or directory (os error 2)"))
        } else {
            match paths::parent(looked_at) {
                Some(next) => Confined::Look(next),
                None => Confined::Refused(Failure::new("Path has no confined parent.")),
            }
        },
        Probe::Failed(m) => Confined::Refused(Failure { message: m }),
    }
}

// ---------------------------------------------------------------------------------------------
// Reading.

/// Where a file is read from.
pub enum ReadSource {
    Host(String),
    Container { id: String, path: String },
}

/// Where a file is read from.
pub fn read_source(root: &Root, id: &str, path: &str) -> (r: Result<ReadSource, Failure>)
    ensures
        r is Ok <==> !paths::escapes(browsed(path@)),
        r is Ok ==> match r->Ok_0 {
            ReadSource::Host(p) => root.use_host && p@ == on_host(*root, browsed(path@)),
            ReadSource::Container { id: server, path: p } => !root.use_host && server@ == id@ && p@
                == inside_of(*root, browsed(path@)),
        },
        r is Err ==> r->Err_0.message@ == "invalid file path"@,
{
    let clean = browse_path(path);
    if root.use_host {
        match paths::safe_host_path(root.host.as_str(), clean.as_str()) {
            Ok(p) => Ok(ReadSource::Host(p)),
            Err(e) => Err(e),
        }
    } else {
        match inside(root, clean.as_str()) {
            Ok(p) => Ok(ReadSource::Container { id: id.to_owned(), path: p }),
            Err(e) => Err(e),
        }
    }
}

/// Refuses a file on the host that is larger than may be held in memory.
pub fn check_size(size: u64, maximum: usize) -> (r: Result<(), Failure>)
    ensures
        r is Ok <==> size <= maximum,
        r is Err ==> r->Err_0.message@ == "File is too large to read into memory."@,
{
    if size > maximum as u64 {
        Err(Failure::new("File is too large to read into memory."))
    } else {
        Ok(())
    }
}

/// The number of bytes to ask for: one more than is wanted, where there is such a number.
pub open spec fn asked_for(maximum: usize) -> nat {
    if maximum == usize::MAX {
        maximum as nat
    } else {
        (maximum + 1) as nat
    }
}

/// The text that reads a file inside a container.
pub fn read_command(path: &str, maximum: usize) -> (r: String)
    ensures
        r@ == "head -c "@ + text::decimal(asked_for(maximum)) + " -- "@ + process::quoted(path@)
            + " | base64"@,
{
    let limit: usize = if maximum == usize::MAX {
        maximum
    } else {
        maximum + 1
    };
    let number = text::decimal_string(limit as u64);
    let word = process::shell_quote(path);
    text::concat5("head -c ", number.as_str(), " -- ", word.as_str(), " | base64")
}

/// The words of a text in a row, with nothing between them.
pub open spec fn unspaced(s: Seq<char>) -> Seq<char> {
    text::join_with(text::words_of(s), ""@)
}

/// The bytes of a file that a container printed in base64.
pub fn read_result(raw: &str, maximum: usize) -> (r: Result<Vec<u8>, Failure>)
    ensures
        match digest::base64(unspaced(raw@)) {
            Ok(bytes) => {
                &&& r is Ok <==> bytes.len() <= maximum
                &&& r is Ok ==> r->Ok_0@ == bytes
                &&& r is Err ==> r->Err_0.message@
                    == "File is too large to read into memory."@
            },
            Err(m) => r is Err && r->Err_0.message@ == m,
        },
{
    let words = text::words(raw);
    let joined = text::join(words.as_slice(), "");
    match digest::base64_bytes(joined.as_str()) {
        Ok(bytes) => if bytes.len() > maximum {
            Err(Failure::new("File is too large to read into memory."))
        } else {
            Ok(bytes)
        },
        Err(m) => Err(Failure { message: m }),
    }
}

// ---------------------------------------------------------------------------------------------
// Writing.

/// The text that writes its input to a file inside a container.
pub open spec fn write_script(root: Root, target: Seq<char>) -> Seq<char> {
    "mkdir -p -- "@ + process::quoted(holder_of(root, target)) + " && cat > "@ + process::quoted(
        target,
    )
}

/// Decides how a file is written. A path is required.
pub fn write_plan(root: &Root, path: &str) -> (r: Result<Plan, Failure>)
    ensures
        ({
            let clean = paths::unled(path@, true);
            &&& r is Ok <==> clean.len() > 0 && !paths::escapes(clean)
            &&& r is Ok ==> r->Ok_0@ == if root.use_host {
                PlanView::Host(on_host(*root, clean))
            } else {
                PlanView::Shell(write_script(*root, inside_of(*root, clean)))
            }
            &&& clean.len() == 0 ==> r->Err_0.message@ == "A file path is required."@
            &&& clean.len() > 0 && r is Err ==> r->Err_0.message@ == "invalid file path"@
        }),
{
    let clean = paths::trim_leading_slashes(path, true);
    if text::is_empty(clean.as_str()) {
        return Err(Failure::new("A file path is required."));
    }
    if root.use_host {
        match paths::safe_host_path(root.host.as_str(), clean.as_str()) {
            Ok(p) => Ok(Plan::Host(p)),
            Err(e) => Err(e),
        }
    } else {
        match inside(root, clean.as_str()) {
            Ok(target) => {
                let parent = holder(root, target.as_str());
                let parent = process::shell_quote(parent.as_str());
                let word = process::shell_quote(target.as_str());
                Ok(
                    Plan::Shell(
                        text::concat4(
                            "mkdir -p -- ",
                            parent.as_str(),
                            " && cat > ",
                            word.as_str(),
                        ),
                    ),
                )
            },
            Err(e) => Err(e),
        }
    }
}

/// The arguments with which Docker runs a text of a shell that reads its input.
pub fn input_arguments(id: &str, command: &str) -> (r: Vec<String>)
    ensures
        text::views(r@) == seq!["exec"@, "-i"@, id@, "/bin/sh"@, "-lc"@, command@],
{
    let list: Vec<&str> = vec!["exec", "-i", id, "/bin/sh", "-lc", command];
    let r = text::owned(list);
    assert(text::views(r@) =~= seq!["exec"@, "-i"@, id@, "/bin/sh"@, "-lc"@, command@]);
    r
}

/// How sending a file to a container ended.
pub fn upload_outcome(success: bool, code: Option<i32>) -> (r: Result<(), Failure>)
    ensures
        r is Ok <==> success,
        r is Err ==> r->Err_0.message@ == "docker upload stream exited with status "@
            + text::signed_decimal(
            match code {
                Some(n) => n as int,
                None => -1,
            },
        ),
{
    if success {
        return Ok(());
    }
    let n: i64 = match code {
        Some(n) => n as i64,
        None => -1,
    };
    let number = text::signed_decimal_string(n);
    Err(
        Failure {
            message: text::concat2("docker upload stream exited with status ", number.as_str()),
        },
    )
}

/// How many prefixes of a target's parts, from the longest down to that of the root, there are.
pub open spec fn owned_prefixes(root: Seq<char>, target: Seq<char>) -> Seq<Seq<char>> {
    let whole = paths::path_parts(target);
    let base = paths::path_parts(root);
    if text::begins(whole, base) {
        Seq::new(
            (whole.len() - base.len() + 1) as nat,
            |i: int| paths::parts_text(whole.take(whole.len() - i)),
        )
    } else {
        Seq::empty()
    }
}

/// What is to be given to the user that a server runs as, so that the server can use what was
/// written: the target, and each directory above it down from the root.
pub fn ownership_paths(root: &str, target: &str) -> (r: Vec<String>)
    ensures
        text::views(r@) == owned_prefixes(root@, target@),
{
    let mut out: Vec<String> = Vec::new();
    if !paths::is_below(target, root) {
        assert(text::views(out@) =~= owned_prefixes(root@, target@));
        return out;
    }
    let parts = paths::split_path(target);
    let base = paths::split_path(root);
    let ghost whole = paths::path_parts(target@);
    let ghost count = owned_prefixes(root@, target@);
    let bottom: usize = base.len();
    let n: usize = parts.len();
    let mut k: usize = n;
    assert(text::views(base@).len() == base@.len());
    assert(text::views(parts@).len() == parts@.len());
    assert(count.len() == n - bottom + 1);
    assert(text::views(out@) =~= count.take(0));
    loop
        invariant
            text::views(parts@) == whole,
            n == parts@.len(),
            whole == paths::path_parts(target@),
            count == owned_prefixes(root@, target@),
            count.len() == n - bottom + 1,
            text::begins(whole, paths::path_parts(root@)),
            bottom <= k <= n,
            text::views(out@) == count.take(n - k),
        decreases k,
    {
        let ghost before = out@;
        let path = paths::path_of(&parts, k);
        assert(count[n - k] == paths::parts_text(whole.take(k as int)));
        out.push(path);
        proof {
            text::lemma_views_push(before, path);
            assert(count.take(n - k + 1) =~= count.take(n - k).push(count[n - k]));
        }
        if k == bottom {
            assert(count.take(count.len() as int) =~= count);
            return out;
        }
        k -= 1;
    }
}

/// The arguments with which `chown` gives what was written to the user that a server runs as.
pub fn ownership_arguments(root: &str, target: &str) -> (r: Vec<String>)
    ensures
        text::views(r@) == seq![SERVER_RUNTIME_USER@] + owned_prefixes(root@, target@),
{
    let mut out: Vec<String> = vec![SERVER_RUNTIME_USER.to_owned()];
    let mut rest = ownership_paths(root, target);
    let ghost a = out@;
    let ghost b = rest@;
    out.append(&mut rest);
    assert(text::views(out@) =~= text::views(a) + text::views(b));
    assert(text::views(a) =~= seq![SERVER_RUNTIME_USER@]);
    out
}

// ---------------------------------------------------------------------------------------------
// Deleting and renaming.

/// Decides how a file or directory is deleted. The root itself is not.
pub fn delete_plan(root: &Root, path: &str) -> (r: Result<Plan, Failure>)
    ensures
        ({
            let clean = paths::unled(path@, true);
            let is_root = clean.len() == 0 || clean == "."@;
            &&& r is Ok <==> !is_root && !paths::escapes(clean)
            &&& r is Ok ==> r->Ok_0@ == if root.use_host {
                PlanView::Host(on_host(*root, clean))
            } else {
                PlanView::Shell("rm -rf -- "@ + process::quoted(inside_of(*root, clean)))
            }
            &&& is_root ==> r->Err_0.message@ == "Deleting the server root is not allowed."@
            &&& !is_root && r is Err ==> r->Err_0.message@ == "invalid file path"@
        }),
{
    let clean = paths::trim_leading_slashes(path, true);
    if text::is_empty(clean.as_str()) || text::same(clean.as_str(), ".") {
        return Err(Failure::new("Deleting the server root is not allowed."));
    }
    if root.use_host {
        match paths::safe_host_path(root.host.as_str(), clean.as_str()) {
            Ok(p) => Ok(Plan::Host(p)),
            Err(e) => Err(e),
        }
    } else {
        match inside(root, clean.as_str()) {
            Ok(target) => {
                let word = process::shell_quote(target.as_str());
                Ok(Plan::Shell(text::concat2("rm -rf -- ", word.as_str())))
            },
            Err(e) => Err(e),
        }
    }
}

/// A character that may not stand in a new name: a control character, or one that some systems
/// give a meaning.
pub open spec fn bad_in_name(c: char) -> bool {
    c <= '\u{1f}' || '\u{7f}' <= c <= '\u{9f}' || c == '/' || c == '\\' || c == '<' || c == '>' || c
        == ':' || c == '"' || c == '|' || c == '?' || c == '*'
}

/// A name for one file or directory.
pub open spec fn valid_file_name(name: Seq<char>) -> bool {
    &&& name.len() > 0
    &&& name != "."@
    &&& name != ".."@
    &&& forall|i: int| 0 <= i < name.len() ==> !bad_in_name(#[trigger] name[i])
}

/// Refuses a name that is not one for one file or directory.
pub fn validate_file_name(name: &str) -> (r: Result<(), Failure>)
    ensures
        r is Ok <==> valid_file_name(name@),
        r is Err ==> r->Err_0.message@ == "New name must be a single file or directory name."@,
{
    if text::is_empty(name) || text::same(name, ".") || text::same(name, "..") {
        return Err(Failure::new("New name must be a single file or directory name."));
    }
    let cs = text::chars_of(name);
    let mut i: usize = 0;
    while i < cs.len()
        invariant
            cs@ == name@,
            0 <= i <= cs@.len(),
            forall|k: int| 0 <= k < i ==> !bad_in_name(#[trigger] name@[k]),
        decreases cs.len() - i,
    {
        let c = cs[i];
        if c <= '\u{1f}' || ('\u{7f}' <= c && c <= '\u{9f}') || c == '/' || c == '\\' || c == '<'
            || c == '>' || c == ':' || c == '"' || c == '|' || c == '?' || c == '*' {
            assert(bad_in_name(name@[i as int]));
            return Err(Failure::new("New name must be a single file or directory name."));
        }
        i += 1;
    }
    Ok(())
}

/// The text that renames an entry inside a container.
pub open spec fn rename_script(source: Seq<char>, destination: Seq<char>) -> Seq<char> {
    "[ ! -e "@ + process::quoted(destination) + " ] || exit 45; mv -- "@ + process::quoted(source)
        + " "@ + process::quoted(destination)
}

/// Decides how a file or directory is renamed. The root itself is not.
pub fn rename_plan(root: &Root, path: &str, new_name: &str) -> (r: Result<Plan, Failure>)
    ensures
        ({
            let clean = paths::unled(path@, true);
            let is_root = clean.len() == 0 || clean == "."@;
            let source = inside_of(*root, clean);
            &&& r is Ok <==> valid_file_name(new_name@) && !is_root && !paths::escapes(clean)
            &&& r is Ok ==> r->Ok_0@ == if root.use_host {
                PlanView::Host(on_host(*root, clean))
            } else {
                PlanView::Shell(
                    rename_script(source, holder_of(*root, source) + "/"@ + new_name@),
                )
            }
            &&& !valid_file_name(new_name@) ==> r->Err_0.message@
                == "New name must be a single file or directory name."@
            &&& valid_file_name(new_name@) && is_root ==> r->Err_0.message@
                == "Renaming the server root is not allowed."@
            &&& valid_file_name(new_name@) && !is_root && r is Err ==> r->Err_0.message@
                == "invalid file path"@
        }),
{
    let clean = paths::trim_leading_slashes(path, true);
    if let Err(e) = validate_file_name(new_name) {
        return Err(e);
    }
    if text::is_empty(clean.as_str()) || text::same(clean.as_str(), ".") {
        return Err(Failure::new("Renaming the server root is not allowed."));
    }
    if root.use_host {
        match paths::safe_host_path(root.host.as_str(), clean.as_str()) {
            Ok(p) => Ok(Plan::Host(p)),
            Err(e) => Err(e),
        }
    } else {
        match inside(root, clean.as_str()) {
            Ok(source) => {
                let parent = holder(root, source.as_str());
                let destination = text::concat3(parent.as_str(), "/", new_name);
                let to = process::shell_quote(destination.as_str());
                let from = process::shell_quote(source.as_str());
                let test = text::concat3("[ ! -e ", to.as_str(), " ] || exit 45; mv -- ");
                Ok(Plan::Shell(text::concat4(test.as_str(), from.as_str(), " ", to.as_str())))
            },
            Err(e) => Err(e),
        }
    }
}

/// Where a renamed entry on the host goes: beside where it is.
pub fn rename_destination(source: &str, new_name: &str) -> (r: Result<String, Failure>)
    ensures
        match paths::parent_of(source@) {
            Some(parent) => r is Ok && r->Ok_0@ == paths::joined(parent, new_name@),
            None => r is Err && r->Err_0.message@ == "invalid source path"@,
        },
{
    match paths::parent(source) {
        Some(parent) => Ok(paths::join_path(parent.as_str(), new_name)),
        None => Err(Failure::new("invalid source path")),
    }
}

/// Refuses to rename an entry to the name of another.
pub fn check_rename(exists: bool) -> (r: Result<(), Failure>)
    ensures
        r is Ok <==> !exists,
        r is Err ==> r->Err_0.message@ == "A file or directory with that name already exists."@,
{
    if exists {
        Err(Failure::new("A file or directory with that name already exists."))
    } else {
        Ok(())
    }
}

// ---------------------------------------------------------------------------------------------
// Directories and selections.

/// A path below the root that is not the root itself.
pub fn required_relative_path(path: &str, message: &str) -> (r: Result<String, Failure>)
    ensures
        r is Ok <==> !paths::escapes(path@) && paths::confined(path@).len() > 0,
        r is Ok ==> r->Ok_0@ == paths::confined(path@),
        paths::escapes(path@) ==> r->Err_0.message@ == "invalid file path"@,
        !paths::escapes(path@) && r is Err ==> r->Err_0.message@ == message@,
{
    match paths::relative(path) {
        Ok(relative) => if text::is_empty(relative.as_str()) {
            Err(Failure::new(message))
        } else {
            Ok(relative)
        },
        Err(e) => Err(e),
    }
}

/// Decides how a directory is made.
pub fn directory_plan(root: &Root, path: &str) -> (r: Result<Plan, Failure>)
    ensures
        ({
            let relative = paths::confined(path@);
            &&& r is Ok <==> !paths::escapes(path@) && relative.len() > 0
            &&& r is Ok ==> r->Ok_0@ == if root.use_host {
                PlanView::Host(on_host(*root, path@))
            } else {
                PlanView::Shell("mkdir -- "@ + process::quoted(inside_of(*root, path@)))
            }
            &&& !paths::escapes(path@) && relative.len() == 0 ==> r->Err_0.message@
                == "A directory path is required."@
            &&& paths::escapes(path@) ==> r->Err_0.message@ == "invalid file path"@
        }),
{
    let relative = match required_relative_path(path, "A directory path is required.") {
        Ok(p) => p,
        Err(e) => {
            return Err(e);
        },
    };
    proof {
        paths::law_relative_is_confined(path@);
    }
    if root.use_host {
        match paths::safe_host_path(root.host.as_str(), relative.as_str()) {
            Ok(p) => Ok(Plan::Host(p)),
            Err(e) => Err(e),
        }
    } else {
        match inside(root, relative.as_str()) {
            Ok(target) => {
                let word = process::shell_quote(target.as_str());
                Ok(Plan::Shell(text::concat2("mkdir -- ", word.as_str())))
            },
            Err(e) => Err(e),
        }
    }
}

/// The selected paths, each relative to the root.
pub open spec fn selected(paths: Seq<Seq<char>>) -> Seq<Seq<char>> {
    paths.map_values(|p: Seq<char>| crate::paths::confined(p))
}

/// Why the first path at or behind `from` that cannot be selected cannot be; none where all can.
pub open spec fn selection_refusal(paths: Seq<Seq<char>>, from: int) -> Option<Seq<char>>
    decreases paths.len() - from,
{
    if from < 0 || from >= paths.len() {
        None
    } else if crate::paths::escapes(paths[from]) {
        Some("invalid file path"@)
    } else if crate::paths::confined(paths[from]).len() == 0 {
        Some("The server root cannot be selected."@)
    } else if selected(paths).take(from).contains(crate::paths::confined(paths[from])) {
        Some("Duplicate source paths are not allowed."@)
    } else {
        selection_refusal(paths, from + 1)
    }
}

/// Why paths cannot be selected; none where they can.
pub open spec fn sources_refusal(paths: Seq<Seq<char>>) -> Option<Seq<char>> {
    if paths.len() == 0 {
        Some("At least one source path is required."@)
    } else if paths.len() > 100 {
        Some("No more than 100 items can be processed at once."@)
    } else {
        selection_refusal(paths, 0)
    }
}

/// The selected paths, each relative to the root: at least one, no more than a hundred, none of
/// them the root, and none of them twice.
pub fn validated_sources(source_paths: &Vec<String>) -> (r: Result<Vec<String>, Failure>)
    ensures
        ({
            let refusal = sources_refusal(text::views(source_paths@));
            &&& r is Ok <==> refusal is None
            &&& r is Ok ==> text::views(r->Ok_0@) == selected(text::views(source_paths@))
            &&& r is Ok ==> forall|i: int|
                0 <= i < r->Ok_0@.len() ==> is_relative((#[trigger] r->Ok_0@[i])@)
            &&& r is Err ==> Some(r->Err_0.message@) == refusal
        }),
{
    let ghost all = text::views(source_paths@);
    if source_paths.len() == 0 {
        return Err(Failure::new("At least one source path is required."));
    }
    if source_paths.len() > 100 {
        return Err(Failure::new("No more than 100 items can be processed at once."));
    }
    let mut sources: Vec<String> = Vec::new();
    let mut i: usize = 0;
    assert(text::views(sources@) =~= selected(all).take(0));
    while i < source_paths.len()
        invariant
            all == text::views(source_paths@),
            0 < all.len() <= 100,
            0 <= i <= source_paths@.len(),
            text::views(sources@) == selected(all).take(i as int),
            forall|k: int| 0 <= k < sources@.len() ==> is_relative((#[trigger] sources@[k])@),
            sources_refusal(all) == selection_refusal(all, i as int),
        decreases source_paths.len() - i,
    {
        assert(all[i as int] == source_paths@[i as int]@);
        let relative = match required_relative_path(
            source_paths[i].as_str(),
            "The server root cannot be selected.",
        ) {
            Ok(p) => p,
            Err(e) => {
                return Err(e);
            },
        };
        if text::list_has(sources.as_slice(), relative.as_str()) {
            return Err(Failure::new("Duplicate source paths are not allowed."));
        }
        let ghost before = sources@;
        sources.push(relative);
        proof {
            text::lemma_views_push(before, relative);
            paths::law_relative_is_confined(all[i as int]);
            paths::lemma_confined_parts(all[i as int]);
            assert(selected(all).take(i + 1) =~= selected(all).take(i as int).push(relative@));
        }
        i += 1;
    }
    assert(selected(all).take(all.len() as int) =~= selected(all));
    Ok(sources)
}

// ---------------------------------------------------------------------------------------------
// Moving.

/// Where a moved entry on the host goes: into the destination, under its own name.
pub fn move_target(source: &str, destination: &str) -> (r: Result<String, Failure>)
    ensures
        match paths::file_name_of(source@) {
            Some(name) => r is Ok && r->Ok_0@ == paths::joined(destination@, name),
            None => r is Err && r->Err_0.message@ == "invalid source path"@,
        },
{
    match paths::file_name(source) {
        Some(name) => Ok(paths::join_path(destination, name.as_str())),
        None => Err(Failure::new("invalid source path")),
    }
}

/// Why an entry on the host is not moved; none where it is.
pub open spec fn move_refusal(
    source: Seq<char>,
    target: Seq<char>,
    destination: Seq<char>,
    symlink: bool,
    exists: bool,
    directory: bool,
) -> Option<Seq<char>> {
    if symlink {
        Some("Symbolic links cannot be moved."@)
    } else if paths::path_parts(source) == paths::path_parts(target) {
        Some("An item is already in the selected destination."@)
    } else if exists {
        Some("A file or directory with that name already exists in the destination."@)
    } else if directory && paths::below(destination, source) {
        Some("A directory cannot be moved inside itself."@)
    } else {
        None
    }
}

/// Whether two paths name the same place, as they are written.
fn same_place(a: &str, b: &str) -> (r: bool)
    ensures
        r == (paths::path_parts(a@) == paths::path_parts(b@)),
{
    let r = paths::is_below(a, b) && paths::is_below(b, a);
    proof {
        let x = paths::path_parts(a@);
        let y = paths::path_parts(b@);
        if text::begins(x, y) && text::begins(y, x) {
            assert(x.subrange(0, y.len() as int) =~= x);
        }
        if x == y {
            assert(x.subrange(0, y.len() as int) =~= y);
        }
    }
    r
}

/// Refuses to move an entry on the host that is a symbolic link, that is there already, whose name
/// is taken, or that would end up in itself.
pub fn check_move(
    source: &str,
    target: &str,
    destination: &str,
    symlink: bool,
    exists: bool,
    directory: bool,
) -> (r: Result<(), Failure>)
    ensures
        ({
            let refusal = move_refusal(
                source@,
                target@,
                destination@,
                symlink,
                exists,
                directory,
            );
            &&& r is Ok <==> refusal is None
            &&& r is Err ==> Some(r->Err_0.message@) == refusal
        }),
{
    if symlink {
        Err(Failure::new("Symbolic links cannot be moved."))
    } else if same_place(source, target) {
        Err(Failure::new("An item is already in the selected destination."))
    } else if exists {
        Err(Failure::new("A file or directory with that name already exists in the destination."))
    } else if directory && paths::is_below(destination, source) {
        Err(Failure::new("A directory cannot be moved inside itself."))
    } else {
        Ok(())
    }
}

/// The test of the destination of a move inside a container.
pub open spec fn destination_test(destination: Seq<char>) -> Seq<char> {
    "[ -d "@ + process::quoted(destination)
        + " ] || { echo 'Move destination must be a directory.' >&2; exit 44; }"@
}

/// Where a moved entry inside a container goes.
pub open spec fn moved_to(destination: Seq<char>, relative: Seq<char>) -> Seq<char> {
    paths::without_slashes(destination) + "/"@ + paths::path_parts(relative).last()
}

/// The test of one source of a move inside a container.
pub open spec fn source_test(
    source: Seq<char>,
    target: Seq<char>,
    destination: Seq<char>,
) -> Seq<char> {
    let s = process::quoted(source);
    let t = process::quoted(target);
    let d = process::quoted(destination);
    "[ -e "@ + s + " ] && [ ! -L "@ + s
        + " ] || { echo 'Move source is unavailable.' >&2; exit 45; }; [ "@ + s + " != "@ + t
        + " ] || { echo 'An item is already in the selected destination.' >&2; exit 46; }; [ ! -e "@
        + t + " ] || { echo 'An item with that name already exists.' >&2; exit 47; }; case "@ + d
        + "/ in "@ + s
        + "/*) echo 'A directory cannot be moved inside itself.' >&2; exit 48;; esac"@
}

/// The tests of the sources of a move inside a container, in order.
pub open spec fn source_tests(
    root: Root,
    sources: Seq<Seq<char>>,
    destination: Seq<char>,
) -> Seq<Seq<char>> {
    sources.map_values(
        |s: Seq<char>|
            source_test(inside_of(root, s), moved_to(destination, s), destination),
    )
}

/// The moves of the sources inside a container, in order.
pub open spec fn source_moves(
    root: Root,
    sources: Seq<Seq<char>>,
    destination: Seq<char>,
) -> Seq<Seq<char>> {
    sources.map_values(
        |s: Seq<char>|
            "mv -- "@ + process::quoted(inside_of(root, s)) + " "@ + process::quoted(
                moved_to(destination, s),
            ),
    )
}

/// The text that moves entries inside a container: every test comes before the first move.
pub open spec fn move_script(
    root: Root,
    sources: Seq<Seq<char>>,
    destination: Seq<char>,
) -> Seq<char> {
    text::join_with(
        seq![destination_test(destination)] + source_tests(root, sources, destination)
            + source_moves(root, sources, destination),
        "; "@,
    )
}

fn source_test_text(source: &str, target: &str, destination: &str) -> (r: String)
    ensures
        r@ == source_test(source@, target@, destination@),
{
    let s = process::shell_quote(source);
    let t = process::shell_quote(target);
    let d = process::shell_quote(destination);
    let a = text::concat4("[ -e ", s.as_str(), " ] && [ ! -L ", s.as_str());
    let b = text::concat5(
        a.as_str(),
        " ] || { echo 'Move source is unavailable.' >&2; exit 45; }; [ ",
        s.as_str(),
        " != ",
        t.as_str(),
    );
    let c = text::concat4(
        b.as_str(),
        " ] || { echo 'An item is already in the selected destination.' >&2; exit 46; }; [ ! -e ",
        t.as_str(),
        " ] || { echo 'An item with that name already exists.' >&2; exit 47; }; case ",
    );
    text::concat5(
        c.as_str(),
        d.as_str(),
        "/ in ",
        s.as_str(),
        "/*) echo 'A directory cannot be moved inside itself.' >&2; exit 48;; esac",
    )
}

/// A path below the root: names between single slashes.
pub open spec fn is_relative(path: Seq<char>) -> bool {
    &&& !paths::escapes(path)
    &&& paths::file_name_of(path) is Some
}

/// The text that moves entries inside a container.
pub fn move_command(root: &Root, sources: &Vec<String>, destination: &str) -> (r: Result<
    String,
    Failure,
>)
    requires
        forall|i: int| 0 <= i < sources@.len() ==> is_relative((#[trigger] sources@[i])@),
    ensures
        r is Ok <==> !paths::escapes(destination@),
        r is Ok ==> r->Ok_0@ == move_script(
            *root,
            text::views(sources@),
            inside_of(*root, destination@),
        ),
        r is Err ==> r->Err_0.message@ == "invalid file path"@,
{
    let place = match inside(root, destination) {
        Ok(p) => p,
        Err(e) => {
            return Err(e);
        },
    };
    let ghost all = text::views(sources@);
    let word = process::shell_quote(place.as_str());
    let first = text::concat3(
        "[ -d ",
        word.as_str(),
        " ] || { echo 'Move destination must be a directory.' >&2; exit 44; }",
    );
    let mut checks: Vec<String> = vec![first];
    let mut moves: Vec<String> = Vec::new();
    let ghost head = seq![destination_test(place@)];
    let ghost tests = source_tests(*root, all, place@);
    let ghost steps = source_moves(*root, all, place@);
    let mut i: usize = 0;
    assert(text::views(checks@) =~= head + tests.take(0));
    assert(text::views(moves@) =~= steps.take(0));
    while i < sources.len()
        invariant
            forall|i: int| 0 <= i < sources@.len() ==> is_relative((#[trigger] sources@[i])@),
            all == text::views(sources@),
            tests == source_tests(*root, all, place@),
            steps == source_moves(*root, all, place@),
            0 <= i <= sources@.len(),
            text::views(checks@) == head + tests.take(i as int),
            text::views(moves@) == steps.take(i as int),
            !paths::escapes(destination@),
        decreases sources.len() - i,
    {
        assert(all[i as int] == sources@[i as int]@);
        assert(is_relative(sources@[i as int]@));
        let relative = sources[i].as_str();
        let source = match inside(root, relative) {
            Ok(p) => p,
            Err(e) => {
                return Err(e);
            },
        };
        let name = match paths::file_name(relative) {
            Some(n) => n,
            None => {
                return Err(Failure::new("invalid source path"));
            },
        };
        let base = paths::trim_slashes(place.as_str());
        let target = text::concat3(base.as_str(), "/", name.as_str());
        let test = source_test_text(source.as_str(), target.as_str(), place.as_str());
        let s = process::shell_quote(source.as_str());
        let t = process::shell_quote(target.as_str());
        let step = text::concat4("mv -- ", s.as_str(), " ", t.as_str());
        let ghost checks_before = checks@;
        let ghost moves_before = moves@;
        assert(tests[i as int] == test@);
        assert(steps[i as int] == step@);
        checks.push(test);
        moves.push(step);
        proof {
            text::lemma_views_push(checks_before, test);
            text::lemma_views_push(moves_before, step);
            assert(tests.take(i + 1) =~= tests.take(i as int).push(tests[i as int]));
            assert(steps.take(i + 1) =~= steps.take(i as int).push(steps[i as int]));
            assert(head + tests.take(i + 1) =~= (head + tests.take(i as int)).push(
                tests[i as int],
            ));
        }
        i += 1;
    }
    let ghost a = checks@;
    let ghost b = moves@;
    checks.append(&mut moves);
    assert(text::views(checks@) =~= text::views(a) + text::views(b));
    assert(tests.take(all.len() as int) =~= tests);
    assert(steps.take(all.len() as int) =~= steps);
    assert(text::views(checks@) =~= head + tests + steps);
    Ok(text::join(checks.as_slice(), "; "))
}

// ---------------------------------------------------------------------------------------------
// Packing.

/// Where a new archive goes, relative to the root. Its name says what it is.
pub fn archive_destination(path: &str) -> (r: Result<String, Failure>)
    ensures
        ({
            let relative = paths::confined(path@);
            let named = text::ends(text::lowered(relative), ".tar.gz"@);
            &&& r is Ok <==> !paths::escapes(path@) && relative.len() > 0 && named
            &&& r is Ok ==> r->Ok_0@ == relative
            &&& paths::escapes(path@) ==> r->Err_0.message@ == "invalid file path"@
            &&& !paths::escapes(path@) && relative.len() == 0 ==> r->Err_0.message@
                == "An archive destination path is required."@
            &&& !paths::escapes(path@) && relative.len() > 0 && !named ==> r->Err_0.message@
                == "Archive name must end with .tar.gz."@
        }),
{
    let relative = match required_relative_path(
        path,
        "An archive destination path is required.",
    ) {
        Ok(p) => p,
        Err(e) => {
            return Err(e);
        },
    };
    let name = text::to_lower(relative.as_str());
    if text::ends_with(name.as_str(), ".tar.gz") {
        Ok(relative)
    } else {
        Err(Failure::new("Archive name must end with .tar.gz."))
    }
}

/// Refuses to make an archive on the host under a name that is taken, or in a place that is no
/// directory.
pub fn check_archive(exists: bool, parent_is_directory: bool) -> (r: Result<(), Failure>)
    ensures
        r is Ok <==> !exists && parent_is_directory,
        exists ==> r->Err_0.message@
            == "A file or directory with the archive name already exists."@,
        !exists && !parent_is_directory ==> r->Err_0.message@
            == "Archive destination directory does not exist."@,
{
    if exists {
        Err(Failure::new("A file or directory with the archive name already exists."))
    } else if !parent_is_directory {
        Err(Failure::new("Archive destination directory does not exist."))
    } else {
        Ok(())
    }
}

/// Refuses to pack a symbolic link, and a directory that the archive would lie in.
pub fn check_archive_source(source: &str, destination: &str, symlink: bool, directory: bool) -> (r:
    Result<(), Failure>)
    ensures
        r is Ok <==> !symlink && !(directory && paths::below(destination@, source@)),
        symlink ==> r->Err_0.message@ == "Symbolic links cannot be archived."@,
        !symlink && r is Err ==> r->Err_0.message@
            == "An archive cannot be created inside a selected directory."@,
{
    if symlink {
        Err(Failure::new("Symbolic links cannot be archived."))
    } else if directory && paths::is_below(destination, source) {
        Err(Failure::new("An archive cannot be created inside a selected directory."))
    } else {
        Ok(())
    }
}

/// The arguments with which `tar` packs entries of a server on the host.
pub fn archive_arguments(host: &str, destination: &str, sources: &Vec<String>) -> (r: Vec<String>)
    ensures
        text::views(r@) == seq!["-czf"@, destination@, "-C"@, host@, "--"@] + text::views(
            sources@,
        ),
{
    let list: Vec<&str> = vec!["-czf", destination, "-C", host, "--"];
    let mut out = text::owned(list);
    let ghost a = out@;
    let mut rest = text::copy_list(sources);
    let ghost b = rest@;
    out.append(&mut rest);
    assert(text::views(a) =~= seq!["-czf"@, destination@, "-C"@, host@, "--"@]);
    assert(text::views(out@) =~= text::views(a) + text::views(b));
    out
}

/// The tests of where an archive goes inside a container.
pub open spec fn archive_tests(root: Root, destination: Seq<char>) -> Seq<Seq<char>> {
    seq![
        "[ -d "@ + process::quoted(holder_of(root, destination))
            + " ] || { echo 'Archive destination directory does not exist.' >&2; exit 44; }"@,
        "[ ! -e "@ + process::quoted(destination)
            + " ] || { echo 'An item with the archive name already exists.' >&2; exit 45; }"@,
    ]
}

/// The tests of the first entries that are packed inside a container: two for each.
pub open spec fn packed_tests(
    root: Root,
    sources: Seq<Seq<char>>,
    destination: Seq<char>,
    count: int,
) -> Seq<Seq<char>>
    decreases count,
{
    if count <= 0 {
        Seq::empty()
    } else {
        let source = process::quoted(inside_of(root, sources[count - 1]));
        packed_tests(root, sources, destination, count - 1).push(
            "[ -e "@ + source + " ] && [ ! -L "@ + source
                + " ] || { echo 'Archive source is unavailable.' >&2; exit 46; }"@,
        ).push(
            "case "@ + process::quoted(destination) + "/ in "@ + source
                + "/*) echo 'An archive cannot be created inside a selected directory.' >&2; exit 47;; esac"@,
        )
    }
}

/// The packing itself inside a container: to a temporary name first.
pub open spec fn packing(
    root: Root,
    sources: Seq<Seq<char>>,
    destination: Seq<char>,
    temporary: Seq<char>,
) -> Seq<char> {
    let t = process::quoted(temporary);
    "trap 'rm -f -- "@ + t + "' EXIT; cd "@ + process::quoted(root.container@) + "; tar -czf "@ + t
        + " -- "@ + text::join_with(sources.map_values(|s: Seq<char>| process::quoted(s)), " "@)
        + "; mv -- "@ + t + " "@ + process::quoted(destination) + "; trap - EXIT"@
}

/// The text that packs entries inside a container.
pub open spec fn archive_script(
    root: Root,
    sources: Seq<Seq<char>>,
    destination: Seq<char>,
    unique: Seq<char>,
) -> Seq<char> {
    text::join_with(
        (archive_tests(root, destination) + packed_tests(
            root,
            sources,
            destination,
            sources.len() as int,
        )).push(packing(root, sources, destination, destination + ".agapornis-"@ + unique)),
        "; "@,
    )
}

fn packing_text(root: &Root, words: &Vec<String>, destination: &str, temporary: &str) -> (r: String)
    ensures
        r@ == {
            let t = process::quoted(temporary@);
            "trap 'rm -f -- "@ + t + "' EXIT; cd "@ + process::quoted(root.container@)
                + "; tar -czf "@ + t + " -- "@ + text::join_with(text::views(words@), " "@)
                + "; mv -- "@ + t + " "@ + process::quoted(destination@) + "; trap - EXIT"@
        },
{
    let t = process::shell_quote(temporary);
    let base = process::shell_quote(root.container.as_str());
    let to = process::shell_quote(destination);
    let names = text::join(words.as_slice(), " ");
    let a = text::concat5(
        "trap 'rm -f -- ",
        t.as_str(),
        "' EXIT; cd ",
        base.as_str(),
        "; tar -czf ",
    );
    let b = text::concat5(a.as_str(), t.as_str(), " -- ", names.as_str(), "; mv -- ");
    text::concat5(b.as_str(), t.as_str(), " ", to.as_str(), "; trap - EXIT")
}

/// The text that packs entries inside a container; `unique` is to be different each time.
pub fn archive_command(root: &Root, sources: &Vec<String>, destination: &str, unique: &str) -> (r:
    Result<String, Failure>)
    requires
        forall|i: int| 0 <= i < sources@.len() ==> is_relative((#[trigger] sources@[i])@),
    ensures
        r is Ok <==> !paths::escapes(destination@),
        r is Ok ==> r->Ok_0@ == archive_script(
            *root,
            text::views(sources@),
            inside_of(*root, destination@),
            unique@,
        ),
        r is Err ==> r->Err_0.message@ == "invalid file path"@,
{
    let place = match inside(root, destination) {
        Ok(p) => p,
        Err(e) => {
            return Err(e);
        },
    };
    let ghost all = text::views(sources@);
    let parent = holder(root, place.as_str());
    let parent = process::shell_quote(parent.as_str());
    let word = process::shell_quote(place.as_str());
    let temporary = text::concat3(place.as_str(), ".agapornis-", unique);
    let mut checks: Vec<String> = vec![
        text::concat3(
            "[ -d ",
            parent.as_str(),
            " ] || { echo 'Archive destination directory does not exist.' >&2; exit 44; }",
        ),
        text::concat3(
            "[ ! -e ",
            word.as_str(),
            " ] || { echo 'An item with the archive name already exists.' >&2; exit 45; }",
        ),
    ];
    let mut words: Vec<String> = Vec::new();
    let ghost head = archive_tests(*root, place@);
    let ghost quoted_words = all.map_values(|s: Seq<char>| process::quoted(s));
    let mut i: usize = 0;
    assert(text::views(checks@) =~= head + packed_tests(*root, all, place@, 0));
    assert(text::views(words@) =~= quoted_words.take(0));
    while i < sources.len()
        invariant
            forall|i: int| 0 <= i < sources@.len() ==> is_relative((#[trigger] sources@[i])@),
            all == text::views(sources@),
            quoted_words == all.map_values(|s: Seq<char>| process::quoted(s)),
            word@ == process::quoted(place@),
            0 <= i <= sources@.len(),
            text::views(checks@) == head + packed_tests(*root, all, place@, i as int),
            text::views(words@) == quoted_words.take(i as int),
            !paths::escapes(destination@),
        decreases sources.len() - i,
    {
        assert(all[i as int] == sources@[i as int]@);
        assert(is_relative(sources@[i as int]@));
        let relative = sources[i].as_str();
        let source = match inside(root, relative) {
            Ok(p) => p,
            Err(e) => {
                return Err(e);
            },
        };
        let s = process::shell_quote(source.as_str());
        let there = text::concat5(
            "[ -e ",
            s.as_str(),
            " ] && [ ! -L ",
            s.as_str(),
            " ] || { echo 'Archive source is unavailable.' >&2; exit 46; }",
        );
        let outside = text::concat5(
            "case ",
            word.as_str(),
            "/ in ",
            s.as_str(),
            "/*) echo 'An archive cannot be created inside a selected directory.' >&2; exit 47;; esac",
        );
        let name = process::shell_quote(relative);
        let ghost checks_before = checks@;
        let ghost words_before = words@;
        checks.push(there);
        let ghost checks_between = checks@;
        checks.push(outside);
        assert(quoted_words[i as int] == name@);
        words.push(name);
        proof {
            text::lemma_views_push(checks_before, there);
            text::lemma_views_push(checks_between, outside);
            text::lemma_views_push(words_before, name);
            assert(head + packed_tests(*root, all, place@, i + 1) =~= (head + packed_tests(
                *root,
                all,
                place@,
                i as int,
            )).push(there@).push(outside@));
            assert(quoted_words.take(i + 1) =~= quoted_words.take(i as int).push(name@));
        }
        i += 1;
    }
    assert(quoted_words.take(all.len() as int) =~= quoted_words);
    let last = packing_text(root, &words, place.as_str(), temporary.as_str());
    let ghost before = checks@;
    checks.push(last);
    proof {
        text::lemma_views_push(before, last);
    }
    Ok(text::join(checks.as_slice(), "; "))
}

// ---------------------------------------------------------------------------------------------
// Unpacking.

/// The command that unpacks an archive, by the end of its name; none for what is no archive.
pub open spec fn unpacking(archive: Seq<char>) -> Option<Seq<char>> {
    let name = text::lowered(archive);
    if text::ends(name, ".tar.gz"@) || text::ends(name, ".tgz"@) {
        Some("tar --no-same-owner --no-same-permissions -xzf /archive -C /extract"@)
    } else if text::ends(name, ".tar"@) {
        Some("tar --no-same-owner --no-same-permissions -xf /archive -C /extract"@)
    } else if text::ends(name, ".zip"@) {
        Some("unzip -o /archive -d /extract"@)
    } else {
        None
    }
}

/// The path of an archive below the root, and the command that unpacks it.
pub fn extract_command(archive_path: &str) -> (r: Result<(String, String), Failure>)
    ensures
        ({
            let clean = paths::unled(archive_path@, true);
            &&& r is Ok <==> clean.len() > 0 && unpacking(clean) is Some
            &&& r is Ok ==> (r->Ok_0).0@ == clean && Some((r->Ok_0).1@) == unpacking(clean)
            &&& clean.len() == 0 ==> r->Err_0.message@ == "An archive path is required."@
            &&& clean.len() > 0 && r is Err ==> r->Err_0.message@
                == "Only .zip, .tar, .tar.gz, and .tgz archives can be extracted."@
        }),
{
    let clean = paths::trim_leading_slashes(archive_path, true);
    if text::is_empty(clean.as_str()) {
        return Err(Failure::new("An archive path is required."));
    }
    let name = text::to_lower(clean.as_str());
    let command = if text::ends_with(name.as_str(), ".tar.gz") || text::ends_with(
        name.as_str(),
        ".tgz",
    ) {
        "tar --no-same-owner --no-same-permissions -xzf /archive -C /extract"
    } else if text::ends_with(name.as_str(), ".tar") {
        "tar --no-same-owner --no-same-permissions -xf /archive -C /extract"
    } else if text::ends_with(name.as_str(), ".zip") {
        "unzip -o /archive -d /extract"
    } else {
        return Err(
            Failure::new("Only .zip, .tar, .tar.gz, and .tgz archives can be extracted."),
        );
    };
    Ok((clean, command.to_owned()))
}

/// The image of a container, in which its archives are unpacked.
pub fn server_image(inspect: &Json) -> (r: Result<String, Failure>)
    ensures
        r is Ok <==> image_of(inspect@) is Some,
        r is Ok ==> Some(r->Ok_0@) == image_of(inspect@),
        r is Err ==> r->Err_0.message@ == "server image is unavailable"@,
{
    match inspect.inner_text("Config", "Image") {
        Some(image) => if text::blank(image.as_str()) {
            Err(Failure::new("server image is unavailable"))
        } else {
            Ok(image)
        },
        None => Err(Failure::new("server image is unavailable")),
    }
}

/// The arguments with which Docker unpacks an archive: alone, without a network, without
/// privileges, and with nothing to write to but the destination.
pub open spec fn extraction(
    archive: Seq<char>,
    destination: Seq<char>,
    image: Seq<char>,
    command: Seq<char>,
) -> Seq<Seq<char>> {
    seq![
        "run"@,
        "--rm"@,
        "--pull"@,
        "never"@,
        "--network"@,
        "none"@,
        "--read-only"@,
        "--cap-drop"@,
        "ALL"@,
        "--security-opt"@,
        "no-new-privileges"@,
        "--pids-limit"@,
        "128"@,
        "--memory"@,
        "256m"@,
        "--cpus"@,
        "0.5"@,
        "--user"@,
        SERVER_RUNTIME_USER@,
        "--mount"@,
        "type=bind,src="@ + archive + ",dst=/archive,readonly"@,
        "--mount"@,
        "type=bind,src="@ + destination + ",dst=/extract"@,
        "--entrypoint"@,
        "/bin/sh"@,
        image,
        "-lc"@,
        command,
    ]
}

/// The arguments with which Docker unpacks an archive.
pub fn extract_arguments(archive: &str, destination: &str, image: &str, command: &str) -> (r: Vec<
    String,
>)
    ensures
        text::views(r@) == extraction(archive@, destination@, image@, command@),
{
    let from = text::concat3("type=bind,src=", archive, ",dst=/archive,readonly");
    let to = text::concat3("type=bind,src=", destination, ",dst=/extract");
    let list: Vec<&str> = vec![
        "run",
        "--rm",
        "--pull",
        "never",
        "--network",
        "none",
        "--read-only",
        "--cap-drop",
        "ALL",
        "--security-opt",
        "no-new-privileges",
        "--pids-limit",
        "128",
        "--memory",
        "256m",
        "--cpus",
        "0.5",
        "--user",
        SERVER_RUNTIME_USER,
        "--mount",
        from.as_str(),
        "--mount",
        to.as_str(),
        "--entrypoint",
        "/bin/sh",
        image,
        "-lc",
        command,
    ];
    let r = text::owned(list);
    assert(text::views(r@) =~= extraction(archive@, destination@, image@, command@));
    r
}

// ---------------------------------------------------------------------------------------------
// Laws.

/// Entries that may be selected are different, and none of them is the root.
pub proof fn law_selection_is_distinct(paths: Seq<Seq<char>>, i: int, j: int)
    requires
        sources_refusal(paths) is None,
        0 <= i <= j < paths.len(),
    ensures
        i < j ==> selected(paths)[i] != selected(paths)[j],
        selected(paths)[i].len() > 0,
{
    lemma_selection_holds(paths, 0, j);
    lemma_selection_holds(paths, 0, i);
    if i < j {
        assert(selected(paths).take(j)[i] == selected(paths)[i]);
    }
}

proof fn lemma_selection_holds(paths: Seq<Seq<char>>, from: int, at: int)
    requires
        selection_refusal(paths, from) is None,
        0 <= from <= at < paths.len(),
    ensures
        selection_refusal(paths, at) is None,
    decreases at - from,
{
    if from < at {
        lemma_selection_holds(paths, from + 1, at);
    }
}

proof fn lemma_selection_refusal(paths: Seq<Seq<char>>, from: int)
    requires
        0 <= from <= paths.len(),
    ensures
        selection_refusal(paths, from) is None <==> forall|i: int|
            from <= i < paths.len() ==> !crate::paths::escapes(#[trigger] paths[i])
                && crate::paths::confined(paths[i]).len() > 0 && !selected(paths).take(i).contains(
                crate::paths::confined(paths[i]),
            ),
    decreases paths.len() - from,
{
    if from < paths.len() {
        lemma_selection_refusal(paths, from + 1);
        let p = paths[from];
    }
}

/// Paths can be selected exactly where there are between one and a hundred of them, and each stays
/// below the root, is not the root itself, and names something that no path before it does.
pub proof fn law_proper_selections_are_taken(paths: Seq<Seq<char>>)
    ensures
        sources_refusal(paths) is None <==> 1 <= paths.len() <= 100 && forall|i: int|
            0 <= i < paths.len() ==> !crate::paths::escapes(#[trigger] paths[i])
                && crate::paths::confined(paths[i]).len() > 0 && !selected(paths).take(i).contains(
                crate::paths::confined(paths[i]),
            ),
{
    lemma_selection_refusal(paths, 0);
}

/// An entry is moved exactly where it is no link, goes elsewhere than where it is, finds no other
/// entry there, and is no directory that would go into itself.
pub proof fn law_possible_moves_are_made(
    source: Seq<char>,
    target: Seq<char>,
    destination: Seq<char>,
    symlink: bool,
    exists: bool,
    directory: bool,
)
    ensures
        move_refusal(source, target, destination, symlink, exists, directory) is None <==> !symlink
            && paths::path_parts(source) != paths::path_parts(target) && !exists && !(directory
            && paths::below(destination, source)),
{
}

/// An archive is unpacked by the program for its kind, by the end of its name in letters of any
/// size; what is no archive is not.
pub proof fn law_archives_are_unpacked_by_their_kind(archive: Seq<char>)
    ensures
        unpacking(archive) is Some <==> text::ends(text::lowered(archive), ".tar.gz"@)
            || text::ends(text::lowered(archive), ".tgz"@) || text::ends(
            text::lowered(archive),
            ".tar"@,
        ) || text::ends(text::lowered(archive), ".zip"@),
        text::ends(text::lowered(archive), ".tgz"@) ==> unpacking(archive) == Some(
            "tar --no-same-owner --no-same-permissions -xzf /archive -C /extract"@,
        ),
        text::ends(text::lowered(archive), ".tar.gz"@) ==> unpacking(archive) == Some(
            "tar --no-same-owner --no-same-permissions -xzf /archive -C /extract"@,
        ),
{
}

/// More is asked for than is wanted by one byte, so that too long a file shows.
pub proof fn law_one_byte_more_is_asked_for(maximum: usize)
    ensures
        maximum < usize::MAX ==> asked_for(maximum) == maximum + 1,
{
}

} // verus!
