//! Paths of server-owned data: naming directories after servers, and keeping what a client asks
//! for below its server's root.

use crate::error::Failure;
use crate::text;
use vstd::prelude::*;

verus! {

pub const HOME_CONTAINER_PATH: &'static str = "/home/container";

pub const DATA_CONTAINER_PATH: &'static str = "/data";

/// `name` below the directory `base`.
pub open spec fn joined(base: Seq<char>, name: Seq<char>) -> Seq<char> {
    if base.len() == 0 {
        name
    } else if base.last() == '/' {
        base + name
    } else {
        base + "/"@ + name
    }
}

/// `name` below the directory `base`.
pub fn join_path(base: &str, name: &str) -> (r: String)
    ensures
        r@ == joined(base@, name@),
{
    let cs = text::chars_of(base);
    if cs.len() == 0 {
        name.to_owned()
    } else if cs[cs.len() - 1] == '/' {
        text::concat2(base, name)
    } else {
        text::concat3(base, "/", name)
    }
}

/// A path of Windows that is nothing but a drive.
pub open spec fn is_drive(path: Seq<char>) -> bool {
    path.len() == 2 && has_drive(path)
}

/// A path of Windows that begins with a drive.
pub open spec fn has_drive(path: Seq<char>) -> bool {
    &&& path.len() >= 2
    &&& ('a' <= path[0] <= 'z' || 'A' <= path[0] <= 'Z')
    &&& path[1] == ':'
}

/// Whether a path of Windows begins with a drive.
pub fn begins_with_drive(path: &str) -> (r: bool)
    ensures
        r == has_drive(path@),
{
    let cs = text::chars_of(path);
    cs.len() >= 2 && (('a' <= cs[0] && cs[0] <= 'z') || ('A' <= cs[0] && cs[0] <= 'Z')) && cs[1]
        == ':'
}

/// A relative path below a directory of Windows: behind a separator, unless one is there already,
/// or there is nothing to separate it from, or the directory is the current one of a drive. Below a
/// directory that is taken word for word, all separators are backslashes.
pub open spec fn windows_joined(base: Seq<char>, name: Seq<char>) -> Seq<char> {
    let literal = text::begins(base, "\\\\?\\"@);
    let name = if literal {
        text::swapped(name, '/', '\\')
    } else {
        name
    };
    if base.len() == 0 || base.last() == '\\' || base.last() == '/' && !literal || is_drive(base) {
        base + name
    } else {
        base + "\\"@ + name
    }
}

/// A relative path below a directory of Windows.
pub fn windows_join(base: &str, name: &str) -> (r: String)
    ensures
        r@ == windows_joined(base@, name@),
{
    let literal = text::starts_with(base, "\\\\?\\");
    let name = if literal {
        text::swap_char(name, '/', '\\')
    } else {
        name.to_owned()
    };
    let cs = text::chars_of(base);
    let n: usize = cs.len();
    if n == 0 || cs[n - 1] == '\\' || (cs[n - 1] == '/' && !literal) || (n == 2 && begins_with_drive(base)) {
        text::concat2(base, name.as_str())
    } else {
        text::concat3(base, "\\", name.as_str())
    }
}

/// The directory that holds every server: what is configured, or the platform's default.
pub fn base_servers_dir(configured: Option<&str>, windows: bool, program_data: Option<&str>) -> (r:
    String)
    ensures
        r@ == match configured {
            Some(dir) => dir@,
            None => if windows {
                let root = match program_data {
                    Some(dir) => dir@,
                    None => "C:\\ProgramData"@,
                };
                windows_joined(windows_joined(root, "agapornis"@), "servers"@)
            } else {
                "/var/lib/agapornis/servers"@
            },
        },
{
    match configured {
        Some(dir) => dir.to_owned(),
        None => if windows {
            let root = match program_data {
                Some(dir) => dir,
                None => "C:\\ProgramData",
            };
            let dir = windows_join(root, "agapornis");
            windows_join(dir.as_str(), "servers")
        } else {
            "/var/lib/agapornis/servers".to_owned()
        },
    }
}

/// An identifier that names exactly one directory entry.
pub open spec fn valid_id(id: Seq<char>) -> bool {
    &&& id.len() > 0
    &&& id != "."@
    &&& id != ".."@
    &&& !id.contains('/')
    &&& !id.contains('\\')
    &&& !id.contains('\0')
}

/// Accepts the identifiers that name one directory entry.
pub fn validate_id(id: &str) -> (r: Result<(), Failure>)
    ensures
        r is Ok <==> valid_id(id@),
        r is Err ==> r->Err_0.message@ == "invalid server id"@,
{
    if text::is_empty(id) || text::same(id, ".") || text::same(id, "..") || text::has_char(id, '/')
        || text::has_char(id, '\\') || text::has_char(id, '\0') {
        return Err(Failure::new("invalid server id"));
    }
    Ok(())
}

/// The directory of a server.
pub fn server_dir(base: &str, id: &str) -> (r: Result<String, Failure>)
    ensures
        r is Ok <==> valid_id(id@),
        r is Ok ==> r->Ok_0@ == joined(base@, id@),
        r is Err ==> r->Err_0.message@ == "invalid server id"@,
{
    match validate_id(id) {
        Ok(()) => Ok(join_path(base, id)),
        Err(e) => Err(e),
    }
}

/// The file that records a server's disk limit.
pub fn disk_limit_path(base: &str, id: &str) -> (r: Result<String, Failure>)
    ensures
        r is Ok <==> valid_id(id@),
        r is Ok ==> r->Ok_0@ == joined(joined(base@, ".metadata"@), id@ + ".disk-limit"@),
        r is Err ==> r->Err_0.message@ == "invalid server id"@,
{
    match validate_id(id) {
        Ok(()) => {
            let dir = join_path(base, ".metadata");
            let name = text::concat2(id, ".disk-limit");
            Ok(join_path(dir.as_str(), name.as_str()))
        },
        Err(e) => Err(e),
    }
}

/// The file that keeps a server's configuration descriptor.
pub fn config_files_path(base: &str, id: &str) -> (r: Result<String, Failure>)
    ensures
        r is Ok <==> valid_id(id@),
        r is Ok ==> r->Ok_0@ == joined(joined(base@, ".metadata"@), id@ + ".config-files.json"@),
        r is Err ==> r->Err_0.message@ == "invalid server id"@,
{
    match validate_id(id) {
        Ok(()) => {
            let dir = join_path(base, ".metadata");
            let name = text::concat2(id, ".config-files.json");
            Ok(join_path(dir.as_str(), name.as_str()))
        },
        Err(e) => Err(e),
    }
}

/// The directory below a server that holds its backups.
pub fn backup_dir(base: &str, id: &str) -> (r: Result<String, Failure>)
    ensures
        r is Ok <==> valid_id(id@),
        r is Ok ==> r->Ok_0@ == joined(joined(base@, id@), ".agapornis-backups"@),
        r is Err ==> r->Err_0.message@ == "invalid server id"@,
{
    match server_dir(base, id) {
        Ok(dir) => Ok(join_path(dir.as_str(), ".agapornis-backups")),
        Err(e) => Err(e),
    }
}

/// The pieces of a requested path between slashes of either kind.
pub open spec fn components(requested: Seq<char>) -> Seq<Seq<char>> {
    text::split_on(text::swapped(requested, '\\', '/'), '/')
}

/// A piece that names an entry: neither empty nor the current directory.
pub open spec fn is_name(part: Seq<char>) -> bool {
    part.len() > 0 && part != "."@
}

/// The pieces that name entries, in order.
pub open spec fn names(parts: Seq<Seq<char>>) -> Seq<Seq<char>>
    decreases parts.len(),
{
    if parts.len() == 0 {
        Seq::empty()
    } else if is_name(parts.last()) {
        names(parts.drop_last()).push(parts.last())
    } else {
        names(parts.drop_last())
    }
}

/// A requested path that steps to a parent directory.
pub open spec fn escapes(requested: Seq<char>) -> bool {
    components(requested).contains(".."@)
}

/// The requested path as names below a root, joined by slashes.
pub open spec fn confined(requested: Seq<char>) -> Seq<char> {
    text::join_with(names(components(requested)), "/"@)
}

/// The requested path relative to a root. A path that steps to a parent is refused.
pub fn relative(requested: &str) -> (r: Result<String, Failure>)
    ensures
        r is Ok <==> !escapes(requested@),
        r is Ok ==> r->Ok_0@ == confined(requested@),
        r is Err ==> r->Err_0.message@ == "invalid file path"@,
{
    let normalized = text::swap_char(requested, '\\', '/');
    let parts = text::split(normalized.as_str(), '/');
    let mut kept: Vec<String> = Vec::new();
    let mut i: usize = 0;
    let ghost all = components(requested@);
    assert(all.take(0) =~= Seq::<Seq<char>>::empty());
    assert(text::views(kept@) =~= Seq::<Seq<char>>::empty());
    while i < parts.len()
        invariant
            all == components(requested@),
            text::views(parts@) == all,
            0 <= i <= parts@.len(),
            forall|k: int| 0 <= k < i ==> all[k] != ".."@,
            text::views(kept@) == names(all.take(i as int)),
        decreases parts.len() - i,
    {
        let part = &parts[i];
        assert(part@ == all[i as int]);
        if text::same(part.as_str(), "..") {
            assert(all.contains(".."@));
            return Err(Failure::new("invalid file path"));
        }
        assert(all.take(i as int + 1).drop_last() =~= all.take(i as int));
        if !text::is_empty(part.as_str()) && !text::same(part.as_str(), ".") {
            let ghost before = kept@;
            let name = part.as_str().to_owned();
            kept.push(name);
            proof {
                text::lemma_views_push(before, name);
            }
        }
        i += 1;
    }
    assert(all.take(all.len() as int) =~= all);
    Ok(text::join(kept.as_slice(), "/"))
}

/// The requested path below `root` on the host.
pub fn safe_host_path(root: &str, requested: &str) -> (r: Result<String, Failure>)
    ensures
        r is Ok <==> !escapes(requested@),
        r is Ok ==> r->Ok_0@ == joined(root@, confined(requested@)),
        r is Err ==> r->Err_0.message@ == "invalid file path"@,
{
    match relative(requested) {
        Ok(rel) => Ok(join_path(root, rel.as_str())),
        Err(e) => Err(e),
    }
}

/// `s` without slashes at its end.
pub open spec fn without_slashes(s: Seq<char>) -> Seq<char>
    decreases s.len(),
{
    if s.len() > 0 && s.last() == '/' {
        without_slashes(s.drop_last())
    } else {
        s
    }
}

/// A path up to the end of its last name: without slashes and steps to the current directory at its
/// end.
pub open spec fn to_last_name(s: Seq<char>) -> Seq<char>
    decreases s.len(),
{
    if s.len() > 0 && s.last() == '/' {
        to_last_name(s.drop_last())
    } else if s.len() > 1 && s.last() == '.' && s[s.len() - 2] == '/' {
        to_last_name(s.drop_last())
    } else {
        s
    }
}

/// A path up to the end of its last name.
pub fn cut_to_last_name(s: &str) -> (r: String)
    ensures
        r@ == to_last_name(s@),
{
    let cs = text::chars_of(s);
    let mut end: usize = cs.len();
    assert(cs@.subrange(0, end as int) =~= s@);
    while end > 0 && (cs[end - 1] == '/' || (end > 1 && cs[end - 1] == '.' && cs[end - 2] == '/'))
        invariant
            end <= cs@.len(),
            to_last_name(s@) == to_last_name(cs@.subrange(0, end as int)),
        decreases end,
    {
        assert(cs@.subrange(0, end as int).drop_last() =~= cs@.subrange(0, end - 1));
        end -= 1;
    }
    text::string_range(cs.as_slice(), 0, end)
}

/// `s` without slashes at its end.
pub fn trim_slashes(s: &str) -> (r: String)
    ensures
        r@ == without_slashes(s@),
{
    let cs = text::chars_of(s);
    let mut end: usize = cs.len();
    assert(cs@.subrange(0, end as int) =~= s@);
    while end > 0 && cs[end - 1] == '/'
        invariant
            end <= cs@.len(),
            without_slashes(s@) == without_slashes(cs@.subrange(0, end as int)),
        decreases end,
    {
        assert(cs@.subrange(0, end as int).drop_last() =~= cs@.subrange(0, end - 1));
        end -= 1;
    }
    text::string_range(cs.as_slice(), 0, end)
}

/// `s` without slashes at its start, of either kind where `both` says so.
pub open spec fn unled(s: Seq<char>, both: bool) -> Seq<char>
    decreases s.len(),
{
    if s.len() > 0 && (s[0] == '/' || both && s[0] == '\\') {
        unled(s.skip(1), both)
    } else {
        s
    }
}

/// `s` without slashes at its start, of either kind where `both` says so.
pub fn trim_leading_slashes(s: &str, both: bool) -> (r: String)
    ensures
        r@ == unled(s@, both),
{
    let cs = text::chars_of(s);
    let n: usize = cs.len();
    let mut start: usize = 0;
    assert(s@.skip(0) =~= s@);
    while start < n && (cs[start] == '/' || both && cs[start] == '\\')
        invariant
            n == cs@.len(),
            cs@ == s@,
            start <= n,
            unled(s@, both) == unled(s@.skip(start as int), both),
        decreases n - start,
    {
        assert(s@.skip(start as int)[0] == s@[start as int]);
        assert(s@.skip(start as int).skip(1) =~= s@.skip(start + 1));
        start += 1;
    }
    proof {
        if start < n {
            assert(s@.skip(start as int)[0] == s@[start as int]);
        }
        assert(cs@.subrange(start as int, n as int) =~= s@.skip(start as int));
    }
    text::string_range(cs.as_slice(), start, n)
}

/// The parts of a path: the root, where the path is absolute, and the names that follow.
pub open spec fn path_parts(path: Seq<char>) -> Seq<Seq<char>> {
    let pieces = text::split_on(path, '/');
    if path.len() > 0 && path[0] == '/' {
        seq!["/"@] + names(pieces)
    } else if pieces.len() > 0 && pieces[0] == "."@ {
        seq!["."@] + names(pieces)
    } else {
        names(pieces)
    }
}

/// The path with the given parts.
pub open spec fn parts_text(parts: Seq<Seq<char>>) -> Seq<char> {
    if parts.len() > 0 && parts[0] == "/"@ {
        "/"@ + text::join_with(parts.skip(1), "/"@)
    } else {
        text::join_with(parts, "/"@)
    }
}

/// The parts of a path: the root, where the path is absolute, and the names that follow.
pub fn split_path(path: &str) -> (r: Vec<String>)
    ensures
        text::views(r@) == path_parts(path@),
{
    let pieces = text::split(path, '/');
    let ghost all = text::split_on(path@, '/');
    let mut out: Vec<String> = Vec::new();
    proof {
        reveal_strlit("/");
    }
    let ghost mut head = Seq::<Seq<char>>::empty();
    assert(text::views(out@) =~= head);
    if text::starts_with(path, "/") {
        proof {
            assert(path@.subrange(0, 1)[0] == "/"@[0]);
            head = seq!["/"@];
        }
        out.push("/".to_owned());
        assert(text::views(out@) =~= head);
    } else {
        assert(path@.len() > 0 ==> path@[0] != '/') by {
            if path@.len() > 0 && path@[0] == '/' {
                assert(path@.subrange(0, 1) =~= "/"@);
            }
        }
        if pieces.len() > 0 && text::same(pieces[0].as_str(), ".") {
            assert(all[0] == pieces@[0]@);
            proof {
                head = seq!["."@];
            }
            out.push(".".to_owned());
            assert(text::views(out@) =~= head);
        } else {
            assert(pieces.len() > 0 ==> all[0] == pieces@[0]@);
        }
    }
    assert(path_parts(path@) =~= head + names(all));
    let mut i: usize = 0;
    assert(all.take(0) =~= Seq::<Seq<char>>::empty());
    assert(head + names(all.take(0)) =~= head);
    while i < pieces.len()
        invariant
            text::views(pieces@) == all,
            0 <= i <= pieces@.len(),
            text::views(out@) == head + names(all.take(i as int)),
        decreases pieces.len() - i,
    {
        let piece = &pieces[i];
        assert(piece@ == all[i as int]);
        assert(all.take(i as int + 1).drop_last() =~= all.take(i as int));
        if !text::is_empty(piece.as_str()) && !text::same(piece.as_str(), ".") {
            let ghost before = out@;
            let name = piece.as_str().to_owned();
            out.push(name);
            proof {
                text::lemma_views_push(before, name);
                assert(head + names(all.take(i as int + 1)) =~= (head + names(
                    all.take(i as int),
                )).push(all[i as int]));
            }
        }
        i += 1;
    }
    assert(all.take(all.len() as int) =~= all);
    out
}

/// The path with the first parts of the given ones.
pub fn path_of(parts: &Vec<String>, count: usize) -> (r: String)
    requires
        count <= parts@.len(),
    ensures
        r@ == parts_text(text::views(parts@).take(count as int)),
{
    let ghost all = text::views(parts@);
    if count > 0 && text::same(parts[0].as_str(), "/") {
        assert(all[0] == parts@[0]@);
        let slice = vstd::slice::slice_subrange(parts.as_slice(), 1, count);
        assert(text::views(slice@) =~= all.take(count as int).skip(1));
        let rest = text::join(slice, "/");
        text::concat2("/", rest.as_str())
    } else {
        assert(count > 0 ==> all[0] == parts@[0]@);
        let slice = vstd::slice::slice_subrange(parts.as_slice(), 0, count);
        assert(text::views(slice@) =~= all.take(count as int));
        text::join(slice, "/")
    }
}

/// A path lies below a directory, or is it.
pub open spec fn below(path: Seq<char>, dir: Seq<char>) -> bool {
    text::begins(path_parts(path), path_parts(dir))
}

/// Whether a path lies below a directory, or is it.
pub fn is_below(path: &str, dir: &str) -> (r: bool)
    ensures
        r == below(path@, dir@),
{
    let a = split_path(path);
    let b = split_path(dir);
    let ghost x = path_parts(path@);
    let ghost y = path_parts(dir@);
    if b.len() > a.len() {
        return false;
    }
    let mut i: usize = 0;
    while i < b.len()
        invariant
            text::views(a@) == x,
            text::views(b@) == y,
            x == path_parts(path@),
            y == path_parts(dir@),
            b@.len() <= a@.len(),
            0 <= i <= b@.len(),
            forall|k: int| 0 <= k < i ==> x[k] == y[k],
        decreases b.len() - i,
    {
        assert(x[i as int] == a@[i as int]@);
        assert(y[i as int] == b@[i as int]@);
        if !text::same(a[i].as_str(), b[i].as_str()) {
            proof {
                if text::begins(x, y) {
                    assert(x.subrange(0, y.len() as int)[i as int] == x[i as int]);
                }
            }
            return false;
        }
        i += 1;
    }
    assert(x.subrange(0, y.len() as int) =~= y);
    true
}

/// The directory that holds what a path names; none for the root and for a path without names.
pub open spec fn parent_of(path: Seq<char>) -> Option<Seq<char>> {
    let parts = path_parts(path);
    if parts.len() == 0 || parts == seq!["/"@] {
        None
    } else {
        Some(parts_text(parts.drop_last()))
    }
}

/// The directory that holds what a path names; none for the root and for a path without names.
pub fn parent(path: &str) -> (r: Option<String>)
    ensures
        text::opt_view(r) == parent_of(path@),
{
    let parts = split_path(path);
    let ghost all = path_parts(path@);
    let n: usize = parts.len();
    if n == 0 {
        return None;
    }
    assert(all[0] == parts@[0]@);
    if n == 1 && text::same(parts[0].as_str(), "/") {
        assert(all =~= seq!["/"@]);
        return None;
    }
    assert(all.take(n - 1) =~= all.drop_last());
    Some(path_of(&parts, n - 1))
}

/// The last name of a path; none for one that ends in a root or a step up, or has no names.
pub open spec fn file_name_of(path: Seq<char>) -> Option<Seq<char>> {
    let parts = path_parts(path);
    if parts.len() == 0 || parts.last() == "/"@ || parts.last() == ".."@ || parts.last() == "."@ {
        None
    } else {
        Some(parts.last())
    }
}

/// The last name of a path; none for one that ends in a root or a step up, or has no names.
pub fn file_name(path: &str) -> (r: Option<String>)
    ensures
        text::opt_view(r) == file_name_of(path@),
{
    let parts = split_path(path);
    let n: usize = parts.len();
    if n == 0 {
        return None;
    }
    let last = &parts[n - 1];
    assert(path_parts(path@).last() == last@);
    if text::same(last.as_str(), "/") || text::same(last.as_str(), "..") || text::same(
        last.as_str(),
        ".",
    ) {
        return None;
    }
    Some(last.as_str().to_owned())
}

/// The path inside a container of a requested path below `root`.
pub open spec fn inside(root: Seq<char>, requested: Seq<char>) -> Seq<char> {
    if confined(requested).len() == 0 {
        root
    } else {
        without_slashes(root) + "/"@ + confined(requested)
    }
}

/// The path inside a container of a requested path below `root`.
pub fn container_path(root: &str, requested: &str) -> (r: Result<String, Failure>)
    ensures
        r is Ok <==> !escapes(requested@),
        r is Ok ==> r->Ok_0@ == inside(root@, requested@),
        r is Err ==> r->Err_0.message@ == "invalid file path"@,
{
    match relative(requested) {
        Ok(rel) => if text::is_empty(rel.as_str()) {
            Ok(root.to_owned())
        } else {
            let base = trim_slashes(root);
            Ok(text::concat3(base.as_str(), "/", rel.as_str()))
        },
        Err(e) => Err(e),
    }
}

/// The environment variables that may name the data directory.
pub open spec fn is_data_key(key: Seq<char>) -> bool {
    ||| key == "AGAPORNIS_DATA_DIR"@
    ||| key == "SERVER_WORKDIR"@
    ||| key == "SERVER_DATA_DIR"@
    ||| key == "DATA_DIR"@
}

/// The data directory that one environment entry names, if it names an absolute one without
/// parent steps.
pub open spec fn named_data_dir(entry: Seq<char>) -> Option<Seq<char>> {
    match text::split_first(entry, '=') {
        Some((key, value)) => if is_data_key(key) && text::begins(value, "/"@) && !text::contains(
            value,
            ".."@,
        ) {
            Some(value)
        } else {
            None
        },
        None => None,
    }
}

/// The data directory that the first entry to name one names.
pub open spec fn first_data_dir(env: Seq<Seq<char>>) -> Option<Seq<char>>
    decreases env.len(),
{
    if env.len() == 0 {
        None
    } else {
        match named_data_dir(env[0]) {
            Some(value) => Some(value),
            None => first_data_dir(env.drop_first()),
        }
    }
}

/// An image whose servers keep their data in `/data`.
pub open spec fn is_data_image(image: Seq<char>) -> bool {
    text::contains(text::lowered(image), "itzg/"@) || text::contains(
        text::lowered(image),
        "minecraft-server"@,
    )
}

/// The directory inside the container that holds a server's data.
pub open spec fn data_dir(image: Seq<char>, env: Seq<Seq<char>>) -> Seq<char> {
    match first_data_dir(env) {
        Some(value) => value,
        None => if is_data_image(image) {
            DATA_CONTAINER_PATH@
        } else {
            HOME_CONTAINER_PATH@
        },
    }
}

/// The directory inside the container that holds a server's data.
pub fn data_path(image: &str, env: &[String]) -> (r: String)
    ensures
        r@ == data_dir(image@, text::views(env@)),
{
    let ghost all = text::views(env@);
    let mut i: usize = 0;
    assert(all.skip(0) =~= all);
    while i < env.len()
        invariant
            all == text::views(env@),
            0 <= i <= env@.len(),
            first_data_dir(all) == first_data_dir(all.skip(i as int)),
        decreases env.len() - i,
    {
        let entry = &env[i];
        assert(all.skip(i as int)[0] == entry@);
        assert(all.skip(i as int).drop_first() =~= all.skip(i + 1));
        if let Some((key, value)) = text::split_once(entry.as_str(), '=') {
            let known = text::same(key.as_str(), "AGAPORNIS_DATA_DIR") || text::same(
                key.as_str(),
                "SERVER_WORKDIR",
            ) || text::same(key.as_str(), "SERVER_DATA_DIR") || text::same(
                key.as_str(),
                "DATA_DIR",
            );
            if known && text::starts_with(value.as_str(), "/") && !text::has(value.as_str(), "..") {
                return value;
            }
        }
        i += 1;
    }
    let lower = text::to_lower(image);
    if text::has(lower.as_str(), "itzg/") || text::has(lower.as_str(), "minecraft-server") {
        DATA_CONTAINER_PATH.to_owned()
    } else {
        HOME_CONTAINER_PATH.to_owned()
    }
}

// ---------------------------------------------------------------------------------------------
// Laws.

/// The names of a path are pieces of it.
pub proof fn lemma_names(parts: Seq<Seq<char>>)
    ensures
        forall|i: int|
            0 <= i < names(parts).len() ==> is_name(#[trigger] names(parts)[i]) && parts.contains(
                names(parts)[i],
            ),
    decreases parts.len(),
{
    if parts.len() > 0 {
        let front = parts.drop_last();
        lemma_names(front);
        assert forall|i: int| 0 <= i < names(parts).len() implies is_name(
            #[trigger] names(parts)[i],
        ) && parts.contains(names(parts)[i]) by {
            if i < names(front).len() {
                assert(names(parts)[i] == names(front)[i]);
                let k = choose|k: int| 0 <= k < front.len() && front[k] == names(front)[i];
                assert(parts[k] == names(front)[i]);
            } else {
                assert(parts[parts.len() - 1] == names(parts)[i]);
            }
        }
    }
}

/// A list of names is its own list of names.
pub proof fn lemma_names_of_names(parts: Seq<Seq<char>>)
    requires
        forall|i: int| 0 <= i < parts.len() ==> is_name(#[trigger] parts[i]),
    ensures
        names(parts) == parts,
    decreases parts.len(),
{
    if parts.len() > 0 {
        let front = parts.drop_last();
        assert forall|i: int| 0 <= i < front.len() implies is_name(#[trigger] front[i]) by {
            assert(is_name(parts[i]));
        }
        lemma_names_of_names(front);
        assert(is_name(parts[parts.len() - 1]));
        assert(front.push(parts.last()) =~= parts);
    }
}

/// The characters of a join come from the parts and the separator.
pub proof fn lemma_join_characters(parts: Seq<Seq<char>>, sep: Seq<char>, c: char)
    requires
        !sep.contains(c),
        forall|i: int| 0 <= i < parts.len() ==> !(#[trigger] parts[i]).contains(c),
    ensures
        !text::join_with(parts, sep).contains(c),
    decreases parts.len(),
{
    if parts.len() == 1 {
        assert(!parts[0].contains(c));
    } else if parts.len() > 1 {
        let front = parts.drop_last();
        assert forall|i: int| 0 <= i < front.len() implies !(#[trigger] front[i]).contains(c) by {
            assert(!parts[i].contains(c));
        }
        lemma_join_characters(front, sep, c);
        assert(!parts[parts.len() - 1].contains(c));
        let whole = text::join_with(parts, sep);
        let head = text::join_with(front, sep);
        assert forall|k: int| 0 <= k < whole.len() implies whole[k] != c by {
            if k < head.len() {
                assert(whole[k] == head[k]);
            } else if k < head.len() + sep.len() {
                assert(whole[k] == sep[k - head.len()]);
            } else {
                assert(whole[k] == parts.last()[k - head.len() - sep.len()]);
            }
        }
    }
}

/// A path that was accepted consists of plain names: read again as a path it has no parent step,
/// no empty piece and no current directory, unless it is empty as a whole, and it holds no
/// backslash. Accepting it again changes nothing.
pub proof fn law_relative_is_confined(requested: Seq<char>)
    requires
        !escapes(requested),
    ensures
        confined(requested).len() > 0 ==> components(confined(requested)) == names(
            components(requested),
        ),
        forall|i: int|
            0 <= i < names(components(requested)).len() ==> {
                let part = #[trigger] names(components(requested))[i];
                is_name(part) && part != ".."@ && !part.contains('/') && !part.contains('\\')
            },
        !confined(requested).contains('\\'),
        !escapes(confined(requested)),
        confined(confined(requested)) == confined(requested),
        confined(requested).len() > 0 ==> confined(requested)[0] != '/',
{
    reveal_strlit("/");
    reveal_strlit(".");
    reveal_strlit("..");
    assert("/"@ =~= seq!['/']);
    let flat = text::swapped(requested, '\\', '/');
    let parts = components(requested);
    let kept = names(parts);
    let out = confined(requested);
    lemma_names(parts);
    text::lemma_split_pieces(flat, '/');
    assert forall|i: int| 0 <= i < kept.len() implies {
        let part = #[trigger] kept[i];
        is_name(part) && part != ".."@ && !part.contains('/') && !part.contains('\\')
    } by {
        let part = kept[i];
        let j = choose|j: int| 0 <= j < parts.len() && parts[j] == part;
        assert(!parts[j].contains('/'));
        if part.contains('\\') {
            let k = choose|k: int| 0 <= k < part.len() && part[k] == '\\';
            assert(flat.contains(parts[j][k]));
            let m = choose|m: int| 0 <= m < flat.len() && flat[m] == '\\';
            assert(flat[m] != '\\');
        }
    }
    assert forall|i: int| 0 <= i < kept.len() implies !(#[trigger] kept[i]).contains('\\') by {}
    lemma_join_characters(kept, "/"@, '\\');
    assert(text::swapped(out, '\\', '/') =~= out) by {
        assert forall|k: int| 0 <= k < out.len() implies out[k] != '\\' by {
            assert(out.contains(out[k]));
        }
    }
    if kept.len() > 0 {
        assert forall|i: int| 0 <= i < kept.len() implies !(#[trigger] kept[i]).contains('/') by {}
        text::lemma_split_of_join(kept, '/');
        assert(components(out) == kept);
        assert forall|i: int| 0 <= i < kept.len() implies is_name(#[trigger] kept[i]) by {}
        lemma_names_of_names(kept);
        if out.len() > 0 && out[0] == '/' {
            text::lemma_index_of(out, '/');
            assert(text::index_of(out, '/') == 0);
            assert(kept[0] == out.take(0));
            assert(is_name(kept[0]));
        }
    } else {
        assert(out.len() == 0);
        assert(text::split_on(out, '/') =~= seq![out]);
        assert(names(seq![out]) =~= Seq::<Seq<char>>::empty()) by {
            reveal_with_fuel(names, 2);
            assert(seq![out].drop_last() =~= Seq::<Seq<char>>::empty());
        }
        assert(!seq![out].contains(".."@));
    }
}

/// The parts of a path that was accepted are its names.
pub proof fn lemma_confined_parts(requested: Seq<char>)
    requires
        !escapes(requested),
        confined(requested).len() > 0,
    ensures
        path_parts(confined(requested)) == names(components(requested)),
        names(components(requested)).len() > 0,
        file_name_of(confined(requested)) is Some,
{
    reveal_strlit("/");
    reveal_strlit(".");
    law_relative_is_confined(requested);
    let out = confined(requested);
    let kept = names(components(requested));
    assert(text::swapped(out, '\\', '/') =~= out) by {
        assert forall|k: int| 0 <= k < out.len() implies out[k] != '\\' by {
            assert(out.contains(out[k]));
        }
    }
    assert(text::split_on(out, '/') == kept);
    assert forall|i: int| 0 <= i < kept.len() implies is_name(#[trigger] kept[i]) by {}
    lemma_names_of_names(kept);
    assert(kept.len() > 0);
    assert(is_name(kept[0]));
    let last = kept[kept.len() - 1];
    assert(is_name(last) && last != ".."@ && !last.contains('/'));
    if last == "/"@ {
        assert(last[0] == '/');
    }
}

/// A host path that was granted lies below its root: it begins with the root, and what follows,
/// less the separating slash, is the confined path.
pub proof fn law_safe_host_path_below_root(root: Seq<char>, requested: Seq<char>)
    requires
        !escapes(requested),
    ensures
        text::begins(joined(root, confined(requested)), root),
        text::ends(joined(root, confined(requested)), confined(requested)),
        joined(root, confined(requested)).len() <= root.len() + 1 + confined(requested).len(),
{
    reveal_strlit("/");
    let out = joined(root, confined(requested));
    assert(out.subrange(0, root.len() as int) =~= root);
    let from = out.len() - confined(requested).len();
    assert(out.subrange(from, from + confined(requested).len()) =~= confined(requested));
}

/// Distinct valid identifiers have distinct directories.
pub proof fn law_server_dirs_are_distinct(base: Seq<char>, a: Seq<char>, b: Seq<char>)
    requires
        valid_id(a),
        valid_id(b),
        joined(base, a) == joined(base, b),
    ensures
        a == b,
{
    reveal_strlit("/");
    let out = joined(base, a);
    assert(a =~= out.skip(out.len() - a.len()));
    assert(b =~= out.skip(out.len() - b.len()));
    assert(a.len() == b.len());
}

/// A valid identifier passes through path confinement unchanged: it names one entry.
pub proof fn law_valid_id_is_one_name(id: Seq<char>)
    requires
        valid_id(id),
    ensures
        !escapes(id),
        confined(id) == id,
        components(id) == seq![id],
{
    assert(text::swapped(id, '\\', '/') =~= id) by {
        assert forall|k: int| 0 <= k < id.len() implies id[k] != '\\' by {
            assert(id.contains(id[k]));
        }
    }
    text::lemma_index_of(id, '/');
    assert(components(id) =~= seq![id]);
    assert(seq![id].drop_last() =~= Seq::<Seq<char>>::empty());
    reveal_with_fuel(names, 2);
    assert(names(seq![id]) =~= seq![id]);
    if seq![id].contains(".."@) {
        assert(seq![id][0] == ".."@);
    }
}

proof fn lemma_names_joined(a: Seq<Seq<char>>, b: Seq<Seq<char>>)
    ensures
        names(a + b) == names(a) + names(b),
    decreases b.len(),
{
    let all = a + b;
    if b.len() == 0 {
        assert(all =~= a);
        assert(names(a) + names(b) =~= names(a));
    } else {
        assert(all.drop_last() =~= a + b.drop_last());
        assert(all.last() == b.last());
        lemma_names_joined(a, b.drop_last());
        assert(names(all) =~= names(a) + names(b));
    }
}

proof fn lemma_one_name(part: Seq<char>)
    ensures
        names(seq![part]) == if is_name(part) {
            seq![part]
        } else {
            Seq::<Seq<char>>::empty()
        },
{
    let one = seq![part];
    assert(one.drop_last() =~= Seq::<Seq<char>>::empty());
    assert(names(one.drop_last()) =~= Seq::<Seq<char>>::empty());
    assert(names(one) =~= if is_name(part) {
        seq![part]
    } else {
        Seq::<Seq<char>>::empty()
    });
}

proof fn lemma_piece(part: Seq<char>)
    requires
        !part.contains('/'),
    ensures
        text::split_on(part, '/') == seq![part],
{
    assert forall|k: int| 0 <= k < part.len() implies part[k] != '/' by {
        assert(part.contains(part[k]));
    }
    text::lemma_index_of_unique(part, '/', part.len() as int);
}

/// A requested path is taken name by name: a step to a parent anywhere refuses it, a backslash is as
/// good as a slash, and slashes at the start, empty names and steps to the current directory do not
/// count. What is left are exactly the names, with slashes between them.
pub proof fn law_requested_paths_are_taken_by_name(name: Seq<char>, rest: Seq<char>)
    requires
        !name.contains('/'),
        !name.contains('\\'),
    ensures
        escapes(name + "/"@ + rest) <==> name == ".."@ || escapes(rest),
        escapes(name + "\\"@ + rest) <==> name == ".."@ || escapes(rest),
        escapes(name) <==> name == ".."@,
        confined("/"@ + rest) == confined(rest),
        confined("\\"@ + rest) == confined(rest),
        confined("./"@ + rest) == confined(rest),
        confined(name) == if name.len() > 0 && name != "."@ {
            name
        } else {
            Seq::empty()
        },
        name.len() > 0 && name != "."@ ==> confined(name + "/"@ + rest) == name + if confined(
            rest,
        ).len() > 0 {
            "/"@ + confined(rest)
        } else {
            Seq::empty()
        },
        confined(name + "\\"@ + rest) == confined(name + "/"@ + rest),
{
    reveal_strlit("/");
    reveal_strlit("\\");
    reveal_strlit("./");
    reveal_strlit(".");
    reveal_strlit("..");
    let none = Seq::<char>::empty();
    lemma_components(name, rest);
    lemma_components(none, rest);
    lemma_components("."@, rest);
    assert(none + "/"@ + rest =~= "/"@ + rest);
    assert(none + "\\"@ + rest =~= "\\"@ + rest);
    assert("."@ + "/"@ + rest =~= "./"@ + rest);
    let more = components(rest);
    lemma_names_joined(seq![name], more);
    lemma_names_joined(seq![none], more);
    lemma_names_joined(seq!["."@], more);
    lemma_one_name(name);
    lemma_one_name(none);
    lemma_one_name("."@);
    assert(Seq::<Seq<char>>::empty() + names(more) =~= names(more));
    let kept = names(more);
    lemma_names(more);
    if is_name(name) {
        assert(names(seq![name] + more) == seq![name] + kept);
        lemma_join_from(name, kept);
        if kept.len() > 0 {
            lemma_joined_not_empty(kept);
        }
    }
    let all = seq![name] + more;
    if all.contains(".."@) {
        let k = choose|k: int| 0 <= k < all.len() && all[k] == ".."@;
        if k > 0 {
            assert(more[k - 1] == ".."@);
        }
    }
    if more.contains(".."@) {
        let k = choose|k: int| 0 <= k < more.len() && more[k] == ".."@;
        assert(all[k + 1] == ".."@);
    }
    if name == ".."@ {
        assert(all[0] == ".."@);
    }
    assert(seq![name].contains(".."@) <==> name == ".."@) by {
        if name == ".."@ {
            assert(seq![name][0] == ".."@);
        }
    }
}

proof fn lemma_components(name: Seq<char>, rest: Seq<char>)
    requires
        !name.contains('/'),
        !name.contains('\\'),
    ensures
        components(name) == seq![name],
        components(name + "/"@ + rest) == seq![name] + components(rest),
        components(name + "\\"@ + rest) == seq![name] + components(rest),
{
    reveal_strlit("/");
    reveal_strlit("\\");
    assert forall|k: int| 0 <= k < name.len() implies name[k] != '\\' by {
        assert(name.contains(name[k]));
    }
    let flat = text::swapped(rest, '\\', '/');
    assert(text::swapped(name, '\\', '/') =~= name);
    assert(text::swapped(name + "/"@ + rest, '\\', '/') =~= name.push('/') + flat);
    assert(text::swapped(name + "\\"@ + rest, '\\', '/') =~= name.push('/') + flat);
    lemma_piece(name);
    text::law_pieces_of_joined_text(name, '/', flat);
}

proof fn lemma_join_from(first: Seq<char>, rest: Seq<Seq<char>>)
    ensures
        text::join_with(seq![first] + rest, "/"@) == if rest.len() > 0 {
            first + "/"@ + text::join_with(rest, "/"@)
        } else {
            first
        },
    decreases rest.len(),
{
    let all = seq![first] + rest;
    let sep = "/"@;
    if rest.len() == 0 {
        assert(all =~= seq![first]);
    } else if rest.len() == 1 {
        assert(all.drop_last() =~= seq![first]);
        assert(text::join_with(seq![first], sep) == first);
    } else {
        assert(all.drop_last() =~= seq![first] + rest.drop_last());
        lemma_join_from(first, rest.drop_last());
        assert(all.last() == rest.last());
        assert(text::join_with(all, sep) =~= first + sep + text::join_with(rest, sep));
    }
}

proof fn lemma_joined_not_empty(parts: Seq<Seq<char>>)
    requires
        parts.len() > 0,
        forall|i: int| 0 <= i < parts.len() ==> is_name(#[trigger] parts[i]),
    ensures
        text::join_with(parts, "/"@).len() > 0,
{
    reveal_strlit("/");
    assert(is_name(parts[0]));
}

/// A name below a directory stands behind exactly one slash.
pub proof fn law_names_stand_behind_one_slash(dir: Seq<char>, name: Seq<char>)
    requires
        dir.len() > 0,
        dir.last() != '/',
    ensures
        joined(dir, name) == dir + "/"@ + name,
        joined(dir + "/"@, name) == dir + "/"@ + name,
        joined(Seq::empty(), name) == name,
        inside(dir, name) == if confined(name).len() > 0 {
            dir + "/"@ + confined(name)
        } else {
            dir
        },
        inside(dir + "/"@, name) == if confined(name).len() > 0 {
            dir + "/"@ + confined(name)
        } else {
            dir + "/"@
        },
        without_slashes(dir + "/"@) == dir,
        without_slashes(dir) == dir,
{
    reveal_strlit("/");
    let slashed = dir + "/"@;
    assert(slashed.last() == '/');
    assert(slashed.drop_last() =~= dir);
}

/// What lies directly in a directory has its own name and that directory as the one that holds it,
/// and lies below it.
pub proof fn law_entries_lie_in_their_directory(dir: Seq<char>, name: Seq<char>)
    requires
        dir.len() > 0,
        name.len() > 0,
        !name.contains('/'),
        name != "."@,
        name != ".."@,
    ensures
        file_name_of(dir + "/"@ + name) == Some(name),
        parent_of(dir + "/"@ + name) == Some(parts_text(path_parts(dir))),
        below(dir + "/"@ + name, dir),
        below(dir, dir),
        path_parts(dir + "/"@ + name) == path_parts(dir).push(name),
{
    reveal_strlit("/");
    let path = dir + "/"@ + name;
    assert(path =~= dir.push('/') + name);
    text::law_pieces_of_joined_text(dir, '/', name);
    lemma_piece(name);
    let a = text::split_on(dir, '/');
    lemma_names_joined(a, seq![name]);
    lemma_one_name(name);
    assert(path[0] == dir[0]);
    text::law_pieces_join_back(dir, '/');
    let parts = path_parts(path);
    let pieces = text::split_on(path, '/');
    assert(pieces[0] == a[0]);
    assert(parts =~= path_parts(dir).push(name));
    assert(parts.drop_last() =~= path_parts(dir));
    assert(parts.last() == name);
    assert(name != "/"@) by {
        if name == "/"@ {
            assert(name[0] == '/');
            assert(name.contains(name[0]));
        }
    }
    assert(parts != seq!["/"@]) by {
        if parts == seq!["/"@] {
            assert(parts.last() == "/"@);
        }
    }
    assert(parts.subrange(0, path_parts(dir).len() as int) =~= path_parts(dir));
    assert(path_parts(dir).subrange(0, path_parts(dir).len() as int) =~= path_parts(dir));
}

/// What lies below a directory that lies below another lies below that one; and two paths that lie
/// below each other have the same names.
pub proof fn law_below_is_an_order(a: Seq<char>, b: Seq<char>, c: Seq<char>)
    ensures
        below(a, b) && below(b, c) ==> below(a, c),
        below(a, b) && below(b, a) ==> path_parts(a) == path_parts(b),
        below(a, b) ==> path_parts(a).len() >= path_parts(b).len() && forall|i: int|
            0 <= i < path_parts(b).len() ==> path_parts(a)[i] == path_parts(b)[i],
{
    let x = path_parts(a);
    let y = path_parts(b);
    let z = path_parts(c);
    if below(a, b) {
        assert forall|i: int| 0 <= i < y.len() implies x[i] == y[i] by {
            assert(x.subrange(0, y.len() as int)[i] == x[i]);
        }
        if below(b, c) {
            assert(x.subrange(0, z.len() as int) =~= y.subrange(0, z.len() as int));
        }
        if below(b, a) {
            assert(x =~= y);
        }
    }
}

/// The data of a server lies where the first entry of its environment says that names an absolute
/// directory without a step up, under one of the four usual names; else where its image keeps it.
pub proof fn law_data_lies_where_the_environment_says(
    image: Seq<char>,
    env: Seq<Seq<char>>,
    key: Seq<char>,
    value: Seq<char>,
)
    requires
        !key.contains('='),
    ensures
        ({
            let entry = key + "="@ + value;
            let usual = key == "AGAPORNIS_DATA_DIR"@ || key == "SERVER_WORKDIR"@ || key
                == "SERVER_DATA_DIR"@ || key == "DATA_DIR"@;
            let good = value.len() > 0 && value[0] == '/' && !text::contains(value, ".."@);
            &&& usual && good ==> data_dir(image, seq![entry] + env) == value
            &&& !(usual && good) ==> data_dir(image, seq![entry] + env) == data_dir(image, env)
        }),
        data_dir(image, Seq::empty()) == "/data"@ || data_dir(image, Seq::empty())
            == "/home/container"@,
        data_dir(image, Seq::empty()) == "/data"@ <==> text::contains(
            text::lowered(image),
            "itzg/"@,
        ) || text::contains(text::lowered(image), "minecraft-server"@),
{
    reveal_strlit("=");
    reveal_strlit("/");
    reveal_strlit("/data");
    reveal_strlit("/home/container");
    assert(DATA_CONTAINER_PATH@ == "/data"@);
    assert(HOME_CONTAINER_PATH@ == "/home/container"@);
    assert("/data"@.len() != "/home/container"@.len());
    let entry = key + "="@ + value;
    let n = key.len() as int;
    assert forall|k: int| 0 <= k < n implies key[k] != '=' by {
        assert(key.contains(key[k]));
    }
    assert(entry[n] == '=');
    text::lemma_index_of_unique(entry, '=', n);
    assert(entry.take(n) =~= key);
    assert(entry.skip(n + 1) =~= value);
    let all = seq![entry] + env;
    assert(all[0] == entry);
    assert(all.drop_first() =~= env);
    if value.len() > 0 {
        assert(value.subrange(0, 1)[0] == value[0]);
        if value[0] == '/' {
            assert(value.subrange(0, 1) =~= "/"@);
        }
    }
}

/// Below a directory of Windows a name stands behind one separator, whichever is there.
pub proof fn law_windows_names_stand_behind_one_separator(dir: Seq<char>, name: Seq<char>)
    requires
        dir.len() > 2,
        dir[0] != '\\',
        dir.last() != '\\',
        dir.last() != '/',
    ensures
        windows_joined(dir, name) == dir + "\\"@ + name,
        windows_joined(dir + "\\"@, name) == dir + "\\"@ + name,
        windows_joined(dir + "/"@, name) == dir + "/"@ + name,
        windows_joined(Seq::empty(), name) == name,
{
    reveal_strlit("\\");
    reveal_strlit("/");
    reveal_strlit("\\\\?\\");
    assert forall|s: Seq<char>| s.len() == 0 || s[0] != '\\' implies !(#[trigger] text::begins(
        s,
        "\\\\?\\"@,
    )) by {
        if text::begins(s, "\\\\?\\"@) {
            assert(s.subrange(0, 4)[0] == s[0]);
        }
    }
    let none = Seq::<char>::empty();
    assert(none + name =~= name);
    assert((dir + "\\"@)[0] == dir[0]);
    assert((dir + "/"@)[0] == dir[0]);
}

/// A requested path loses the slashes at its start, and of the other kind where both count.
pub proof fn law_leading_slashes_go(s: Seq<char>, both: bool)
    ensures
        unled("/"@ + s, both) == unled(s, both),
        unled("\\"@ + s, true) == unled(s, true),
        unled("\\"@ + s, false) == "\\"@ + s,
        s.len() > 0 && s[0] != '/' && s[0] != '\\' ==> unled(s, both) == s,
{
    reveal_strlit("/");
    reveal_strlit("\\");
    assert(("/"@ + s).skip(1) =~= s);
    assert(("\\"@ + s).skip(1) =~= s);
}

} // verus!
