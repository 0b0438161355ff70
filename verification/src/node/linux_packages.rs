//! Updates of the node's packages, with commands that are fixed.

use crate::error::Failure;
use crate::process::{lossy, lossy_text};
use crate::text;
use vstd::prelude::*;

verus! {

pub const APT: &'static str = "/usr/bin/apt-get";

pub const PACMAN: &'static str = "/usr/bin/pacman";

pub const CHECKUPDATES: &'static str = "/usr/bin/checkupdates";

pub const DNF: &'static str = "/usr/bin/dnf";

pub const APK: &'static str = "/sbin/apk";

pub const SUDO: &'static str = "/usr/bin/sudo";

/// The most packages that are reported.
pub const MAX_PACKAGES: usize = 2_000;

/// A package that can be updated.
pub struct PackageUpgrade {
    pub name: String,
    pub current: String,
    pub candidate: String,
}

/// A package that can be updated, by its contents.
#[verifier::ext_equal]
pub ghost struct PackageView {
    pub name: Seq<char>,
    pub current: Seq<char>,
    pub candidate: Seq<char>,
}

impl View for PackageUpgrade {
    type V = PackageView;

    open spec fn view(&self) -> PackageView {
        PackageView { name: self.name@, current: self.current@, candidate: self.candidate@ }
    }
}

/// Packages by their contents.
pub open spec fn packages_view(packages: Seq<PackageUpgrade>) -> Seq<PackageView> {
    packages.map_values(|p: PackageUpgrade| p@)
}

/// An optional package by its contents.
pub open spec fn package_opt(o: Option<PackageUpgrade>) -> Option<PackageView> {
    match o {
        Some(p) => Some(p@),
        None => None,
    }
}

/// What came of looking for updates, or of installing them.
pub struct LinuxUpdateResult {
    pub message: String,
    pub packages: Vec<PackageUpgrade>,
    pub reboot_required: bool,
    pub distribution: String,
    pub manager: &'static str,
    pub preview_command: &'static str,
    pub apply_command: &'static str,
}

/// A package manager.
#[derive(Clone, Copy, Debug, PartialEq, Eq, Structural)]
pub enum Manager {
    Apt,
    Pacman,
    Dnf,
    Apk,
}

/// The system that the node runs.
pub struct Platform {
    pub distribution: String,
    pub manager: Manager,
}

/// A command that is run.
pub struct FixedCommand {
    pub program: &'static str,
    pub arguments: Vec<String>,
    /// The exit codes with which it succeeds.
    pub success: Vec<i32>,
    /// Whether it needs the rights of root.
    pub root: bool,
}

impl Manager {
    pub open spec fn name_of(self) -> Seq<char> {
        match self {
            Manager::Apt => "apt"@,
            Manager::Pacman => "pacman"@,
            Manager::Dnf => "dnf"@,
            Manager::Apk => "apk"@,
        }
    }

    /// The name of the package manager.
    pub fn name(self) -> (r: &'static str)
        ensures
            r@ == self.name_of(),
    {
        match self {
            Manager::Apt => "apt",
            Manager::Pacman => "pacman",
            Manager::Dnf => "dnf",
            Manager::Apk => "apk",
        }
    }

    pub open spec fn preview_text(self) -> Seq<char> {
        match self {
            Manager::Apt =>
                "sudo /usr/bin/apt-get update && sudo /usr/bin/apt-get --simulate upgrade"@,
            Manager::Pacman => "/usr/bin/checkupdates --nocolor"@,
            Manager::Dnf => "sudo /usr/bin/dnf -q --refresh check-upgrade"@,
            Manager::Apk => "sudo /sbin/apk update && sudo /sbin/apk --simulate upgrade"@,
        }
    }

    /// What looks for updates, in words.
    pub fn preview_command(self) -> (r: &'static str)
        ensures
            r@ == self.preview_text(),
    {
        match self {
            Manager::Apt =>
                "sudo /usr/bin/apt-get update && sudo /usr/bin/apt-get --simulate upgrade",
            Manager::Pacman => "/usr/bin/checkupdates --nocolor",
            Manager::Dnf => "sudo /usr/bin/dnf -q --refresh check-upgrade",
            Manager::Apk => "sudo /sbin/apk update && sudo /sbin/apk --simulate upgrade",
        }
    }

    pub open spec fn apply_text(self) -> Seq<char> {
        match self {
            Manager::Apt => "sudo /usr/bin/apt-get update && sudo /usr/bin/apt-get -y upgrade"@,
            Manager::Pacman => "sudo /usr/bin/pacman -Syu --noconfirm --noprogressbar"@,
            Manager::Dnf => "sudo /usr/bin/dnf -y --refresh upgrade"@,
            Manager::Apk => "sudo /sbin/apk update && sudo /sbin/apk upgrade"@,
        }
    }

    /// What installs updates, in words.
    pub fn apply_command(self) -> (r: &'static str)
        ensures
            r@ == self.apply_text(),
    {
        match self {
            Manager::Apt => "sudo /usr/bin/apt-get update && sudo /usr/bin/apt-get -y upgrade",
            Manager::Pacman => "sudo /usr/bin/pacman -Syu --noconfirm --noprogressbar",
            Manager::Dnf => "sudo /usr/bin/dnf -y --refresh upgrade",
            Manager::Apk => "sudo /sbin/apk update && sudo /sbin/apk upgrade",
        }
    }

    /// The command that brings the lists of packages up to date before updates are looked for, if
    /// the package manager has one.
    pub fn refresh_step(self) -> (r: Option<FixedCommand>)
        ensures
            r is Some <==> self == Manager::Apt || self == Manager::Apk,
            r is Some ==> {
                &&& r->0.program@ == if self == Manager::Apt {
                    APT@
                } else {
                    APK@
                }
                &&& text::views(r->0.arguments@) == seq!["update"@]
                &&& r->0.success@ == seq![0i32]
                &&& r->0.root
            },
    {
        let arguments: Vec<String> = vec!["update".to_owned()];
        assert(text::views(arguments@) =~= seq!["update"@]);
        let success: Vec<i32> = vec![0i32];
        assert(success@ =~= seq![0i32]);
        match self {
            Manager::Apt => Some(FixedCommand { program: APT, arguments, success, root: true }),
            Manager::Apk => Some(FixedCommand { program: APK, arguments, success, root: true }),
            _ => None,
        }
    }

    pub open spec fn preview_words(self) -> Seq<Seq<char>> {
        match self {
            Manager::Apt => seq!["--simulate"@, "upgrade"@],
            Manager::Pacman => seq!["--nocolor"@],
            Manager::Dnf => seq!["-q"@, "--refresh"@, "check-upgrade"@],
            Manager::Apk => seq!["--simulate"@, "upgrade"@],
        }
    }

    /// The command whose output says which packages can be updated. On Arch it comes from a
    /// package of its own.
    pub fn preview_step(self, has_checkupdates: bool) -> (r: Result<FixedCommand, Failure>)
        ensures
            r is Ok <==> self != Manager::Pacman || has_checkupdates,
            r is Ok ==> {
                let c = r->Ok_0;
                &&& c.program@ == match self {
                    Manager::Apt => APT@,
                    Manager::Pacman => CHECKUPDATES@,
                    Manager::Dnf => DNF@,
                    Manager::Apk => APK@,
                }
                &&& text::views(c.arguments@) == self.preview_words()
                &&& c.success@ == match self {
                    Manager::Pacman => seq![0i32, 2i32],
                    Manager::Dnf => seq![0i32, 100i32],
                    _ => seq![0i32],
                }
                &&& c.root == (self != Manager::Pacman)
            },
            r is Err ==> r->Err_0.message@
                == "Arch previews require pacman-contrib (missing /usr/bin/checkupdates)"@,
    {
        let ghost words = self.preview_words();
        match self {
            Manager::Apt => {
                let arguments = text::owned(vec!["--simulate", "upgrade"]);
                assert(text::views(arguments@) =~= words);
                let success: Vec<i32> = vec![0i32];
                assert(success@ =~= seq![0i32]);
                Ok(FixedCommand { program: APT, arguments, success, root: true })
            },
            Manager::Pacman => {
                if !has_checkupdates {
                    return Err(
                        Failure::new(
                            "Arch previews require pacman-contrib (missing /usr/bin/checkupdates)",
                        ),
                    );
                }
                let arguments = text::owned(vec!["--nocolor"]);
                assert(text::views(arguments@) =~= words);
                let success: Vec<i32> = vec![0i32, 2i32];
                assert(success@ =~= seq![0i32, 2i32]);
                Ok(FixedCommand { program: CHECKUPDATES, arguments, success, root: false })
            },
            Manager::Dnf => {
                let arguments = text::owned(vec!["-q", "--refresh", "check-upgrade"]);
                assert(text::views(arguments@) =~= words);
                let success: Vec<i32> = vec![0i32, 100i32];
                assert(success@ =~= seq![0i32, 100i32]);
                Ok(FixedCommand { program: DNF, arguments, success, root: true })
            },
            Manager::Apk => {
                let arguments = text::owned(vec!["--simulate", "upgrade"]);
                assert(text::views(arguments@) =~= words);
                let success: Vec<i32> = vec![0i32];
                assert(success@ =~= seq![0i32]);
                Ok(FixedCommand { program: APK, arguments, success, root: true })
            },
        }
    }

    pub open spec fn apply_words(self) -> Seq<Seq<char>> {
        match self {
            Manager::Apt => seq!["-y"@, "upgrade"@],
            Manager::Pacman => seq!["-Syu"@, "--noconfirm"@, "--noprogressbar"@],
            Manager::Dnf => seq!["-y"@, "--refresh"@, "upgrade"@],
            Manager::Apk => seq!["upgrade"@],
        }
    }

    /// The command that installs updates.
    pub fn apply_step(self) -> (r: FixedCommand)
        ensures
            r.program@ == match self {
                Manager::Apt => APT@,
                Manager::Pacman => PACMAN@,
                Manager::Dnf => DNF@,
                Manager::Apk => APK@,
            },
            text::views(r.arguments@) == self.apply_words(),
            r.success@ == seq![0i32],
            r.root,
    {
        let ghost words = self.apply_words();
        let success: Vec<i32> = vec![0i32];
        assert(success@ =~= seq![0i32]);
        match self {
            Manager::Apt => {
                let arguments = text::owned(vec!["-y", "upgrade"]);
                assert(text::views(arguments@) =~= words);
                FixedCommand { program: APT, arguments, success, root: true }
            },
            Manager::Pacman => {
                let arguments = text::owned(vec!["-Syu", "--noconfirm", "--noprogressbar"]);
                assert(text::views(arguments@) =~= words);
                FixedCommand { program: PACMAN, arguments, success, root: true }
            },
            Manager::Dnf => {
                let arguments = text::owned(vec!["-y", "--refresh", "upgrade"]);
                assert(text::views(arguments@) =~= words);
                FixedCommand { program: DNF, arguments, success, root: true }
            },
            Manager::Apk => {
                let arguments = text::owned(vec!["upgrade"]);
                assert(text::views(arguments@) =~= words);
                FixedCommand { program: APK, arguments, success, root: true }
            },
        }
    }

    /// The packages that the output of the package manager says can be updated.
    pub open spec fn packages_in(self, output: Seq<char>) -> Seq<PackageView> {
        collected(self, text::lines_of(output))
    }

    /// The packages that the output of the package manager says can be updated.
    pub fn parse(self, output: &str) -> (r: Vec<PackageUpgrade>)
        ensures
            packages_view(r@) == self.packages_in(output@),
    {
        match self {
            Manager::Apt => parse_apt(output),
            Manager::Pacman => parse_pacman(output),
            Manager::Dnf => parse_dnf(output),
            Manager::Apk => parse_apk(output),
        }
    }
}

/// How a command is run: with `sudo` in front where it needs rights that the agent does not have.
pub fn command_line(command: &FixedCommand, sudo: bool) -> (r: (String, Vec<String>))
    ensures
        r.0@ == if command.root && sudo {
            SUDO@
        } else {
            command.program@
        },
        text::views(r.1@) == if command.root && sudo {
            seq!["-n"@, command.program@] + text::views(command.arguments@)
        } else {
            text::views(command.arguments@)
        },
{
    let mut rest = text::copy_list(&command.arguments);
    if command.root && sudo {
        let ghost b = rest@;
        let mut all = text::owned(vec!["-n", command.program]);
        let ghost a = all@;
        assert(text::views(a) =~= seq!["-n"@, command.program@]);
        all.append(&mut rest);
        assert(text::views(all@) =~= text::views(a) + text::views(b));
        (SUDO.to_owned(), all)
    } else {
        (command.program.to_owned(), rest)
    }
}

fn has_code(codes: &Vec<i32>, code: i32) -> (r: bool)
    ensures
        r == codes@.contains(code),
{
    let mut i: usize = 0;
    while i < codes.len()
        invariant
            0 <= i <= codes@.len(),
            forall|k: int| 0 <= k < i ==> codes@[k] != code,
        decreases codes.len() - i,
    {
        if codes[i] == code {
            return true;
        }
        i += 1;
    }
    false
}

/// What a command printed. One that failed is refused with what it said.
pub fn command_outcome(
    command: &FixedCommand,
    code: Option<i32>,
    stdout: &[u8],
    stderr: &[u8],
) -> (r: Result<String, Failure>)
    ensures
        ({
            let n = match code {
                Some(n) => n,
                None => -1i32,
            };
            &&& r is Ok <==> command.success@.contains(n)
            &&& r is Ok ==> r->Ok_0@ == lossy(stdout@)
            &&& r is Err ==> r->Err_0.message@ == (match crate::paths::file_name_of(
                command.program@,
            ) {
                Some(name) => name,
                None => Seq::empty(),
            }) + " failed: "@ + text::shortened(text::trimmed(lossy(stderr@)), 4096)
        }),
{
    let n: i32 = match code {
        Some(n) => n,
        None => -1,
    };
    if has_code(&command.success, n) {
        return Ok(lossy_text(stdout));
    }
    let said = lossy_text(stderr);
    let said = text::trim(said.as_str());
    let said = text::shorten(said.as_str(), 4096);
    let name = match crate::paths::file_name(command.program) {
        Some(name) => name,
        None => String::new(),
    };
    Err(Failure { message: text::concat3(name.as_str(), " failed: ", said.as_str()) })
}

/// Installing the package changes what the node boots.
pub open spec fn reboots(name: Seq<char>) -> bool {
    name == "linux"@ || text::begins(name, "linux-"@) || name == "kernel"@ || text::begins(
        name,
        "kernel."@,
    )
}

/// Whether installing the package changes what the node boots.
pub fn reboots_host(package: &PackageUpgrade) -> (r: bool)
    ensures
        r == reboots(package.name@),
{
    let name = package.name.as_str();
    text::same(name, "linux") || text::starts_with(name, "linux-") || text::same(name, "kernel")
        || text::starts_with(name, "kernel.")
}

fn any_reboots(packages: &Vec<PackageUpgrade>) -> (r: bool)
    ensures
        r == exists|i: int| 0 <= i < packages@.len() && reboots((#[trigger] packages@[i]).name@),
{
    let mut i: usize = 0;
    while i < packages.len()
        invariant
            0 <= i <= packages@.len(),
            forall|k: int| 0 <= k < i ==> !reboots((#[trigger] packages@[k]).name@),
        decreases packages.len() - i,
    {
        if reboots_host(&packages[i]) {
            return true;
        }
        i += 1;
    }
    false
}

/// What is answered once updates were looked for or installed; `marked` says whether the system
/// asks for a restart.
pub fn result(platform: Platform, packages: Vec<PackageUpgrade>, applied: bool, marked: bool) -> (r:
    LinuxUpdateResult)
    ensures
        r.packages@ == packages@,
        r.distribution@ == platform.distribution@,
        r.manager@ == platform.manager.name_of(),
        r.preview_command@ == platform.manager.preview_text(),
        r.apply_command@ == platform.manager.apply_text(),
        r.message@ == if applied {
            "Updated "@ + text::decimal(packages@.len()) + " packages with "@
                + platform.manager.name_of() + "."@
        } else {
            text::decimal(packages@.len()) + " packages can be updated with "@
                + platform.manager.name_of() + "."@
        },
        r.reboot_required == (applied && (marked || exists|i: int|
            0 <= i < packages@.len() && reboots((#[trigger] packages@[i]).name@))),
{
    let manager = platform.manager;
    let number = text::decimal_string(packages.len() as u64);
    let message = if applied {
        text::concat5("Updated ", number.as_str(), " packages with ", manager.name(), ".")
    } else {
        text::concat4(number.as_str(), " packages can be updated with ", manager.name(), ".")
    };
    let reboot_required = applied && (marked || any_reboots(&packages));
    LinuxUpdateResult {
        message,
        packages,
        reboot_required,
        distribution: platform.distribution,
        manager: manager.name(),
        preview_command: manager.preview_command(),
        apply_command: manager.apply_command(),
    }
}

/// Refuses to update packages on another system than Linux.
pub fn ensure_linux(linux: bool) -> (r: Result<(), Failure>)
    ensures
        r is Ok <==> linux,
        r is Err ==> r->Err_0.message@
            == "Linux package updates are supported only on Linux nodes"@,
{
    if linux {
        Ok(())
    } else {
        Err(Failure::new("Linux package updates are supported only on Linux nodes"))
    }
}

// ---------------------------------------------------------------------------------------------
// Which system it is.

/// What stands behind the first line with the given key.
pub open spec fn raw_value(lines: Seq<Seq<char>>, key: Seq<char>) -> Option<Seq<char>>
    decreases lines.len(),
{
    if lines.len() == 0 {
        None
    } else {
        match text::split_first(lines[0], '=') {
            Some(pair) => if pair.0 == key {
                Some(text::trimmed(pair.1))
            } else {
                raw_value(lines.skip(1), key)
            },
            None => raw_value(lines.skip(1), key),
        }
    }
}

/// A value without the quotes around it and the backslashes before quotes and backslashes.
pub open spec fn unquoted(value: Seq<char>) -> Seq<char> {
    text::replaced(
        text::replaced(
            text::without_trailing(text::without_leading(value, '\'', '"'), '\'', '"'),
            "\\\""@,
            "\""@,
        ),
        "\\\\"@,
        "\\"@,
    )
}

/// The value of a key in the description of the system.
pub open spec fn value_of(release: Seq<char>, key: Seq<char>) -> Option<Seq<char>> {
    match raw_value(text::lines_of(release), key) {
        Some(value) => Some(unquoted(value)),
        None => None,
    }
}

/// The value of a key in the description of the system.
pub fn release_value(release: &str, key: &str) -> (r: Option<String>)
    ensures
        text::opt_view(r) == value_of(release@, key@),
{
    let lines = text::lines(release);
    let ghost all = text::lines_of(release@);
    let mut i: usize = 0;
    assert(all.skip(0) =~= all);
    while i < lines.len()
        invariant
            text::views(lines@) == all,
            all == text::lines_of(release@),
            0 <= i <= lines@.len(),
            raw_value(all, key@) == raw_value(all.skip(i as int), key@),
        decreases lines.len() - i,
    {
        assert(all[i as int] == lines@[i as int]@);
        assert(all.skip(i as int)[0] == all[i as int]);
        assert(all.skip(i as int).skip(1) =~= all.skip(i + 1));
        match text::split_once(lines[i].as_str(), '=') {
            Some(pair) => {
                if text::same(pair.0.as_str(), key) {
                    proof {
                        reveal_strlit("\\\"");
                        reveal_strlit("\\\\");
                    }
                    let value = text::trim(pair.1.as_str());
                    let value = text::trim_start_of(value.as_str(), '\'', '"');
                    let value = text::trim_end_of(value.as_str(), '\'', '"');
                    let value = text::replace(value.as_str(), "\\\"", "\"");
                    return Some(text::replace(value.as_str(), "\\\\", "\\"));
                }
            },
            None => {},
        }
        i += 1;
    }
    None
}

/// A text in lower case.
pub uninterp spec fn in_lower_case(s: Seq<char>) -> Seq<char>;

/// `str::to_lowercase`. Which character becomes which is named here and not spelled out.
#[verifier::external_body]
fn lower_case(s: &str) -> (r: String)
    ensures
        r@ == in_lower_case(s@),
{
    s.to_lowercase()
}

/// One of the words of two texts is one of two names.
pub open spec fn mentions(id: Seq<char>, like: Seq<char>, name: Seq<char>) -> bool {
    text::words_of(id).contains(name) || text::words_of(like).contains(name)
}

fn is_mentioned(id: &Vec<String>, like: &Vec<String>, name: &str) -> (r: bool)
    ensures
        r == (text::views(id@).contains(name@) || text::views(like@).contains(name@)),
{
    text::list_has(id.as_slice(), name) || text::list_has(like.as_slice(), name)
}

/// The package manager of a system, by its name and the names of what it is like.
pub open spec fn manager_of(id: Seq<char>, like: Seq<char>) -> Option<Manager> {
    if mentions(id, like, "alpine"@) {
        Some(Manager::Apk)
    } else if mentions(id, like, "arch"@) || mentions(id, like, "manjaro"@) {
        Some(Manager::Pacman)
    } else if mentions(id, like, "debian"@) || mentions(id, like, "ubuntu"@) {
        Some(Manager::Apt)
    } else if mentions(id, like, "fedora"@) || mentions(id, like, "rhel"@) || mentions(
        id,
        like,
        "centos"@,
    ) {
        Some(Manager::Dnf)
    } else {
        None
    }
}

/// The package manager of a system, by its name and the names of what it is like.
pub fn manager_for_release(id: &str, like: &str) -> (r: Option<Manager>)
    ensures
        r == manager_of(id@, like@),
{
    let id = text::words(id);
    let like = text::words(like);
    if is_mentioned(&id, &like, "alpine") {
        Some(Manager::Apk)
    } else if is_mentioned(&id, &like, "arch") || is_mentioned(&id, &like, "manjaro") {
        Some(Manager::Pacman)
    } else if is_mentioned(&id, &like, "debian") || is_mentioned(&id, &like, "ubuntu") {
        Some(Manager::Apt)
    } else if is_mentioned(&id, &like, "fedora") || is_mentioned(&id, &like, "rhel")
        || is_mentioned(&id, &like, "centos") {
        Some(Manager::Dnf)
    } else {
        None
    }
}

/// Which package managers the node has.
pub struct Installed {
    pub apt: bool,
    pub pacman: bool,
    pub dnf: bool,
    pub apk: bool,
}

/// The first package manager that the node has.
pub open spec fn installed_manager(installed: Installed) -> Option<Manager> {
    if installed.apt {
        Some(Manager::Apt)
    } else if installed.pacman {
        Some(Manager::Pacman)
    } else if installed.dnf {
        Some(Manager::Dnf)
    } else if installed.apk {
        Some(Manager::Apk)
    } else {
        None
    }
}

/// The first package manager that the node has.
pub fn manager_from_installed_binary(installed: &Installed) -> (r: Option<Manager>)
    ensures
        r == installed_manager(*installed),
{
    if installed.apt {
        Some(Manager::Apt)
    } else if installed.pacman {
        Some(Manager::Pacman)
    } else if installed.dnf {
        Some(Manager::Dnf)
    } else if installed.apk {
        Some(Manager::Apk)
    } else {
        None
    }
}

/// A text or the empty one.
pub open spec fn or_empty(o: Option<Seq<char>>) -> Seq<char> {
    match o {
        Some(s) => s,
        None => Seq::empty(),
    }
}

/// The system with the given names, in lower case: by them, or by the package managers that the
/// node has.
pub fn platform_of(id: String, like: &str, pretty: Option<String>, installed: &Installed) -> (r:
    Result<Platform, Failure>)
    ensures
        ({
            let manager = match manager_of(id@, like@) {
                Some(m) => Some(m),
                None => installed_manager(*installed),
            };
            &&& r is Ok <==> manager is Some
            &&& r is Ok ==> Some(r->Ok_0.manager) == manager
            &&& r is Ok ==> r->Ok_0.distribution@ == text::printable(
                match pretty {
                    Some(s) => if s@.len() > 0 {
                        s@
                    } else {
                        id@
                    },
                    None => id@,
                },
                120,
            )
            &&& r is Err ==> r->Err_0.message@
                == "unsupported Linux distribution; expected apt-get, pacman, dnf, or apk"@
        }),
{
    let manager = match manager_for_release(id.as_str(), like) {
        Some(m) => Some(m),
        None => manager_from_installed_binary(installed),
    };
    let name = match pretty {
        Some(s) => if text::is_empty(s.as_str()) {
            id
        } else {
            s
        },
        None => id,
    };
    let distribution = text::printable_prefix(name.as_str(), 120);
    match manager {
        Some(manager) => Ok(Platform { distribution, manager }),
        None => Err(
            Failure::new(
                "unsupported Linux distribution; expected apt-get, pacman, dnf, or apk",
            ),
        ),
    }
}

/// The system that a description describes.
pub fn platform(release: &str, installed: &Installed) -> (r: Result<Platform, Failure>)
    ensures
        ({
            let id = in_lower_case(or_empty(value_of(release@, "ID"@)));
            let like = in_lower_case(or_empty(value_of(release@, "ID_LIKE"@)));
            let pretty = value_of(release@, "PRETTY_NAME"@);
            let manager = match manager_of(id, like) {
                Some(m) => Some(m),
                None => installed_manager(*installed),
            };
            &&& r is Ok <==> manager is Some
            &&& r is Ok ==> Some(r->Ok_0.manager) == manager
            &&& r is Ok ==> r->Ok_0.distribution@ == text::printable(
                if pretty is Some && pretty->0.len() > 0 {
                    pretty->0
                } else {
                    id
                },
                120,
            )
            &&& r is Err ==> r->Err_0.message@
                == "unsupported Linux distribution; expected apt-get, pacman, dnf, or apk"@
        }),
{
    let id = match release_value(release, "ID") {
        Some(s) => s,
        None => String::new(),
    };
    let like = match release_value(release, "ID_LIKE") {
        Some(s) => s,
        None => String::new(),
    };
    let id = lower_case(id.as_str());
    let like = lower_case(like.as_str());
    let pretty = release_value(release, "PRETTY_NAME");
    platform_of(id, like.as_str(), pretty, installed)
}

// ---------------------------------------------------------------------------------------------
// What package managers print.

/// What stands between two characters.
pub open spec fn enclosed(s: Seq<char>, start: char, end: char) -> Option<Seq<char>> {
    match text::split_first(s, start) {
        Some(a) => match text::split_first(a.1, end) {
            Some(b) => Some(b.0),
            None => None,
        },
        None => None,
    }
}

/// What stands between two characters.
pub fn between(value: &str, start: char, end: char) -> (r: Option<String>)
    ensures
        text::opt_view(r) == enclosed(value@, start, end),
{
    match text::split_once(value, start) {
        Some(a) => match text::split_once(a.1.as_str(), end) {
            Some(b) => Some(b.0),
            None => None,
        },
        None => None,
    }
}

/// The package of a line of `apt-get`: `Inst name [current] (candidate ...)`.
pub open spec fn apt_line(line: Seq<char>) -> Option<PackageView> {
    match text::without_prefix(line, "Inst "@) {
        None => None,
        Some(rest) => {
            let names = text::words_of(rest);
            match text::split_first(rest, '(') {
                None => None,
                Some(pair) => {
                    let versions = text::words_of(pair.1);
                    if names.len() == 0 || versions.len() == 0 {
                        None
                    } else {
                        Some(
                            PackageView {
                                name: names[0],
                                current: or_empty(enclosed(rest, '[', ']')),
                                candidate: versions[0],
                            },
                        )
                    }
                },
            }
        },
    }
}

/// The package of a line of `checkupdates`: `name current -> candidate`.
pub open spec fn pacman_line(line: Seq<char>) -> Option<PackageView> {
    let w = text::words_of(line);
    if w.len() < 4 {
        None
    } else {
        Some(PackageView { name: w[0], current: w[1], candidate: w[3] })
    }
}

/// The package of a line of `dnf`: `name.architecture candidate repository`.
pub open spec fn dnf_line(line: Seq<char>) -> Option<PackageView> {
    let w = text::words_of(line);
    if w.len() < 3 || !w[0].contains('.') || !has_digit(w[1]) {
        None
    } else {
        Some(PackageView { name: w[0], current: Seq::empty(), candidate: w[1] })
    }
}

/// There is a digit in a text.
pub open spec fn has_digit(s: Seq<char>) -> bool {
    exists|i: int| 0 <= i < s.len() && text::is_digit(#[trigger] s[i])
}

/// The package of a line of `apk`: `(1/2) Upgrading name (current -> candidate)`.
pub open spec fn apk_line(line: Seq<char>) -> Option<PackageView> {
    let rest = match text::split_around(line, " Upgrading "@) {
        Some(pair) => Some(pair.1),
        None => match text::split_around(line, " Installing "@) {
            Some(pair) => Some(pair.1),
            None => None,
        },
    };
    match rest {
        None => None,
        Some(rest) => match text::split_around(rest, " ("@) {
            None => None,
            Some(pair) => {
                let versions = text::without_trailing(pair.1, ')', ')');
                match text::split_around(versions, " -> "@) {
                    Some(v) => Some(
                        PackageView { name: pair.0, current: v.0, candidate: v.1 },
                    ),
                    None => Some(
                        PackageView {
                            name: pair.0,
                            current: Seq::empty(),
                            candidate: versions,
                        },
                    ),
                }
            },
        },
    }
}

/// The package of a line that a package manager printed, if it names one.
pub open spec fn package_line(manager: Manager, line: Seq<char>) -> Option<PackageView> {
    match manager {
        Manager::Apt => apt_line(line),
        Manager::Pacman => pacman_line(line),
        Manager::Dnf => dnf_line(line),
        Manager::Apk => apk_line(line),
    }
}

/// The first packages of the lines that a package manager printed.
pub open spec fn collected(manager: Manager, lines: Seq<Seq<char>>) -> Seq<PackageView>
    decreases lines.len(),
{
    if lines.len() == 0 {
        Seq::empty()
    } else {
        let before = collected(manager, lines.drop_last());
        match package_line(manager, lines.last()) {
            Some(package) => if before.len() < MAX_PACKAGES {
                before.push(package)
            } else {
                before
            },
            None => before,
        }
    }
}

fn read_apt(line: &str) -> (r: Option<PackageUpgrade>)
    ensures
        package_opt(r) == apt_line(line@),
{
    let rest = match text::strip_prefix(line, "Inst ") {
        Some(rest) => rest,
        None => {
            return None;
        },
    };
    let names = text::words(rest.as_str());
    let current = match between(rest.as_str(), '[', ']') {
        Some(s) => s,
        None => String::new(),
    };
    match text::split_once(rest.as_str(), '(') {
        Some(pair) => {
            let versions = text::words(pair.1.as_str());
            let ghost n = text::words_of(rest@);
            let ghost v = text::words_of(pair.1@);
            assert(n.len() == names@.len() && v.len() == versions@.len());
            if names.len() == 0 || versions.len() == 0 {
                return None;
            }
            assert(n[0] == names@[0]@ && v[0] == versions@[0]@);
            Some(
                PackageUpgrade {
                    name: names[0].as_str().to_owned(),
                    current,
                    candidate: versions[0].as_str().to_owned(),
                },
            )
        },
        None => None,
    }
}

fn read_pacman(line: &str) -> (r: Option<PackageUpgrade>)
    ensures
        package_opt(r) == pacman_line(line@),
{
    let words = text::words(line);
    let ghost w = text::words_of(line@);
    assert(w.len() == words@.len());
    if words.len() < 4 {
        return None;
    }
    assert(w[0] == words@[0]@ && w[1] == words@[1]@ && w[3] == words@[3]@);
    Some(
        PackageUpgrade {
            name: words[0].as_str().to_owned(),
            current: words[1].as_str().to_owned(),
            candidate: words[3].as_str().to_owned(),
        },
    )
}

fn digit_in(s: &str) -> (r: bool)
    ensures
        r == has_digit(s@),
{
    let cs = text::chars_of(s);
    let mut i: usize = 0;
    while i < cs.len()
        invariant
            cs@ == s@,
            0 <= i <= cs@.len(),
            forall|k: int| 0 <= k < i ==> !text::is_digit(#[trigger] s@[k]),
        decreases cs.len() - i,
    {
        let c = cs[i];
        if '0' <= c && c <= '9' {
            assert(text::is_digit(s@[i as int]));
            return true;
        }
        assert(!text::is_digit(s@[i as int]));
        i += 1;
    }
    false
}

fn read_dnf(line: &str) -> (r: Option<PackageUpgrade>)
    ensures
        package_opt(r) == dnf_line(line@),
{
    let words = text::words(line);
    let ghost w = text::words_of(line@);
    assert(w.len() == words@.len());
    if words.len() < 3 {
        return None;
    }
    assert(w[0] == words@[0]@ && w[1] == words@[1]@);
    if !text::has_char(words[0].as_str(), '.') || !digit_in(words[1].as_str()) {
        return None;
    }
    Some(
        PackageUpgrade {
            name: words[0].as_str().to_owned(),
            current: String::new(),
            candidate: words[1].as_str().to_owned(),
        },
    )
}

fn read_apk(line: &str) -> (r: Option<PackageUpgrade>)
    ensures
        package_opt(r) == apk_line(line@),
{
    let rest = match text::split_once_text(line, " Upgrading ") {
        Some(pair) => pair.1,
        None => match text::split_once_text(line, " Installing ") {
            Some(pair) => pair.1,
            None => {
                return None;
            },
        },
    };
    match text::split_once_text(rest.as_str(), " (") {
        Some(pair) => {
            let versions = text::trim_end_of(pair.1.as_str(), ')', ')');
            match text::split_once_text(versions.as_str(), " -> ") {
                Some(v) => Some(PackageUpgrade { name: pair.0, current: v.0, candidate: v.1 }),
                None => Some(
                    PackageUpgrade { name: pair.0, current: String::new(), candidate: versions },
                ),
            }
        },
        None => None,
    }
}

fn read_line(manager: Manager, line: &str) -> (r: Option<PackageUpgrade>)
    ensures
        package_opt(r) == package_line(manager, line@),
{
    match manager {
        Manager::Apt => read_apt(line),
        Manager::Pacman => read_pacman(line),
        Manager::Dnf => read_dnf(line),
        Manager::Apk => read_apk(line),
    }
}

fn collect(manager: Manager, output: &str) -> (r: Vec<PackageUpgrade>)
    ensures
        packages_view(r@) == collected(manager, text::lines_of(output@)),
{
    let lines = text::lines(output);
    let ghost all = text::lines_of(output@);
    let mut out: Vec<PackageUpgrade> = Vec::new();
    let mut i: usize = 0;
    assert(all.take(0) =~= Seq::<Seq<char>>::empty());
    assert(packages_view(out@) =~= Seq::<PackageView>::empty());
    while i < lines.len()
        invariant
            text::views(lines@) == all,
            0 <= i <= lines@.len(),
            packages_view(out@) == collected(manager, all.take(i as int)),
        decreases lines.len() - i,
    {
        assert(all[i as int] == lines@[i as int]@);
        assert(all.take(i + 1).drop_last() =~= all.take(i as int));
        assert(packages_view(out@).len() == out@.len());
        match read_line(manager, lines[i].as_str()) {
            Some(package) => {
                if out.len() < MAX_PACKAGES {
                    let ghost before = out@;
                    out.push(package);
                    assert(packages_view(out@) =~= packages_view(before).push(package@));
                }
            },
            None => {},
        }
        i += 1;
    }
    assert(all.take(all.len() as int) =~= all);
    out
}

/// The packages that `apt-get` says can be updated.
pub fn parse_apt(output: &str) -> (r: Vec<PackageUpgrade>)
    ensures
        packages_view(r@) == collected(Manager::Apt, text::lines_of(output@)),
{
    collect(Manager::Apt, output)
}

/// The packages that `checkupdates` says can be updated.
pub fn parse_pacman(output: &str) -> (r: Vec<PackageUpgrade>)
    ensures
        packages_view(r@) == collected(Manager::Pacman, text::lines_of(output@)),
{
    collect(Manager::Pacman, output)
}

/// The packages that `dnf` says can be updated.
pub fn parse_dnf(output: &str) -> (r: Vec<PackageUpgrade>)
    ensures
        packages_view(r@) == collected(Manager::Dnf, text::lines_of(output@)),
{
    collect(Manager::Dnf, output)
}

/// The packages that `apk` says can be updated.
pub fn parse_apk(output: &str) -> (r: Vec<PackageUpgrade>)
    ensures
        packages_view(r@) == collected(Manager::Apk, text::lines_of(output@)),
{
    collect(Manager::Apk, output)
}

// ---------------------------------------------------------------------------------------------
// The order of the commands.

/// What is done next to look for updates, or to install them.
#[derive(Clone, Copy, Debug, PartialEq, Eq, Structural)]
pub enum PackagePhase {
    /// Brings the lists of packages up to date.
    Refresh,
    /// Looks for updates.
    Preview,
    /// Installs them.
    Apply,
    Report,
}

/// What is done first.
pub fn first_phase(manager: Manager) -> (r: PackagePhase)
    ensures
        r == if manager == Manager::Apt || manager == Manager::Apk {
            PackagePhase::Refresh
        } else {
            PackagePhase::Preview
        },
{
    match manager {
        Manager::Apt | Manager::Apk => PackagePhase::Refresh,
        _ => PackagePhase::Preview,
    }
}

/// What follows a step.
pub open spec fn phase_after(phase: PackagePhase, applies: bool, found: nat) -> PackagePhase {
    match phase {
        PackagePhase::Refresh => PackagePhase::Preview,
        PackagePhase::Preview => if applies && found > 0 {
            PackagePhase::Apply
        } else {
            PackagePhase::Report
        },
        PackagePhase::Apply => PackagePhase::Report,
        PackagePhase::Report => PackagePhase::Report,
    }
}

/// What follows a step that succeeded; `applies` says whether updates are to be installed, and
/// `found` are those that were found so far.
pub fn after_phase(phase: PackagePhase, applies: bool, found: &Vec<PackageUpgrade>) -> (r:
    PackagePhase)
    ensures
        r == phase_after(phase, applies, found@.len()),
{
    match phase {
        PackagePhase::Refresh => PackagePhase::Preview,
        PackagePhase::Preview => if applies && found.len() > 0 {
            PackagePhase::Apply
        } else {
            PackagePhase::Report
        },
        PackagePhase::Apply => PackagePhase::Report,
        PackagePhase::Report => PackagePhase::Report,
    }
}

// ---------------------------------------------------------------------------------------------
// Laws.

/// Nothing is installed unless that was asked for, and updates were looked for and found.
pub proof fn law_only_found_updates_are_installed(phase: PackagePhase, applies: bool, found: nat)
    requires
        phase_after(phase, applies, found) == PackagePhase::Apply,
    ensures
        phase == PackagePhase::Preview,
        applies,
        found > 0,
{
}

/// However much a package manager prints, no more packages are reported than may be.
pub proof fn law_reports_are_bounded(manager: Manager, lines: Seq<Seq<char>>)
    ensures
        collected(manager, lines).len() <= MAX_PACKAGES,
    decreases lines.len(),
{
    if lines.len() > 0 {
        law_reports_are_bounded(manager, lines.drop_last());
    }
}

} // verus!
