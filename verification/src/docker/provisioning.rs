//! The steps in which a server is created.

use crate::docker::container::CreateSpec;
use crate::docker::installer::{report, report_view, Report};
use crate::error::Failure;
use crate::paths::{valid_id, validate_id};
use crate::text;
use vstd::prelude::*;

verus! {

/// The pause before Docker is tried again, in seconds.
pub const DOCKER_CONNECT_RETRY_SECONDS: u64 = 30;

/// The network that containers join where no other is configured.
pub const DEFAULT_NETWORK: &'static str = "agapornis_ntw";

/// A step in creating a server.
#[derive(Clone, Copy, Debug, PartialEq, Eq, Structural)]
pub enum CreateStep {
    ReservePort,
    PrepareStorage,
    /// Write down the disk limit.
    RecordDiskLimit,
    /// Write down the configuration descriptor.
    RecordConfiguration,
    RunInstaller,
    EnsureNetwork,
    ConfigureServer,
    PullImage,
    /// Give the files to the user of the container.
    GrantOwnership,
    CreateContainer,
    ForgetDiskUsage,
    Finish,
}

/// What a user is told when a step begins; nothing for a step that is part of the one before.
pub open spec fn step_report(step: CreateStep) -> Option<(Seq<char>, i32, Seq<char>)> {
    match step {
        CreateStep::ReservePort => Some(
            ("allocating-port"@, 10i32, "Reserving the server network port"@),
        ),
        CreateStep::PrepareStorage => Some(
            ("preparing-storage"@, 15i32, "Preparing server storage and resource metadata"@),
        ),
        CreateStep::EnsureNetwork => Some(
            ("configuring-network"@, 62i32, "Preparing the Docker network"@),
        ),
        CreateStep::ConfigureServer => Some(
            ("configuring-server"@, 67i32, "Applying generated server configuration"@),
        ),
        CreateStep::PullImage => Some(
            ("pulling-runtime-image"@, 72i32, "Pulling the selected runtime image"@),
        ),
        CreateStep::CreateContainer => Some(
            ("creating-container"@, 88i32, "Creating the final server container"@),
        ),
        CreateStep::Finish => Some(
            ("container-ready"@, 95i32, "Docker container created successfully"@),
        ),
        _ => None,
    }
}

/// What a user is told when a step begins.
pub fn report_step(step: CreateStep) -> (r: Option<Report>)
    ensures
        match step_report(step) {
            Some(told) => r is Some && report_view(r->0) == told,
            None => r is None,
        },
{
    match step {
        CreateStep::ReservePort => Some(
            report("allocating-port", 10, "Reserving the server network port"),
        ),
        CreateStep::PrepareStorage => Some(
            report("preparing-storage", 15, "Preparing server storage and resource metadata"),
        ),
        CreateStep::EnsureNetwork => Some(
            report("configuring-network", 62, "Preparing the Docker network"),
        ),
        CreateStep::ConfigureServer => Some(
            report("configuring-server", 67, "Applying generated server configuration"),
        ),
        CreateStep::PullImage => Some(
            report("pulling-runtime-image", 72, "Pulling the selected runtime image"),
        ),
        CreateStep::CreateContainer => Some(
            report("creating-container", 88, "Creating the final server container"),
        ),
        CreateStep::Finish => Some(
            report("container-ready", 95, "Docker container created successfully"),
        ),
        _ => None,
    }
}

/// A server comes with an installer.
pub open spec fn has_installer(spec: CreateSpec) -> bool {
    !text::is_blank(spec.install_image@) && !text::is_blank(spec.install_script@)
}

/// The steps in which a server is created, in order.
pub open spec fn create_steps(spec: CreateSpec) -> Seq<CreateStep> {
    seq![CreateStep::ReservePort, CreateStep::PrepareStorage] + (if spec.disk_limit_bytes > 0 {
        seq![CreateStep::RecordDiskLimit]
    } else {
        Seq::empty()
    }) + seq![CreateStep::RecordConfiguration] + (if has_installer(spec) {
        seq![CreateStep::RunInstaller]
    } else {
        Seq::empty()
    }) + seq![
        CreateStep::EnsureNetwork,
        CreateStep::ConfigureServer,
        CreateStep::PullImage,
        CreateStep::GrantOwnership,
        CreateStep::CreateContainer,
        CreateStep::ForgetDiskUsage,
        CreateStep::Finish,
    ]
}

/// Why a server is not created.
pub open spec fn create_refusal(spec: CreateSpec) -> Option<Seq<char>> {
    if !valid_id(spec.server_id@) {
        Some("invalid server id"@)
    } else if text::is_blank(spec.image@) {
        Some("Docker image is required"@)
    } else {
        None
    }
}

/// What a user is told before a server is looked at.
pub fn validating_report() -> (r: Report)
    ensures
        report_view(r) == (
            "validating"@,
            5i32,
            "Validating server and Docker configuration"@,
        ),
{
    report("validating", 5, "Validating server and Docker configuration")
}

/// The steps in which a server is created, in order.
pub fn create_plan(spec: &CreateSpec) -> (r: Result<Vec<CreateStep>, Failure>)
    ensures
        r is Ok <==> create_refusal(*spec) is None,
        r is Ok ==> r->Ok_0@ == create_steps(*spec),
        r is Err ==> Some(r->Err_0.message@) == create_refusal(*spec),
{
    match validate_id(spec.server_id.as_str()) {
        Ok(()) => {},
        Err(e) => {
            return Err(e);
        },
    }
    if text::blank(spec.image.as_str()) {
        return Err(Failure::new("Docker image is required"));
    }
    let mut steps: Vec<CreateStep> = Vec::new();
    steps.push(CreateStep::ReservePort);
    steps.push(CreateStep::PrepareStorage);
    if spec.disk_limit_bytes > 0 {
        steps.push(CreateStep::RecordDiskLimit);
    }
    steps.push(CreateStep::RecordConfiguration);
    if !text::blank(spec.install_image.as_str()) && !text::blank(spec.install_script.as_str()) {
        steps.push(CreateStep::RunInstaller);
    }
    steps.push(CreateStep::EnsureNetwork);
    steps.push(CreateStep::ConfigureServer);
    steps.push(CreateStep::PullImage);
    steps.push(CreateStep::GrantOwnership);
    steps.push(CreateStep::CreateContainer);
    steps.push(CreateStep::ForgetDiskUsage);
    steps.push(CreateStep::Finish);
    assert(steps@ =~= create_steps(*spec));
    Ok(steps)
}

/// The network that containers join.
pub fn docker_network(configured: Option<&str>) -> (r: String)
    ensures
        r@ == match configured {
            Some(name) => name@,
            None => DEFAULT_NETWORK@,
        },
{
    match configured {
        Some(name) => name.to_owned(),
        None => DEFAULT_NETWORK.to_owned(),
    }
}

/// What follows from looking for a Docker network.
#[derive(Clone, Copy, PartialEq, Eq, Structural)]
pub enum NetworkStep {
    Ready,
    Create,
    Fail,
}

/// What follows from looking for a network; `status` is that of Docker's error.
pub fn after_network_inspect(found: bool, status: Option<u16>) -> (r: NetworkStep)
    ensures
        r == if found {
            NetworkStep::Ready
        } else if status == Some(404u16) {
            NetworkStep::Create
        } else {
            NetworkStep::Fail
        },
{
    if found {
        return NetworkStep::Ready;
    }
    match status {
        Some(code) => if code == 404 {
            NetworkStep::Create
        } else {
            NetworkStep::Fail
        },
        None => NetworkStep::Fail,
    }
}

/// What follows from creating a network: that another request was faster is as good.
pub fn after_network_create(created: bool, status: Option<u16>) -> (r: NetworkStep)
    ensures
        r == if created || status == Some(409u16) {
            NetworkStep::Ready
        } else {
            NetworkStep::Fail
        },
{
    if created {
        return NetworkStep::Ready;
    }
    match status {
        Some(code) => if code == 409 {
            NetworkStep::Ready
        } else {
            NetworkStep::Fail
        },
        None => NetworkStep::Fail,
    }
}

// ---------------------------------------------------------------------------------------------
// Laws.

/// What a user is told while a server is created moves forward only.
pub proof fn law_progress_moves_forward(spec: CreateSpec, i: int, j: int)
    requires
        0 <= i < j < create_steps(spec).len(),
        step_report(create_steps(spec)[i]) is Some,
        step_report(create_steps(spec)[j]) is Some,
    ensures
        (step_report(create_steps(spec)[i])->0).1 < (step_report(create_steps(spec)[j])->0).1,
{
}

/// A step that a container needs to be over before it is created: its network, its files and its
/// image.
pub open spec fn comes_first(step: CreateStep) -> bool {
    match step {
        CreateStep::CreateContainer | CreateStep::ForgetDiskUsage | CreateStep::Finish => false,
        _ => true,
    }
}

/// A container is created once, after its network, its files and its image are there.
pub proof fn law_container_comes_last(spec: CreateSpec, i: int)
    requires
        0 <= i < create_steps(spec).len(),
    ensures
        create_steps(spec)[i] == CreateStep::CreateContainer <==> i == create_steps(spec).len() - 3,
        comes_first(create_steps(spec)[i]) <==> i < create_steps(spec).len() - 3,
        create_steps(spec).contains(CreateStep::EnsureNetwork),
        create_steps(spec).contains(CreateStep::ConfigureServer),
        create_steps(spec).contains(CreateStep::PullImage),
        has_installer(spec) ==> create_steps(spec).contains(CreateStep::RunInstaller),
{
    let s = create_steps(spec);
    let n = s.len();
    assert(s[n - 7] == CreateStep::EnsureNetwork);
    assert(s[n - 6] == CreateStep::ConfigureServer);
    assert(s[n - 5] == CreateStep::PullImage);
    if has_installer(spec) {
        assert(s[n - 8] == CreateStep::RunInstaller);
    }
}

/// What comes before what while a server is created.
pub open spec fn step_rank(step: CreateStep) -> int {
    match step {
        CreateStep::ReservePort => 0,
        CreateStep::PrepareStorage => 1,
        CreateStep::RecordDiskLimit => 2,
        CreateStep::RecordConfiguration => 3,
        CreateStep::RunInstaller => 4,
        CreateStep::EnsureNetwork => 5,
        CreateStep::ConfigureServer => 6,
        CreateStep::PullImage => 7,
        CreateStep::GrantOwnership => 8,
        CreateStep::CreateContainer => 9,
        CreateStep::ForgetDiskUsage => 10,
        CreateStep::Finish => 11,
    }
}

/// A server is created by every step there is, each taken once and in its order, but for two: its
/// disk limit is recorded exactly where it has one, and its installer runs exactly where it comes
/// with both an image and a script for it.
pub proof fn law_every_step_of_a_creation_is_taken(spec: CreateSpec, step: CreateStep)
    ensures
        create_steps(spec).contains(step) <==> (step == CreateStep::RecordDiskLimit
            ==> spec.disk_limit_bytes > 0) && (step == CreateStep::RunInstaller ==> !text::is_blank(
            spec.install_image@,
        ) && !text::is_blank(spec.install_script@)),
        forall|i: int, j: int|
            0 <= i < j < create_steps(spec).len() ==> step_rank(#[trigger] create_steps(spec)[i])
                < step_rank(#[trigger] create_steps(spec)[j]),
{
    let s = create_steps(spec);
    let n = s.len();
    let d: int = if spec.disk_limit_bytes > 0 {
        1
    } else {
        0
    };
    assert(s[0] == CreateStep::ReservePort);
    assert(s[1] == CreateStep::PrepareStorage);
    if spec.disk_limit_bytes > 0 {
        assert(s[2] == CreateStep::RecordDiskLimit);
    }
    assert(s[2 + d] == CreateStep::RecordConfiguration);
    if has_installer(spec) {
        assert(s[3 + d] == CreateStep::RunInstaller);
    }
    assert(s[n - 7] == CreateStep::EnsureNetwork);
    assert(s[n - 6] == CreateStep::ConfigureServer);
    assert(s[n - 5] == CreateStep::PullImage);
    assert(s[n - 4] == CreateStep::GrantOwnership);
    assert(s[n - 3] == CreateStep::CreateContainer);
    assert(s[n - 2] == CreateStep::ForgetDiskUsage);
    assert(s[n - 1] == CreateStep::Finish);
}

/// A server is created exactly where its id is one and its image has a name.
pub proof fn law_named_servers_with_an_image_are_created(spec: CreateSpec)
    ensures
        create_refusal(spec) is None <==> valid_id(spec.server_id@) && !text::is_blank(
            spec.image@,
        ),
        !valid_id(spec.server_id@) ==> create_refusal(spec) == Some("invalid server id"@),
{
}

/// A user is told of every step that takes time and of the end, each with a percentage between the
/// first and the last one.
pub proof fn law_progress_is_a_percentage(step: CreateStep)
    ensures
        step_report(step) is None <==> step == CreateStep::RecordDiskLimit || step
            == CreateStep::RecordConfiguration || step == CreateStep::RunInstaller || step
            == CreateStep::GrantOwnership || step == CreateStep::ForgetDiskUsage,
        step_report(step) is Some ==> 10 <= (step_report(step)->0).1 <= 95,
        step_report(step) is Some && (step_report(step)->0).1 == 95 <==> step == CreateStep::Finish,
{
}

} // verus!
