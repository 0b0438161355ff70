//! Databases of servers: their ports, their health checks, and testing a connection.

use crate::docker::ports::{parse_port, port_key, port_number};
use crate::error::Failure;
use crate::json::{bool_of, inner_of, Json};
use crate::paths::{valid_id, validate_id};
use crate::process::{lossy, lossy_text};
use crate::text;
use vstd::prelude::*;

verus! {

/// A connection that is to be tested.
pub struct DatabaseConnectionSpec<'a> {
    pub server_id: &'a str,
    pub database_type: &'a str,
    pub host: &'a str,
    pub port: i32,
    pub database_name: &'a str,
    pub username: &'a str,
    pub password: &'a str,
    pub docker_image: &'a str,
}

/// The container that tests a connection.
pub struct DatabaseProbe {
    pub server_id: String,
    pub password: String,
    pub docker_image: String,
    pub password_key: String,
    pub entrypoint: String,
    pub command: Vec<String>,
}

/// The arguments of the MySQL and MariaDB clients.
pub open spec fn mysql_arguments(spec: DatabaseConnectionSpec) -> Seq<Seq<char>> {
    seq![
        "--protocol=TCP"@,
        "--host"@,
        spec.host@,
        "--port"@,
        text::signed_decimal(spec.port as int),
        "--user"@,
        spec.username@,
        spec.database_name@,
        "--execute"@,
        "SELECT 1"@,
    ]
}

/// The arguments of the PostgreSQL client.
pub open spec fn postgres_arguments(spec: DatabaseConnectionSpec) -> Seq<Seq<char>> {
    seq![
        "--host"@,
        spec.host@,
        "--port"@,
        text::signed_decimal(spec.port as int),
        "--username"@,
        spec.username@,
        "--dbname"@,
        spec.database_name@,
        "--command"@,
        "SELECT 1"@,
    ]
}

/// The variable for the password, the client and its arguments, for a type of database.
pub open spec fn client(spec: DatabaseConnectionSpec) -> Option<
    (Seq<char>, Seq<char>, Seq<Seq<char>>),
> {
    if spec.database_type@ == "mysql"@ {
        Some(("MYSQL_PWD"@, "mysql"@, mysql_arguments(spec)))
    } else if spec.database_type@ == "mariadb"@ {
        Some(("MYSQL_PWD"@, "mariadb"@, mysql_arguments(spec)))
    } else if spec.database_type@ == "postgres"@ {
        Some(("PGPASSWORD"@, "psql"@, postgres_arguments(spec)))
    } else {
        None
    }
}

impl DatabaseProbe {
    /// The container that tests the connection.
    pub fn from_spec(spec: &DatabaseConnectionSpec<'_>) -> (r: Result<DatabaseProbe, Failure>)
        ensures
            r is Ok <==> client(*spec) is Some,
            r is Err ==> r->Err_0.message@ == "unsupported database type"@,
            r is Ok ==> {
                let p = r->Ok_0;
                &&& p.server_id@ == spec.server_id@
                &&& p.password@ == spec.password@
                &&& p.docker_image@ == spec.docker_image@
                &&& Some((p.password_key@, p.entrypoint@, text::views(p.command@))) == client(
                    *spec,
                )
            },
    {
        let port = text::signed_decimal_string(spec.port as i64);
        let mysql = text::same(spec.database_type, "mysql");
        let mariadb = text::same(spec.database_type, "mariadb");
        let postgres = text::same(spec.database_type, "postgres");
        if !mysql && !mariadb && !postgres {
            return Err(Failure::new("unsupported database type"));
        }
        let command = if postgres {
            text::owned(
                vec![
                    "--host",
                    spec.host,
                    "--port",
                    port.as_str(),
                    "--username",
                    spec.username,
                    "--dbname",
                    spec.database_name,
                    "--command",
                    "SELECT 1",
                ],
            )
        } else {
            text::owned(
                vec![
                    "--protocol=TCP",
                    "--host",
                    spec.host,
                    "--port",
                    port.as_str(),
                    "--user",
                    spec.username,
                    spec.database_name,
                    "--execute",
                    "SELECT 1",
                ],
            )
        };
        proof {
            if mysql || mariadb {
                assert(spec.database_type@ == "mysql"@ || spec.database_type@ == "mariadb"@);
                if postgres {
                    reveal_strlit("mysql");
                    reveal_strlit("mariadb");
                    reveal_strlit("postgres");
                    assert("postgres"@.len() == 8);
                    assert("mysql"@.len() == 5);
                    assert("mariadb"@.len() == 7);
                }
                assert(text::views(command@) =~= mysql_arguments(*spec));
            } else {
                assert(text::views(command@) =~= postgres_arguments(*spec));
            }
        }
        Ok(
            DatabaseProbe {
                server_id: spec.server_id.to_owned(),
                password: spec.password.to_owned(),
                docker_image: spec.docker_image.to_owned(),
                password_key: (if postgres {
                    "PGPASSWORD"
                } else {
                    "MYSQL_PWD"
                }).to_owned(),
                entrypoint: (if postgres {
                    "psql"
                } else if mysql {
                    "mysql"
                } else {
                    "mariadb"
                }).to_owned(),
                command,
            },
        )
    }

    /// The environment of the test container.
    pub fn environment(&self) -> (r: Vec<String>)
        ensures
            text::views(r@) == seq![self.password_key@ + "="@ + self.password@],
    {
        let mut out: Vec<String> = Vec::new();
        let entry = text::concat3(self.password_key.as_str(), "=", self.password.as_str());
        out.push(entry);
        assert(text::views(out@) =~= seq![entry@]);
        out
    }

    /// The network of the test container: that of the server.
    pub fn network_mode(&self) -> (r: String)
        ensures
            r@ == "container:"@ + self.server_id@,
    {
        text::concat2("container:", self.server_id.as_str())
    }
}

/// Why a connection cannot be tested.
pub open spec fn spec_refusal(spec: DatabaseConnectionSpec) -> Option<Seq<char>> {
    if !valid_id(spec.server_id@) || !valid_id(spec.host@) {
        Some("invalid server id"@)
    } else if !(1 <= spec.port <= 65535) {
        Some("database port is invalid"@)
    } else if text::is_blank(spec.database_name@) || text::is_blank(spec.username@)
        || spec.password@.len() == 0 {
        Some("database credentials are incomplete"@)
    } else if text::is_blank(spec.docker_image@) {
        Some("database test image is required"@)
    } else {
        None
    }
}

/// Accepts a connection that can be tested.
pub fn validate_database_spec(spec: &DatabaseConnectionSpec<'_>) -> (r: Result<(), Failure>)
    ensures
        r is Ok <==> spec_refusal(*spec) is None,
        r is Err ==> Some(r->Err_0.message@) == spec_refusal(*spec),
{
    match validate_id(spec.server_id) {
        Ok(()) => {},
        Err(e) => {
            return Err(e);
        },
    }
    match validate_id(spec.host) {
        Ok(()) => {},
        Err(e) => {
            return Err(e);
        },
    }
    if !(1 <= spec.port && spec.port <= 65535) {
        return Err(Failure::new("database port is invalid"));
    }
    if text::blank(spec.database_name) || text::blank(spec.username) || text::is_empty(
        spec.password,
    ) {
        return Err(Failure::new("database credentials are incomplete"));
    }
    if text::blank(spec.docker_image) {
        return Err(Failure::new("database test image is required"));
    }
    Ok(())
}

/// Whether an inspected container runs.
pub fn is_running(inspect: &Json) -> (r: bool)
    ensures
        r == (bool_of(inner_of(inspect@, "State"@, "Running"@)) == Some(true)),
{
    match inspect.inner("State", "Running") {
        Some(v) => match v.as_bool() {
            Some(b) => b,
            None => false,
        },
        None => false,
    }
}

/// Accepts a test between a server and a database that both run.
pub fn ensure_database_context(server: &Json, database: &Json) -> (r: Result<(), Failure>)
    ensures
        ({
            let up = bool_of(inner_of(server@, "State"@, "Running"@)) == Some(true);
            let db = bool_of(inner_of(database@, "State"@, "Running"@)) == Some(true);
            &&& r is Ok <==> up && db
            &&& !up ==> r->Err_0.message@
                == "server container must be running to test its database connection"@
            &&& up && !db ==> r->Err_0.message@ == "database container is not running"@
        }),
{
    if !is_running(server) {
        return Err(
            Failure::new("server container must be running to test its database connection"),
        );
    }
    if !is_running(database) {
        return Err(Failure::new("database container is not running"));
    }
    Ok(())
}

/// The most bytes that are kept of a test container's output.
pub const MAX_PROBE_LOG_BYTES: usize = 32_768;

/// What a test container that ended says of the connection: nothing where its status is 0, else
/// its output, the reason that Docker gives, or that there is neither.
pub open spec fn probe_detail(logs: Seq<u8>, error: Option<Seq<char>>) -> Seq<char> {
    let shown = text::trimmed(lossy(logs));
    if shown.len() > 0 {
        shown
    } else {
        match error {
            Some(e) => e,
            None => "database client returned no output"@,
        }
    }
}

/// The result of a test container that ended.
pub fn probe_result(status_code: i64, logs: &[u8], error: Option<&str>) -> (r: Result<(), Failure>)
    ensures
        r is Ok <==> status_code == 0,
        r is Err ==> r->Err_0.message@ == "database connection test exited with status "@
            + text::signed_decimal(status_code as int) + ": "@ + probe_detail(
            logs@,
            crate::protection::str_view(error),
        ),
{
    if status_code == 0 {
        return Ok(());
    }
    let shown = text::trim(lossy_text(logs).as_str());
    let detail = if !text::is_empty(shown.as_str()) {
        shown
    } else {
        match error {
            Some(e) => e.to_owned(),
            None => "database client returned no output".to_owned(),
        }
    };
    let status = text::signed_decimal_string(status_code);
    Err(
        Failure {
            message: text::concat4(
                "database connection test exited with status ",
                status.as_str(),
                ": ",
                detail.as_str(),
            ),
        },
    )
}

/// How a connection test ended.
pub enum ProbeOutcome {
    TimedOut,
    Failed(Failure),
    Connected,
}

/// The result of a connection test: the milliseconds that it took, or why it failed. That the
/// test container could not be removed counts only after a success.
pub fn database_test_outcome(outcome: ProbeOutcome, removed: bool, elapsed_millis: u128) -> (r:
    Result<i64, Failure>)
    ensures
        r is Ok <==> outcome is Connected && removed,
        r is Ok ==> r->Ok_0 == if elapsed_millis > i64::MAX {
            i64::MAX as int
        } else {
            elapsed_millis as int
        },
        r is Err ==> r->Err_0.message@ == match outcome {
            ProbeOutcome::TimedOut => "database connection test timed out"@,
            ProbeOutcome::Failed(e) => e.message@,
            ProbeOutcome::Connected => "remove successful database test container"@,
        },
{
    match outcome {
        ProbeOutcome::TimedOut => Err(Failure::new("database connection test timed out")),
        ProbeOutcome::Failed(e) => Err(e),
        ProbeOutcome::Connected => if removed {
            Ok(
                if elapsed_millis > i64::MAX as u128 {
                    i64::MAX
                } else {
                    elapsed_millis as i64
                },
            )
        } else {
            Err(Failure::new("remove successful database test container"))
        },
    }
}

/// The database port that one entry names.
pub open spec fn entry_port(entry: Seq<char>) -> Option<u16> {
    match text::without_prefix(entry, "AGAPORNIS_DATABASE_PORT="@) {
        Some(rest) => port_number(rest),
        None => None,
    }
}

/// The database port that the first entry to name one names.
pub open spec fn named_port(env: Seq<Seq<char>>) -> Option<u16>
    decreases env.len(),
{
    if env.len() == 0 {
        None
    } else {
        match entry_port(env[0]) {
            Some(port) => Some(port),
            None => named_port(env.drop_first()),
        }
    }
}

/// The database port that an environment names.
pub fn database_port(env: &Vec<String>) -> (r: Option<u16>)
    ensures
        r == named_port(text::views(env@)),
{
    let ghost all = text::views(env@);
    let mut i: usize = 0;
    assert(all.skip(0) =~= all);
    while i < env.len()
        invariant
            all == text::views(env@),
            0 <= i <= env@.len(),
            named_port(all) == named_port(all.skip(i as int)),
        decreases env.len() - i,
    {
        proof {
            assert(all.skip(i as int)[0] == env@[i as int]@);
            assert(all.skip(i as int).drop_first() =~= all.skip(i as int + 1));
        }
        if let Some(rest) = text::strip_prefix(env[i].as_str(), "AGAPORNIS_DATABASE_PORT=") {
            if let Some(port) = parse_port(rest.as_str()) {
                return Some(port);
            }
        }
        i += 1;
    }
    None
}

pub const POSTGRES_HEALTH: &'static str =
    "pg_isready --host=127.0.0.1 --port=\"$AGAPORNIS_DATABASE_PORT\" --username=\"$POSTGRES_USER\" --dbname=\"$POSTGRES_DB\"";

pub const MYSQL_HEALTH: &'static str =
    "mysqladmin ping --protocol=tcp --host=127.0.0.1 --port=\"$AGAPORNIS_DATABASE_PORT\" --user=root --password=\"$MYSQL_ROOT_PASSWORD\" --silent";

pub const MARIADB_HEALTH: &'static str =
    "mariadb-admin ping --protocol=tcp --host=127.0.0.1 --port=\"$AGAPORNIS_DATABASE_PORT\" --user=root --password=\"$MARIADB_ROOT_PASSWORD\" --silent";

/// The command that tells whether the database of an environment is up.
pub open spec fn health_command(env: Seq<Seq<char>>) -> Option<Seq<char>> {
    if text::any_begins(env, "POSTGRES_PASSWORD="@) {
        Some(POSTGRES_HEALTH@)
    } else if text::any_begins(env, "MYSQL_ROOT_PASSWORD="@) {
        Some(MYSQL_HEALTH@)
    } else if text::any_begins(env, "MARIADB_ROOT_PASSWORD="@) {
        Some(MARIADB_HEALTH@)
    } else {
        None
    }
}

/// The command that tells whether the database of an environment is up.
pub fn database_health_command(env: &Vec<String>) -> (r: Option<String>)
    ensures
        text::opt_view(r) == health_command(text::views(env@)),
{
    if text::some_starts_with(env, "POSTGRES_PASSWORD=") {
        Some(POSTGRES_HEALTH.to_owned())
    } else if text::some_starts_with(env, "MYSQL_ROOT_PASSWORD=") {
        Some(MYSQL_HEALTH.to_owned())
    } else if text::some_starts_with(env, "MARIADB_ROOT_PASSWORD=") {
        Some(MARIADB_HEALTH.to_owned())
    } else {
        None
    }
}

/// The port that a server listens on inside its container, or why it is refused: that of its
/// database, else what it asks for, else none.
pub open spec fn listening_port(internal_port: Seq<char>, env: Seq<Seq<char>>) -> Result<
    Option<Seq<char>>,
    Seq<char>,
> {
    let value = text::trimmed(internal_port);
    let (raw, protocol) = match text::split_first(value, '/') {
        Some(p) => p,
        None => (value, "tcp"@),
    };
    match named_port(env) {
        Some(port) => Ok(Some(port_key(port as nat, "tcp"@))),
        None => if value.len() == 0 {
            Ok(None)
        } else if port_number(raw) is None {
            Err("Invalid internal port '"@ + internal_port + "'."@)
        } else if !(protocol == "tcp"@ || protocol == "udp"@ || protocol == "sctp"@) {
            Err("Invalid internal port protocol '"@ + protocol + "'."@)
        } else {
            Ok(Some(port_key(port_number(raw)->0 as nat, protocol)))
        },
    }
}

/// The port that a server listens on inside its container.
pub fn effective_internal_port(internal_port: &str, env: &Vec<String>) -> (r: Result<
    Option<String>,
    Failure,
>)
    ensures
        ({
            let port = listening_port(internal_port@, text::views(env@));
            &&& r is Ok <==> port is Ok
            &&& r is Ok ==> text::opt_view(r->Ok_0) == port->Ok_0
            &&& r is Err ==> r->Err_0.message@ == port->Err_0
        }),
{
    if let Some(port) = database_port(env) {
        let shown = text::decimal_string(port as u64);
        return Ok(Some(text::concat3(shown.as_str(), "/", "tcp")));
    }
    let value = text::trim(internal_port);
    if text::is_empty(value.as_str()) {
        return Ok(None);
    }
    let (raw, protocol) = match text::split_once(value.as_str(), '/') {
        Some(p) => p,
        None => (value, "tcp".to_owned()),
    };
    let port = match parse_port(raw.as_str()) {
        Some(port) => port,
        None => {
            return Err(
                Failure { message: text::concat3("Invalid internal port '", internal_port, "'.") },
            );
        },
    };
    if !(text::same(protocol.as_str(), "tcp") || text::same(protocol.as_str(), "udp")
        || text::same(protocol.as_str(), "sctp")) {
        return Err(
            Failure {
                message: text::concat3(
                    "Invalid internal port protocol '",
                    protocol.as_str(),
                    "'.",
                ),
            },
        );
    }
    let shown = text::decimal_string(port as u64);
    Ok(Some(text::concat3(shown.as_str(), "/", protocol.as_str())))
}

// ---------------------------------------------------------------------------------------------
// Laws.

/// An option stands in a command line with its value right behind it.
pub open spec fn gives(arguments: Seq<Seq<char>>, option: Seq<char>, value: Seq<char>) -> bool {
    exists|i: int|
        0 <= i < arguments.len() - 1 && #[trigger] arguments[i] == option && arguments[i + 1]
            == value
}

/// The client that tests a connection is that of the type of database, and is told the host, the
/// port, the user and the database that are asked for; the password it gets by its environment.
pub proof fn law_the_named_database_is_asked(spec: DatabaseConnectionSpec)
    ensures
        client(spec) is Some <==> spec.database_type@ == "mysql"@ || spec.database_type@
            == "mariadb"@ || spec.database_type@ == "postgres"@,
        client(spec) is Some ==> ({
            let (key, program, arguments) = client(spec)->0;
            &&& gives(arguments, "--host"@, spec.host@)
            &&& gives(arguments, "--port"@, text::signed_decimal(spec.port as int))
            &&& arguments.contains(spec.database_name@)
            &&& arguments.last() == "SELECT 1"@
            &&& spec.database_type@ == "postgres"@ ==> program == "psql"@ && key == "PGPASSWORD"@
                && gives(arguments, "--username"@, spec.username@) && gives(
                arguments,
                "--dbname"@,
                spec.database_name@,
            ) && gives(arguments, "--command"@, "SELECT 1"@)
            &&& spec.database_type@ != "postgres"@ ==> program == spec.database_type@ && key
                == "MYSQL_PWD"@ && gives(arguments, "--user"@, spec.username@) && gives(
                arguments,
                "--execute"@,
                "SELECT 1"@,
            )
        }),
{
    reveal_strlit("mysql");
    reveal_strlit("mariadb");
    reveal_strlit("postgres");
    assert("mysql"@.len() == 5 && "mariadb"@.len() == 7 && "postgres"@.len() == 8);
    let m = mysql_arguments(spec);
    let p = postgres_arguments(spec);
    assert(m[1] == "--host"@ && m[2] == spec.host@);
    assert(m[3] == "--port"@);
    assert(m[5] == "--user"@);
    assert(m[7] == spec.database_name@);
    assert(m[8] == "--execute"@);
    assert(p[0] == "--host"@ && p[1] == spec.host@);
    assert(p[2] == "--port"@);
    assert(p[4] == "--username"@);
    assert(p[6] == "--dbname"@);
    assert(p[7] == spec.database_name@);
    assert(p[8] == "--command"@);
}

/// A connection is tested exactly where server and host have proper names, the port is one, and
/// neither database, user, password nor image is missing.
pub proof fn law_complete_connections_are_tested(spec: DatabaseConnectionSpec)
    ensures
        spec_refusal(spec) is None <==> valid_id(spec.server_id@) && valid_id(spec.host@) && 1
            <= spec.port <= 65535 && !text::is_blank(spec.database_name@) && !text::is_blank(
            spec.username@,
        ) && spec.password@.len() > 0 && !text::is_blank(spec.docker_image@),
{
}

/// A connection that failed is explained by what the client wrote, else by what Docker says.
pub proof fn law_failed_connections_are_explained(logs: Seq<u8>, error: Seq<char>)
    ensures
        text::trimmed(lossy(logs)).len() > 0 ==> probe_detail(logs, Some(error)) == text::trimmed(
            lossy(logs),
        ) && probe_detail(logs, None) == text::trimmed(lossy(logs)),
        text::trimmed(lossy(logs)).len() == 0 ==> probe_detail(logs, Some(error)) == error,
{
}

/// An environment names the port of a database in the first entry that sets it to a port number.
pub proof fn law_the_first_named_port_counts(env: Seq<Seq<char>>)
    ensures
        match named_port(env) {
            Some(port) => exists|i: int|
                0 <= i < env.len() && entry_port(#[trigger] env[i]) == Some(port) && forall|k: int|
                    0 <= k < i ==> entry_port(#[trigger] env[k]) is None,
            None => forall|k: int| 0 <= k < env.len() ==> entry_port(#[trigger] env[k]) is None,
        },
    decreases env.len(),
{
    if env.len() > 0 {
        let rest = env.drop_first();
        law_the_first_named_port_counts(rest);
        if entry_port(env[0]) is None {
            match named_port(env) {
                Some(port) => {
                    let i = choose|i: int|
                        0 <= i < rest.len() && entry_port(#[trigger] rest[i]) == Some(port)
                            && forall|k: int| 0 <= k < i ==> entry_port(#[trigger] rest[k]) is None;
                    assert(env[i + 1] == rest[i]);
                    assert forall|k: int| 0 <= k < i + 1 implies entry_port(
                        #[trigger] env[k],
                    ) is None by {
                        if k > 0 {
                            assert(env[k] == rest[k - 1]);
                        }
                    }
                },
                None => {
                    assert forall|k: int| 0 <= k < env.len() implies entry_port(
                        #[trigger] env[k],
                    ) is None by {
                        if k > 0 {
                            assert(env[k] == rest[k - 1]);
                        }
                    }
                },
            }
        } else {
            assert(entry_port(env[0]) == named_port(env));
        }
    }
}

/// An entry names a port by its number; other entries name none.
pub proof fn law_entries_name_ports(n: nat, entry: Seq<char>)
    ensures
        n <= 65535 ==> entry_port("AGAPORNIS_DATABASE_PORT="@ + text::decimal(n)) == Some(n as u16),
        n > 65535 ==> entry_port("AGAPORNIS_DATABASE_PORT="@ + text::decimal(n)) is None,
        !text::begins(entry, "AGAPORNIS_DATABASE_PORT="@) ==> entry_port(entry) is None,
{
    text::law_decimal_reads_back(n);
    text::law_prefixes_and_suffixes("AGAPORNIS_DATABASE_PORT="@, text::decimal(n), entry);
}

/// A container is checked as the database that its environment has a password for, and not at all
/// where it has none. A password for PostgreSQL comes before the others, one for MySQL before one
/// for MariaDB.
pub proof fn law_databases_are_checked_by_their_kind(env: Seq<Seq<char>>, i: int)
    requires
        0 <= i < env.len(),
    ensures
        text::begins(env[i], "POSTGRES_PASSWORD="@) ==> health_command(env)
            == Some(POSTGRES_HEALTH@),
        text::begins(env[i], "MYSQL_ROOT_PASSWORD="@) && !text::any_begins(
            env,
            "POSTGRES_PASSWORD="@,
        ) ==> health_command(env) == Some(MYSQL_HEALTH@),
        text::begins(env[i], "MARIADB_ROOT_PASSWORD="@) && !text::any_begins(
            env,
            "POSTGRES_PASSWORD="@,
        ) && !text::any_begins(env, "MYSQL_ROOT_PASSWORD="@) ==> health_command(env)
            == Some(MARIADB_HEALTH@),
        (forall|k: int|
            0 <= k < env.len() ==> !text::begins(#[trigger] env[k], "POSTGRES_PASSWORD="@)
                && !text::begins(env[k], "MYSQL_ROOT_PASSWORD="@) && !text::begins(
                env[k],
                "MARIADB_ROOT_PASSWORD="@,
            )) ==> health_command(env) is None,
{
}

/// A server listens on the port of its database, whatever else it asks for; without one on the port
/// that it asks for, over TCP where it names no protocol; and without either on none.
pub proof fn law_servers_listen_where_they_ask(n: nat, env: Seq<Seq<char>>, protocol: Seq<char>)
    requires
        protocol == "tcp"@ || protocol == "udp"@ || protocol == "sctp"@,
    ensures
        named_port(env) is Some ==> listening_port(text::decimal(n), env) == Ok::<
            Option<Seq<char>>,
            Seq<char>,
        >(Some(text::decimal(named_port(env)->0 as nat) + "/"@ + "tcp"@)),
        named_port(env) is None && n <= 65535 ==> listening_port(text::decimal(n), env) == Ok::<
            Option<Seq<char>>,
            Seq<char>,
        >(Some(text::decimal(n) + "/"@ + "tcp"@)) && listening_port(
            text::decimal(n) + "/"@ + protocol,
            env,
        ) == Ok::<Option<Seq<char>>, Seq<char>>(Some(text::decimal(n) + "/"@ + protocol)),
        named_port(env) is None && n > 65535 ==> listening_port(text::decimal(n), env) is Err
            && listening_port(text::decimal(n) + "/"@ + protocol, env) is Err,
        named_port(env) is None ==> listening_port(Seq::empty(), env) == Ok::<
            Option<Seq<char>>,
            Seq<char>,
        >(None),
{
    reveal_strlit("/");
    reveal_strlit("tcp");
    reveal_strlit("udp");
    reveal_strlit("sctp");
    let number = text::decimal(n);
    text::law_decimal_reads_back(n);
    assert(text::is_digit(number[0]) && text::is_digit(number[number.len() - 1]));
    assert(text::trimmed(number) == number);
    let key = number + "/"@ + protocol;
    assert(key[0] == number[0]);
    assert(key.last() == protocol.last());
    assert(text::trimmed(key) == key);
    assert forall|k: int| 0 <= k < number.len() implies number[k] != '/' by {
        assert(text::is_digit(number[k]));
    }
    text::lemma_index_of_unique(number, '/', number.len() as int);
    assert(key[number.len() as int] == '/');
    text::lemma_index_of_unique(key, '/', number.len() as int);
    assert(key.take(number.len() as int) =~= number);
    assert(key.skip(number.len() as int + 1) =~= protocol);
    assert(text::trimmed(Seq::<char>::empty()).len() == 0);
}

} // verus!
