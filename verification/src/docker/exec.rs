//! Commands inside containers, and commands typed into their consoles.

use crate::console::decoder::OutputStream;
use crate::error::Failure;
use crate::json::{bool_of, inner_of, Json, JsonView};
use crate::process::{lossy, lossy_text, utf8_text};
use crate::table::Table;
use crate::text;
use vstd::prelude::*;

verus! {

/// How long a line may take to be written to a console, in seconds.
pub const CONSOLE_WRITE_SECONDS: u64 = 3;

/// The most bytes of one line of a command's output.
pub const EXEC_OUTPUT_CAPACITY: usize = 1_048_576;

/// The most bytes of a command's output.
pub const EXEC_CAPTURE_LIMIT: usize = 8_388_608;

/// The beginning of some bytes that fits.
pub open spec fn head(bytes: Seq<u8>, room: nat) -> Seq<u8> {
    if bytes.len() <= room {
        bytes
    } else {
        bytes.take(room as int)
    }
}

/// Appends the bytes `from..to` of `bytes`.
pub fn append_range(output: &mut Vec<u8>, bytes: &[u8], from: usize, to: usize)
    requires
        from <= to <= bytes@.len(),
    ensures
        final(output)@ == old(output)@ + bytes@.subrange(from as int, to as int),
{
    let ghost start = output@;
    let mut i: usize = from;
    assert(output@ =~= start + bytes@.subrange(from as int, from as int));
    while i < to
        invariant
            from <= i <= to <= bytes@.len(),
            output@ == start + bytes@.subrange(from as int, i as int),
        decreases to - i,
    {
        output.push(bytes[i]);
        assert(output@ =~= start + bytes@.subrange(from as int, i as int + 1));
        i += 1;
    }
}

/// Appends as many bytes as there is room for, and says whether some were left out.
pub fn append_exec_output(output: &mut Vec<u8>, bytes: &[u8], remaining: usize) -> (r: bool)
    ensures
        final(output)@ == old(output)@ + head(bytes@, remaining as nat),
        r == (bytes@.len() > remaining),
{
    let length: usize = if bytes.len() <= remaining {
        bytes.len()
    } else {
        remaining
    };
    append_range(output, bytes, 0, length);
    assert(bytes@.subrange(0, length as int) =~= head(bytes@, remaining as nat));
    length != bytes.len()
}

/// What a command has written so far.
pub struct ExecCapture {
    pub stdout: Vec<u8>,
    pub stderr: Vec<u8>,
    pub truncated: bool,
}

/// The room that one stream has for a chunk, where so many bytes were kept of the other one.
pub open spec fn room(other: nat) -> nat {
    if other <= EXEC_CAPTURE_LIMIT {
        (EXEC_CAPTURE_LIMIT - other) as nat
    } else {
        0
    }
}

impl ExecCapture {
    /// Nothing was written.
    pub fn new() -> (r: ExecCapture)
        ensures
            r.stdout@.len() == 0,
            r.stderr@.len() == 0,
            !r.truncated,
    {
        ExecCapture { stdout: Vec::new(), stderr: Vec::new(), truncated: false }
    }

    /// Takes in a chunk of output. The room for a chunk is the limit less what was kept of the
    /// other stream; what was kept of its own stream before does not count.
    pub fn take(&mut self, stream: OutputStream, message: &[u8])
        ensures
            ({
                let to_stdout = stream == OutputStream::StdOut || stream == OutputStream::Console;
                let to_stderr = stream == OutputStream::StdErr;
                let space = if to_stdout {
                    room(old(self).stderr@.len())
                } else {
                    room(old(self).stdout@.len())
                };
                &&& final(self).stdout@ == if to_stdout {
                    old(self).stdout@ + head(message@, space)
                } else {
                    old(self).stdout@
                }
                &&& final(self).stderr@ == if to_stderr {
                    old(self).stderr@ + head(message@, space)
                } else {
                    old(self).stderr@
                }
                &&& final(self).truncated == (old(self).truncated || ((to_stdout || to_stderr)
                    && message@.len() > space))
            }),
    {
        match stream {
            OutputStream::StdOut | OutputStream::Console => {
                let space = EXEC_CAPTURE_LIMIT.saturating_sub(self.stderr.len());
                let cut = append_exec_output(&mut self.stdout, message, space);
                self.truncated = self.truncated || cut;
            },
            OutputStream::StdErr => {
                let space = EXEC_CAPTURE_LIMIT.saturating_sub(self.stdout.len());
                let cut = append_exec_output(&mut self.stderr, message, space);
                self.truncated = self.truncated || cut;
            },
            OutputStream::StdIn => {},
        }
    }

    /// What a failed command says for itself.
    pub open spec fn detail(&self) -> Seq<char> {
        let err = text::trimmed(lossy(self.stderr@));
        let out = text::trimmed(lossy(self.stdout@));
        if err.len() > 0 {
            err
        } else if out.len() > 0 {
            out
        } else {
            "command returned no output"@
        }
    }

    /// Why a command that ended failed.
    pub open spec fn failure(&self, exit_code: Option<i64>) -> Option<Seq<char>> {
        let code = match exit_code {
            Some(c) => c as int,
            None => -1int,
        };
        if self.truncated {
            Some(
                "command output exceeded the "@ + text::decimal(EXEC_CAPTURE_LIMIT as nat)
                    + " byte capture limit"@,
            )
        } else if code != 0 {
            Some(
                "command exited with status "@ + text::signed_decimal(code) + ": "@
                    + self.detail(),
            )
        } else if !vstd::utf8::valid_utf8(self.stdout@) {
            Some("container command returned non-UTF-8 output"@)
        } else {
            None
        }
    }

    /// The result of a command that ended: its output, or why it failed.
    pub fn result(self, exit_code: Option<i64>) -> (r: Result<String, Failure>)
        ensures
            r is Ok <==> self.failure(exit_code) is None,
            r is Ok ==> r->Ok_0@ == vstd::utf8::decode_utf8(self.stdout@),
            r is Err ==> Some(r->Err_0.message@) == self.failure(exit_code),
    {
        let code: i64 = match exit_code {
            Some(c) => c,
            None => -1,
        };
        if self.truncated {
            let limit = text::decimal_string(EXEC_CAPTURE_LIMIT as u64);
            return Err(
                Failure {
                    message: text::concat3(
                        "command output exceeded the ",
                        limit.as_str(),
                        " byte capture limit",
                    ),
                },
            );
        }
        if code != 0 {
            let err = text::trim(lossy_text(self.stderr.as_slice()).as_str());
            let out = text::trim(lossy_text(self.stdout.as_slice()).as_str());
            let detail = if !text::is_empty(err.as_str()) {
                err
            } else if !text::is_empty(out.as_str()) {
                out
            } else {
                "command returned no output".to_owned()
            };
            let shown = text::signed_decimal_string(code);
            return Err(
                Failure {
                    message: text::concat4(
                        "command exited with status ",
                        shown.as_str(),
                        ": ",
                        detail.as_str(),
                    ),
                },
            );
        }
        match utf8_text(self.stdout) {
            Some(s) => Ok(s),
            None => Err(Failure::new("container command returned non-UTF-8 output")),
        }
    }
}

// ---------------------------------------------------------------------------------------------
// Console commands.

/// A text without line ends at its end.
pub open spec fn without_line_end(s: Seq<char>) -> Seq<char>
    decreases s.len(),
{
    if s.len() > 0 && (s.last() == '\r' || s.last() == '\n') {
        without_line_end(s.drop_last())
    } else {
        s
    }
}

fn strip_line_end(s: &str) -> (r: String)
    ensures
        r@ == without_line_end(s@),
{
    let cs = text::chars_of(s);
    let mut end: usize = cs.len();
    assert(cs@.subrange(0, end as int) =~= s@);
    while end > 0 && (cs[end - 1] == '\r' || cs[end - 1] == '\n')
        invariant
            end <= cs@.len(),
            without_line_end(s@) == without_line_end(cs@.subrange(0, end as int)),
        decreases end,
    {
        assert(cs@.subrange(0, end as int).drop_last() =~= cs@.subrange(0, end - 1));
        end -= 1;
    }
    text::string_range(cs.as_slice(), 0, end)
}

/// A truth value of an inspected container; false where it is not given.
pub open spec fn flag(inspect: JsonView, outer: Seq<char>, name: Seq<char>) -> bool {
    bool_of(inner_of(inspect, outer, name)) == Some(true)
}

fn read_flag(inspect: &Json, outer: &str, name: &str) -> (r: bool)
    ensures
        r == flag(inspect@, outer@, name@),
{
    match inspect.inner_bool(outer, name) {
        Some(b) => b,
        None => false,
    }
}

/// Why a container takes no commands.
pub open spec fn console_refusal(inspect: JsonView) -> Option<Seq<char>> {
    if !flag(inspect, "State"@, "Running"@) {
        Some("server container is not running"@)
    } else if !flag(inspect, "Config"@, "OpenStdin"@) {
        Some(
            "server container was created without persistent stdin; recreate it before sending console commands"@,
        )
    } else if flag(inspect, "Config"@, "StdinOnce"@) {
        Some(
            "legacy container has StdinOnce enabled; recreate it with OpenStdin=true and StdinOnce=false before sending console commands"@,
        )
    } else {
        None
    }
}

/// The line that is written to a container's console for a command.
pub fn console_line(inspect: &Json, command: &str) -> (r: Result<String, Failure>)
    ensures
        r is Ok <==> console_refusal(inspect@) is None,
        r is Ok ==> r->Ok_0@ == without_line_end(command@) + "\n"@,
        r is Err ==> Some(r->Err_0.message@) == console_refusal(inspect@),
{
    if !read_flag(inspect, "State", "Running") {
        return Err(Failure::new("server container is not running"));
    }
    if !read_flag(inspect, "Config", "OpenStdin") {
        return Err(
            Failure::new(
                "server container was created without persistent stdin; recreate it before sending console commands",
            ),
        );
    }
    if read_flag(inspect, "Config", "StdinOnce") {
        return Err(
            Failure::new(
                "legacy container has StdinOnce enabled; recreate it with OpenStdin=true and StdinOnce=false before sending console commands",
            ),
        );
    }
    let line = strip_line_end(command);
    Ok(text::concat2(line.as_str(), "\n"))
}

/// What follows in sending a command.
#[derive(Clone, Copy, PartialEq, Eq, Structural)]
pub enum SendStep {
    /// Attach to the console anew, then write.
    Reconnect,
    Write,
    Done,
    Fail,
}

/// How a write to a console may be begun, given whether the attachment has ended.
pub fn begin_send(attachment_ended: bool) -> (r: SendStep)
    ensures
        r == if attachment_ended {
            SendStep::Reconnect
        } else {
            SendStep::Write
        },
{
    if attachment_ended {
        SendStep::Reconnect
    } else {
        SendStep::Write
    }
}

/// What follows a write: a first one that failed is tried once more on a new attachment.
pub fn after_write(written: bool, retried: bool) -> (r: SendStep)
    ensures
        r == if written {
            SendStep::Done
        } else if retried {
            SendStep::Fail
        } else {
            SendStep::Reconnect
        },
{
    if written {
        SendStep::Done
    } else if retried {
        SendStep::Fail
    } else {
        SendStep::Reconnect
    }
}

/// The attachments to the consoles of containers, over which commands are written.
#[verifier::reject_recursive_types(T)]
pub struct Attachments<T> {
    pub all: Table<T>,
}

/// The attachments once one was offered for a container: one that is there already is kept.
pub open spec fn settled<T>(all: Map<Seq<char>, T>, id: Seq<char>, candidate: T) -> Map<
    Seq<char>,
    T,
> {
    if all.contains_key(id) {
        all
    } else {
        all.insert(id, candidate)
    }
}

impl<T> Attachments<T> {
    /// Nothing is attached.
    pub fn new() -> (r: Attachments<T>)
        ensures
            r.all@ == Map::<Seq<char>, T>::empty(),
    {
        Attachments { all: Table::new() }
    }

    /// The attachment that commands of a container are written over.
    pub fn get(&self, id: &str) -> (r: Option<&T>)
        ensures
            r == if self.all@.contains_key(id@) {
                Some(&self.all@[id@])
            } else {
                None
            },
    {
        self.all.get(id)
    }

    /// Offers an attachment that was made because there was none. Where another request was
    /// faster, its attachment is kept and the offered one is handed back.
    pub fn settle(&mut self, id: &str, candidate: T) -> (r: Option<T>)
        ensures
            final(self).all@ == settled(old(self).all@, id@, candidate),
            r == if old(self).all@.contains_key(id@) {
                Some(candidate)
            } else {
                None
            },
    {
        if self.all.contains_key(id) {
            Some(candidate)
        } else {
            self.all.insert(id.to_owned(), candidate);
            None
        }
    }

    /// Takes the attachment to a container that was started, in place of any before it.
    pub fn attach(&mut self, id: &str, attachment: T)
        ensures
            final(self).all@ == old(self).all@.insert(id@, attachment),
    {
        self.all.insert(id.to_owned(), attachment);
    }

    /// Lets go of the attachment to a container.
    pub fn detach(&mut self, id: &str) -> (r: Option<T>)
        ensures
            final(self).all@ == old(self).all@.remove(id@),
            r == if old(self).all@.contains_key(id@) {
                Some(old(self).all@[id@])
            } else {
                None
            },
    {
        self.all.remove(id)
    }
}

/// How often the console's echo is tried to be switched off, and the pause between two tries, in
/// milliseconds.
pub const ECHO_ATTEMPTS: u32 = 5;

pub const ECHO_RETRY_MILLIS: u64 = 150;

/// The command that switches a console's echo off.
pub const ECHO_COMMAND: &'static str = "stty -echo < /proc/1/fd/0";

/// What follows in switching a console's echo off.
#[derive(Clone, Copy, PartialEq, Eq, Structural)]
pub enum EchoStep {
    Done,
    Retry,
    GiveUp,
}

/// Whether a console has an echo to be switched off: one without a terminal has none.
pub fn has_echo(inspect: Option<&Json>) -> (r: bool)
    ensures
        r == match inspect {
            Some(i) => bool_of(inner_of(i@, "Config"@, "Tty"@)) != Some(false),
            None => true,
        },
{
    match inspect {
        Some(i) => match i.inner_bool("Config", "Tty") {
            Some(tty) => tty,
            None => true,
        },
        None => true,
    }
}

/// What follows the try with the given number, counted from 1.
pub fn after_echo_attempt(attempt: u32, succeeded: bool) -> (r: EchoStep)
    ensures
        r == if succeeded {
            EchoStep::Done
        } else if attempt < ECHO_ATTEMPTS {
            EchoStep::Retry
        } else {
            EchoStep::GiveUp
        },
{
    if succeeded {
        EchoStep::Done
    } else if attempt < ECHO_ATTEMPTS {
        EchoStep::Retry
    } else {
        EchoStep::GiveUp
    }
}

// ---------------------------------------------------------------------------------------------
// Laws.

/// A chunk never takes more than the limit, and none at all once the other stream holds as much as
/// the limit says.
pub proof fn law_chunks_are_limited(message: Seq<u8>, other: nat)
    ensures
        head(message, room(other)).len() <= EXEC_CAPTURE_LIMIT,
        other >= EXEC_CAPTURE_LIMIT ==> head(message, room(other)).len() == 0,
        head(message, room(other)) == message <==> message.len() + other <= EXEC_CAPTURE_LIMIT
            || message.len() == 0,
{
    if message.len() > room(other) {
        assert(head(message, room(other)).len() < message.len());
    }
}

/// There is one attachment for the commands of a container: whatever is offered after the first,
/// and however many requests offer one, the first is kept and used again. Other containers keep
/// theirs.
pub proof fn law_one_attachment_is_used_again<T>(
    all: Map<Seq<char>, T>,
    id: Seq<char>,
    first: T,
    second: T,
    other: Seq<char>,
)
    requires
        other != id,
    ensures
        settled(all, id, first).contains_key(id),
        settled(settled(all, id, first), id, second) == settled(all, id, first),
        all.contains_key(id) ==> settled(all, id, first)[id] == all[id],
        !all.contains_key(id) ==> settled(all, id, first)[id] == first,
        settled(all, id, first).contains_key(other) == all.contains_key(other),
        all.contains_key(other) ==> settled(all, id, first)[other] == all[other],
{
}

/// A command succeeded exactly where it ended with the status zero and all of its output was kept
/// and is text. Without a status it failed.
pub proof fn law_commands_succeed_with_status_zero(capture: ExecCapture, exit_code: Option<i64>)
    ensures
        capture.failure(exit_code) is None <==> !capture.truncated && exit_code == Some(0i64)
            && vstd::utf8::valid_utf8(capture.stdout@),
{
}

/// A command that failed is reported with its status and its errors; with what else it wrote where
/// it wrote no errors.
pub proof fn law_failed_commands_are_quoted(capture: ExecCapture, code: i64)
    requires
        !capture.truncated,
        code != 0,
    ensures
        ({
            let err = text::trimmed(lossy(capture.stderr@));
            let out = text::trimmed(lossy(capture.stdout@));
            let head = "command exited with status "@ + text::signed_decimal(code as int) + ": "@;
            &&& err.len() > 0 ==> capture.failure(Some(code)) == Some(head + err)
            &&& err.len() == 0 && out.len() > 0 ==> capture.failure(Some(code)) == Some(head + out)
        }),
{
}

proof fn lemma_line_ends_go(s: Seq<char>, ends: Seq<char>)
    requires
        s.len() == 0 || s.last() != '\r' && s.last() != '\n',
        forall|i: int| 0 <= i < ends.len() ==> ends[i] == '\r' || ends[i] == '\n',
    ensures
        without_line_end(s + ends) == s,
    decreases ends.len(),
{
    if ends.len() == 0 {
        assert(s + ends =~= s);
    } else {
        assert((s + ends).drop_last() =~= s + ends.drop_last());
        assert((s + ends).last() == ends.last());
        lemma_line_ends_go(s, ends.drop_last());
    }
}

/// A command reaches the console as it was given: nothing of it is lost but the line ends behind it.
pub proof fn law_commands_lose_only_line_ends(s: Seq<char>, ends: Seq<char>)
    requires
        s.len() == 0 || s.last() != '\r' && s.last() != '\n',
        forall|i: int| 0 <= i < ends.len() ==> ends[i] == '\r' || ends[i] == '\n',
    ensures
        without_line_end(s + ends) == s,
        without_line_end(s) == s,
{
    lemma_line_ends_go(s, ends);
    lemma_line_ends_go(s, Seq::empty());
    assert(s + Seq::<char>::empty() =~= s);
}

/// A console takes commands exactly where its container runs, was created with an input, and keeps
/// that input open once a writer has gone.
pub proof fn law_open_consoles_take_commands(inspect: JsonView)
    ensures
        console_refusal(inspect) is None <==> bool_of(inner_of(inspect, "State"@, "Running"@))
            == Some(true) && bool_of(inner_of(inspect, "Config"@, "OpenStdin"@)) == Some(true)
            && bool_of(inner_of(inspect, "Config"@, "StdinOnce"@)) != Some(true),
{
}

/// Of a chunk that does not fit, the beginning is kept, as long as there is room.
pub proof fn law_the_beginning_of_a_chunk_is_kept(bytes: Seq<u8>, left: nat, i: int)
    ensures
        head(bytes, left).len() == if bytes.len() <= left {
            bytes.len()
        } else {
            left
        },
        0 <= i < head(bytes, left).len() ==> head(bytes, left)[i] == bytes[i],
        left <= EXEC_CAPTURE_LIMIT ==> room(left) + left == EXEC_CAPTURE_LIMIT,
        left >= EXEC_CAPTURE_LIMIT ==> room(left) == 0,
{
}

} // verus!
