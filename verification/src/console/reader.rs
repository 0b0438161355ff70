//! Following one container's output: what is new, when to reconnect, and when to stop.

use crate::console::decoder::{
    emptied, fed, leftover, ConsoleOutputDecoder, OutputStream, TRUNCATION_SUFFIX,
};
use crate::table::NameSet;
use crate::text;
use crate::time::{docker_since_timestamp, parse_stamp, since_epoch, stamp_of, Stamp};
use vstd::prelude::*;

verus! {

/// The shortest pause before a reconnect, in seconds.
pub const CONSOLE_RECONNECT_MIN: u64 = 1;

/// The longest pause before a reconnect, in seconds.
pub const CONSOLE_RECONNECT_MAX: u64 = 30;

/// A line of Docker's log as its moment and its text. A line without a timestamp is all text.
pub open spec fn dated(line: Seq<char>) -> (Option<Stamp>, Seq<char>) {
    match text::split_first(line, ' ') {
        Some((candidate, output)) => match stamp_of(candidate) {
            Some(stamp) => (Some(stamp), output),
            None => (None, line),
        },
        None => (None, line),
    }
}

/// A line of Docker's log as its moment and its text.
pub fn split_docker_timestamp(line: String) -> (r: (Option<Stamp>, String))
    ensures
        (r.0, r.1@) == dated(line@),
{
    match text::split_once(line.as_str(), ' ') {
        Some((candidate, output)) => match parse_stamp(candidate.as_str()) {
            Some(stamp) => (Some(stamp), output),
            None => (None, line),
        },
        None => (None, line),
    }
}

/// How far a reader has come: the moment of its newest line, and the lines of that moment.
pub struct Progress {
    pub cursor: Option<Stamp>,
    pub lines: NameSet,
}

/// `Progress` by its contents.
#[verifier::ext_equal]
pub struct ProgressView {
    pub cursor: Option<Stamp>,
    pub lines: Set<Seq<char>>,
}

impl View for Progress {
    type V = ProgressView;

    open spec fn view(&self) -> ProgressView {
        ProgressView { cursor: self.cursor, lines: self.lines@ }
    }
}

/// A line that was read before the reader reconnected.
pub open spec fn replayed(cutoff: ProgressView, stamp: Option<Stamp>, line: Seq<char>) -> bool {
    match (stamp, cutoff.cursor) {
        (Some(stamp), Some(cursor)) => stamp.before(cursor) || (stamp == cursor
            && cutoff.lines.contains(line)),
        _ => false,
    }
}

/// The progress after a new line.
pub open spec fn advanced(p: ProgressView, stamp: Option<Stamp>, line: Seq<char>) -> ProgressView {
    match stamp {
        Some(stamp) => match p.cursor {
            Some(cursor) => if stamp.before(cursor) {
                p
            } else if stamp == cursor {
                ProgressView { lines: p.lines.insert(line), ..p }
            } else {
                ProgressView { cursor: Some(stamp), lines: Set::empty().insert(line) }
            },
            None => ProgressView { cursor: Some(stamp), lines: Set::empty().insert(line) },
        },
        None => p,
    }
}

impl Progress {
    /// No line was read.
    pub fn new() -> (r: Progress)
        ensures
            r@ == (ProgressView { cursor: None, lines: Set::empty() }),
    {
        Progress { cursor: None, lines: NameSet::new() }
    }

    /// The same progress once more.
    pub fn copy(&self) -> (r: Progress)
        ensures
            r@ == self@,
    {
        let names = self.lines.names();
        let mut lines = NameSet::new();
        let mut i: usize = 0;
        let ghost all = text::views(names@);
        assert(all.take(0).to_set() =~= Set::empty());
        while i < names.len()
            invariant
                all == text::views(names@),
                0 <= i <= names@.len(),
                lines@ == all.take(i as int).to_set(),
            decreases names.len() - i,
        {
            lines.insert(names[i].as_str().to_owned());
            proof {
                let next = all.take(i as int + 1);
                assert(next =~= all.take(i as int).push(all[i as int]));
                assert(next[i as int] == all[i as int]);
                assert forall|k: Seq<char>|
                    next.contains(k) <==> all.take(i as int).contains(k) || k == all[i as int] by {
                    if all.take(i as int).contains(k) {
                        let j = choose|j: int| 0 <= j < i && all.take(i as int)[j] == k;
                        assert(next[j] == k);
                    }
                    if next.contains(k) {
                        let j = choose|j: int| 0 <= j < i + 1 && next[j] == k;
                        if j < i {
                            assert(all.take(i as int)[j] == k);
                        }
                    }
                }
                assert(lines@ =~= next.to_set());
            }
            i += 1;
        }
        assert(all.take(all.len() as int) =~= all);
        let r = Progress { cursor: self.cursor, lines };
        assert(r@ =~= self@);
        r
    }

    /// Takes a new line into account.
    fn advance(&mut self, stamp: Option<Stamp>, line: &str)
        ensures
            final(self)@ == advanced(old(self)@, stamp, line@),
    {
        if let Some(stamp) = stamp {
            let fresh = match self.cursor {
                Some(cursor) => {
                    if stamp.is_before(&cursor) {
                        return ;
                    }
                    stamp != cursor
                },
                None => true,
            };
            if fresh {
                self.cursor = Some(stamp);
                self.lines = NameSet::new();
            }
            self.lines.insert(line.to_owned());
        }
    }
}

/// What a reader does next.
#[derive(Clone, Copy, PartialEq, Eq, Structural)]
pub enum ReaderStep {
    /// End.
    Stop,
    /// Wait until it is woken or no viewer is left, then begin again.
    Park,
    /// Follow the container's log from the given second on.
    Follow(Option<i32>),
    /// Ask whether the container runs.
    Inspect,
    /// Begin again at once.
    Restart,
    /// Wait so many seconds, until it is woken, or no viewer is left, then begin again.
    Pause(u64),
}

/// The state of one reader.
pub struct ReaderLoop {
    pub maximum: usize,
    pub progress: Progress,
    pub cutoff: Progress,
    pub decoder: ConsoleOutputDecoder,
    pub received_new_output: bool,
    pub refresh_requested: bool,
    pub reconnect_delay: u64,
}

/// The pause after a pause of `delay` seconds that brought nothing new.
pub open spec fn backed_off(delay: u64) -> u64 {
    if 2 * delay > CONSOLE_RECONNECT_MAX {
        CONSOLE_RECONNECT_MAX
    } else {
        (2 * delay) as u64
    }
}

impl ReaderLoop {
    /// The pause before the next reconnect is within its bounds.
    pub open spec fn wf(&self) -> bool {
        CONSOLE_RECONNECT_MIN <= self.reconnect_delay <= CONSOLE_RECONNECT_MAX
    }

    /// Nothing but the flags and the pause differs.
    pub open spec fn same_position(&self, other: &ReaderLoop) -> bool {
        &&& self.maximum == other.maximum
        &&& self.progress@ == other.progress@
        &&& self.cutoff@ == other.cutoff@
        &&& self.decoder == other.decoder
    }

    /// A reader that has read nothing, for lines of at most `max_line_length` bytes with their
    /// suffix.
    pub fn new(max_line_length: usize) -> (r: ReaderLoop)
        ensures
            r.wf(),
            r.maximum == if max_line_length >= text::byte_len(TRUNCATION_SUFFIX@) {
                max_line_length - text::byte_len(TRUNCATION_SUFFIX@)
            } else {
                0
            },
            r.progress@ == (ProgressView { cursor: None, lines: Set::empty() }),
            r.cutoff@ == (ProgressView { cursor: None, lines: Set::empty() }),
            r.decoder.stdout@ == emptied(false),
            r.decoder.stderr@ == emptied(false),
            r.decoder.console@ == emptied(false),
            !r.received_new_output,
            !r.refresh_requested,
            r.reconnect_delay == CONSOLE_RECONNECT_MIN,
    {
        ReaderLoop {
            maximum: max_line_length.saturating_sub(text::byte_length(TRUNCATION_SUFFIX)),
            progress: Progress::new(),
            cutoff: Progress::new(),
            decoder: ConsoleOutputDecoder::default(),
            received_new_output: false,
            refresh_requested: false,
            reconnect_delay: CONSOLE_RECONNECT_MIN,
        }
    }

    /// Begins a round: ends when the reader is no longer the active one, waits while it is
    /// suspended, and otherwise follows the log from the newest line on.
    pub fn begin(&mut self, active: bool, suspended: bool) -> (r: ReaderStep)
        requires
            old(self).wf(),
        ensures
            final(self).wf(),
            final(self).maximum == old(self).maximum,
            final(self).reconnect_delay == old(self).reconnect_delay,
            final(self).progress@ == old(self).progress@,
            r == if !active {
                ReaderStep::Stop
            } else if suspended {
                ReaderStep::Park
            } else {
                ReaderStep::Follow(
                    match old(self).progress@.cursor {
                        Some(stamp) => Some(since_epoch(stamp.seconds)),
                        None => None,
                    },
                )
            },
            r is Follow ==> {
                &&& final(self).cutoff@ == old(self).progress@
                &&& final(self).decoder.stdout@ == emptied(false)
                &&& final(self).decoder.stderr@ == emptied(false)
                &&& final(self).decoder.console@ == emptied(false)
                &&& !final(self).received_new_output
                &&& !final(self).refresh_requested
            },
            !(r is Follow) ==> *final(self) == *old(self),
    {
        if !active {
            return ReaderStep::Stop;
        }
        if suspended {
            return ReaderStep::Park;
        }
        self.cutoff = self.progress.copy();
        self.decoder = ConsoleOutputDecoder::default();
        self.received_new_output = false;
        self.refresh_requested = false;
        ReaderStep::Follow(
            match self.progress.cursor {
                Some(stamp) => Some(docker_since_timestamp(&stamp)),
                None => None,
            },
        )
    }

    /// Takes in a chunk of output and hands out the lines that it completes, with their
    /// timestamps.
    pub fn output(&mut self, stream: OutputStream, message: &[u8]) -> (r: Vec<String>)
        requires
            old(self).wf(),
        ensures
            final(self).wf(),
            final(self).maximum == old(self).maximum,
            final(self).progress@ == old(self).progress@,
            final(self).cutoff@ == old(self).cutoff@,
            final(self).received_new_output == old(self).received_new_output,
            final(self).refresh_requested == old(self).refresh_requested,
            final(self).reconnect_delay == old(self).reconnect_delay,
            final(self).decoder.stdout@ == if stream == OutputStream::StdOut {
                fed(old(self).decoder.stdout@, message@, old(self).maximum as nat).0
            } else {
                old(self).decoder.stdout@
            },
            final(self).decoder.stderr@ == if stream == OutputStream::StdErr {
                fed(old(self).decoder.stderr@, message@, old(self).maximum as nat).0
            } else {
                old(self).decoder.stderr@
            },
            final(self).decoder.console@ == if stream == OutputStream::Console {
                fed(old(self).decoder.console@, message@, old(self).maximum as nat).0
            } else {
                old(self).decoder.console@
            },
            text::views(r@) == match stream {
                OutputStream::StdOut => fed(
                    old(self).decoder.stdout@,
                    message@,
                    old(self).maximum as nat,
                ).1,
                OutputStream::StdErr => fed(
                    old(self).decoder.stderr@,
                    message@,
                    old(self).maximum as nat,
                ).1,
                OutputStream::Console => fed(
                    old(self).decoder.console@,
                    message@,
                    old(self).maximum as nat,
                ).1,
                OutputStream::StdIn => Seq::empty(),
            },
    {
        let maximum = self.maximum;
        self.decoder.push(stream, message, maximum)
    }

    /// The text of a log line that is to be published, or none for a line that was read before
    /// the reader reconnected. A new line moves the reader's progress.
    pub fn accept(&mut self, raw_line: String) -> (r: Option<String>)
        requires
            old(self).wf(),
        ensures
            final(self).wf(),
            final(self).maximum == old(self).maximum,
            final(self).cutoff@ == old(self).cutoff@,
            final(self).decoder == old(self).decoder,
            final(self).received_new_output == old(self).received_new_output,
            final(self).refresh_requested == old(self).refresh_requested,
            final(self).reconnect_delay == old(self).reconnect_delay,
            ({
                let (stamp, line) = dated(raw_line@);
                if replayed(old(self).cutoff@, stamp, line) {
                    r is None && final(self).progress@ == old(self).progress@
                } else {
                    &&& text::opt_view(r) == Some(line)
                    &&& final(self).progress@ == advanced(old(self).progress@, stamp, line)
                }
            }),
    {
        let (stamp, line) = split_docker_timestamp(raw_line);
        if let (Some(stamp), Some(cutoff)) = (stamp, self.cutoff.cursor) {
            if stamp.is_before(&cutoff) || (stamp == cutoff && self.cutoff.lines.contains(
                line.as_str(),
            )) {
                return None;
            }
        }
        self.progress.advance(stamp, line.as_str());
        Some(line)
    }

    /// Notes that a line was published.
    pub fn published(&mut self)
        requires
            old(self).wf(),
        ensures
            final(self).wf(),
            final(self).same_position(old(self)),
            final(self).received_new_output,
            final(self).refresh_requested == old(self).refresh_requested,
            final(self).reconnect_delay == old(self).reconnect_delay,
    {
        self.received_new_output = true;
    }

    /// Ends the stream, because the reader was woken or because the log ended, and hands out what
    /// is left of its lines.
    pub fn ended(&mut self, woken: bool) -> (r: Vec<String>)
        requires
            old(self).wf(),
        ensures
            final(self).wf(),
            final(self).maximum == old(self).maximum,
            final(self).progress@ == old(self).progress@,
            final(self).cutoff@ == old(self).cutoff@,
            final(self).received_new_output == old(self).received_new_output,
            final(self).refresh_requested == woken,
            final(self).reconnect_delay == old(self).reconnect_delay,
            text::views(r@) == leftover(old(self).decoder.stdout@) + leftover(
                old(self).decoder.stderr@,
            ) + leftover(old(self).decoder.console@),
            final(self).decoder.stdout@ == emptied(false),
            final(self).decoder.stderr@ == emptied(false),
            final(self).decoder.console@ == emptied(false),
    {
        self.refresh_requested = woken;
        let mut decoder = ConsoleOutputDecoder::default();
        core::mem::swap(&mut decoder, &mut self.decoder);
        decoder.finish()
    }

    /// What follows a stream that ended.
    pub fn after_stream(&mut self, active: bool, suspended: bool) -> (r: ReaderStep)
        requires
            old(self).wf(),
        ensures
            final(self).wf(),
            final(self).same_position(old(self)),
            final(self).received_new_output == old(self).received_new_output,
            final(self).refresh_requested == old(self).refresh_requested,
            r == if !active {
                ReaderStep::Stop
            } else if suspended || old(self).refresh_requested {
                ReaderStep::Restart
            } else {
                ReaderStep::Inspect
            },
            final(self).reconnect_delay == if active && !suspended
                && old(self).refresh_requested {
                CONSOLE_RECONNECT_MIN
            } else {
                old(self).reconnect_delay
            },
    {
        if !active {
            return ReaderStep::Stop;
        }
        if suspended {
            return ReaderStep::Restart;
        }
        if self.refresh_requested {
            self.reconnect_delay = CONSOLE_RECONNECT_MIN;
            return ReaderStep::Restart;
        }
        ReaderStep::Inspect
    }

    /// What follows the answer whether the container runs: a stopped container is waited for, a
    /// running one is followed again after a pause that grows while nothing new comes.
    pub fn after_inspect(&mut self, running: bool) -> (r: ReaderStep)
        requires
            old(self).wf(),
        ensures
            final(self).wf(),
            final(self).same_position(old(self)),
            final(self).received_new_output == old(self).received_new_output,
            final(self).refresh_requested == old(self).refresh_requested,
            r == if running {
                ReaderStep::Pause(old(self).reconnect_delay)
            } else {
                ReaderStep::Park
            },
            final(self).reconnect_delay == if !running || old(self).received_new_output {
                CONSOLE_RECONNECT_MIN
            } else {
                backed_off(old(self).reconnect_delay)
            },
    {
        if !running {
            self.reconnect_delay = CONSOLE_RECONNECT_MIN;
            return ReaderStep::Park;
        }
        let delay = self.reconnect_delay;
        self.reconnect_delay = if self.received_new_output {
            CONSOLE_RECONNECT_MIN
        } else if 2 * delay > CONSOLE_RECONNECT_MAX {
            CONSOLE_RECONNECT_MAX
        } else {
            2 * delay
        };
        ReaderStep::Pause(delay)
    }

    /// Notes that the reader was woken during a pause.
    pub fn woken(&mut self)
        requires
            old(self).wf(),
        ensures
            final(self).wf(),
            final(self).same_position(old(self)),
            final(self).received_new_output == old(self).received_new_output,
            final(self).refresh_requested == old(self).refresh_requested,
            final(self).reconnect_delay == CONSOLE_RECONNECT_MIN,
    {
        self.reconnect_delay = CONSOLE_RECONNECT_MIN;
    }
}

// ---------------------------------------------------------------------------------------------
// Laws.

/// The progress after a row of log lines, read with the given cutoff.
pub open spec fn progressed(cutoff: ProgressView, p: ProgressView, lines: Seq<Seq<char>>) -> ProgressView
    decreases lines.len(),
{
    if lines.len() == 0 {
        p
    } else {
        let before = progressed(cutoff, p, lines.drop_last());
        let (stamp, line) = dated(lines.last());
        if replayed(cutoff, stamp, line) {
            before
        } else {
            advanced(before, stamp, line)
        }
    }
}

/// The newest moment that a reader has seen never moves back.
pub proof fn law_cursor_never_moves_back(
    cutoff: ProgressView,
    p: ProgressView,
    lines: Seq<Seq<char>>,
)
    ensures
        p.cursor is Some ==> {
            let now = progressed(cutoff, p, lines).cursor;
            now is Some && !now->0.before(p.cursor->0)
        },
    decreases lines.len(),
{
    if lines.len() > 0 {
        law_cursor_never_moves_back(cutoff, p, lines.drop_last());
    }
}

/// A dated line is published once: after it was taken in, a reader that reconnects skips it.
pub proof fn law_no_line_is_published_twice(p: ProgressView, stamp: Stamp, line: Seq<char>)
    ensures
        replayed(advanced(p, Some(stamp), line), Some(stamp), line),
{
}

/// What was skippable stays skippable as the reader moves on.
pub proof fn law_skipped_lines_stay_skipped(
    p: ProgressView,
    next: Option<Stamp>,
    next_line: Seq<char>,
    stamp: Option<Stamp>,
    line: Seq<char>,
)
    requires
        replayed(p, stamp, line),
    ensures
        replayed(advanced(p, next, next_line), stamp, line),
{
}

/// Nothing was read.
pub open spec fn nothing_read() -> ProgressView {
    ProgressView { cursor: None, lines: Set::empty() }
}

/// A log line carries the moment and the text.
pub open spec fn reads(raw: Seq<char>, stamp: Stamp, line: Seq<char>) -> bool {
    dated(raw) == (Some(stamp), line)
}

proof fn lemma_newest(seen: Seq<Seq<char>>)
    ensures
        ({
            let p = progressed(nothing_read(), nothing_read(), seen);
            &&& forall|i: int|
                0 <= i < seen.len() && dated(#[trigger] seen[i]).0 is Some ==> p.cursor is Some
                    && !p.cursor->0.before(dated(seen[i]).0->0)
            &&& p.cursor is Some ==> exists|i: int|
                0 <= i < seen.len() && dated(#[trigger] seen[i]).0 == p.cursor
            &&& p.cursor is Some ==> forall|line: Seq<char>| #[trigger]
                p.lines.contains(line) <==> exists|i: int|
                    0 <= i < seen.len() && #[trigger] reads(seen[i], p.cursor->0, line)
        }),
    decreases seen.len(),
{
    let p = progressed(nothing_read(), nothing_read(), seen);
    if seen.len() > 0 {
        let front = seen.drop_last();
        lemma_newest(front);
        let b = progressed(nothing_read(), nothing_read(), front);
        let (stamp, text) = dated(seen.last());
        let n = seen.len() - 1;
        assert(p == advanced(b, stamp, text));
        assert forall|i: int|
            0 <= i < seen.len() && dated(#[trigger] seen[i]).0 is Some implies p.cursor is Some
            && !p.cursor->0.before(dated(seen[i]).0->0) by {
            if i < n {
                assert(front[i] == seen[i]);
            }
        }
        if p.cursor is Some {
            assert(exists|i: int| 0 <= i < seen.len() && dated(#[trigger] seen[i]).0 == p.cursor) by {
                if p.cursor == stamp {
                    assert(dated(seen[n]).0 == p.cursor);
                } else {
                    let i = choose|i: int|
                        0 <= i < front.len() && dated(#[trigger] front[i]).0 == b.cursor;
                    assert(seen[i] == front[i]);
                }
            }
            assert forall|line: Seq<char>| #[trigger] p.lines.contains(line) <==> exists|i: int|
                0 <= i < seen.len() && #[trigger] reads(seen[i], p.cursor->0, line) by {
                if p.lines.contains(line) {
                    if stamp == p.cursor && line == text {
                        assert(reads(seen[n], p.cursor->0, line));
                    } else {
                        let i = choose|i: int|
                            0 <= i < front.len() && #[trigger] reads(front[i], b.cursor->0, line);
                        assert(reads(seen[i], p.cursor->0, line));
                    }
                }
                if exists|i: int| 0 <= i < seen.len() && #[trigger] reads(seen[i], p.cursor->0, line) {
                    let i = choose|i: int|
                        0 <= i < seen.len() && #[trigger] reads(seen[i], p.cursor->0, line);
                    if i < n {
                        assert(reads(front[i], p.cursor->0, line));
                        assert(dated(front[i]).0 is Some);
                    }
                }
            }
        }
    }
}

/// No new line is lost and no old one is shown again. Of a reader that reads `seen` and then
/// reconnects: a line without a moment is shown; one of a later moment than all that came is shown;
/// one of the newest moment is shown exactly where it did not come at that moment; and one that
/// came, or is older than the newest, is skipped.
pub proof fn law_no_new_line_is_lost(seen: Seq<Seq<char>>, stamp: Stamp, line: Seq<char>)
    ensures
        ({
            let p = progressed(nothing_read(), nothing_read(), seen);
            &&& !replayed(p, None, line)
            &&& (forall|i: int|
                0 <= i < seen.len() && dated(#[trigger] seen[i]).0 is Some ==> {
                    let s = dated(seen[i]).0->0;
                    s.seconds < stamp.seconds || s.seconds == stamp.seconds && s.nanos
                        < stamp.nanos
                }) ==> !replayed(p, Some(stamp), line)
            &&& (forall|i: int|
                0 <= i < seen.len() && dated(#[trigger] seen[i]).0 is Some ==> {
                    let s = dated(seen[i]).0->0;
                    s.seconds < stamp.seconds || s.seconds == stamp.seconds && s.nanos
                        <= stamp.nanos
                }) && (forall|i: int|
                0 <= i < seen.len() ==> !(#[trigger] reads(seen[i], stamp, line))) ==> !replayed(
                p,
                Some(stamp),
                line,
            )
            &&& (exists|i: int| 0 <= i < seen.len() && #[trigger] reads(seen[i], stamp, line))
                ==> replayed(p, Some(stamp), line)
            &&& (exists|i: int|
                0 <= i < seen.len() && dated(#[trigger] seen[i]).0 is Some && {
                    let s = dated(seen[i]).0->0;
                    stamp.seconds < s.seconds || stamp.seconds == s.seconds && stamp.nanos
                        < s.nanos
                }) ==> replayed(p, Some(stamp), line)
        }),
{
    lemma_newest(seen);
    let p = progressed(nothing_read(), nothing_read(), seen);
    if exists|i: int| 0 <= i < seen.len() && #[trigger] reads(seen[i], stamp, line) {
        let i = choose|i: int| 0 <= i < seen.len() && #[trigger] reads(seen[i], stamp, line);
        assert(dated(seen[i]).0 is Some);
        if p.cursor == Some(stamp) {
            assert(reads(seen[i], p.cursor->0, line));
        }
    }
    if p.cursor is Some {
        let i = choose|i: int| 0 <= i < seen.len() && dated(#[trigger] seen[i]).0 == p.cursor;
        if p.cursor == Some(stamp) && p.lines.contains(line) {
            let k = choose|k: int|
                0 <= k < seen.len() && #[trigger] reads(seen[k], p.cursor->0, line);
            assert(reads(seen[k], stamp, line));
        }
        assert(dated(seen[i]).0 is Some);
    }
    if exists|i: int|
        0 <= i < seen.len() && dated(#[trigger] seen[i]).0 is Some && {
            let s = dated(seen[i]).0->0;
            stamp.seconds < s.seconds || stamp.seconds == s.seconds && stamp.nanos < s.nanos
        } {
        let i = choose|i: int|
            0 <= i < seen.len() && dated(#[trigger] seen[i]).0 is Some && {
                let s = dated(seen[i]).0->0;
                stamp.seconds < s.seconds || stamp.seconds == s.seconds && stamp.nanos < s.nanos
            };
        assert(!p.cursor->0.before(dated(seen[i]).0->0));
    }
}

/// What stands before the first space of a log line is its moment where it is a timestamp, and what
/// stands behind that space is its text, whatever it holds. Any other line is all text.
pub proof fn law_log_lines_are_dated(word: Seq<char>, rest: Seq<char>)
    requires
        !word.contains(' '),
    ensures
        dated(word + " "@ + rest) == match crate::time::rfc3339(word) {
            Some(p) => (Some(Stamp { seconds: p.0, nanos: p.1 }), rest),
            None => (None, word + " "@ + rest),
        },
        dated(word) == (None::<Stamp>, word),
{
    reveal_strlit(" ");
    let line = word + " "@ + rest;
    let n = word.len() as int;
    assert forall|k: int| 0 <= k < n implies word[k] != ' ' by {
        assert(word.contains(word[k]));
    }
    assert(line[n] == ' ');
    text::lemma_index_of_unique(line, ' ', n);
    assert(line.take(n) =~= word);
    assert(line.skip(n + 1) =~= rest);
    text::lemma_index_of_unique(word, ' ', n);
}

/// The pause before a reconnect grows to its double and never beyond half a minute, so that from
/// any pause on it is the longest one after five reconnects that brought nothing.
pub proof fn law_pauses_grow_to_half_a_minute(delay: u64)
    requires
        1 <= delay <= 30,
    ensures
        backed_off(delay) == if delay <= 15 {
            delay + delay
        } else {
            30
        },
        backed_off(backed_off(backed_off(backed_off(backed_off(delay))))) == 30,
{
}

} // verus!
