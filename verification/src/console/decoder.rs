//! Cutting the byte streams of a container into console lines.

use crate::process::{lossy, lossy_text};
use crate::text;
use vstd::prelude::*;

verus! {

/// What follows a line that was cut.
pub const TRUNCATION_SUFFIX: &'static str = " … [truncated]";

/// The state of a line buffer.
#[verifier::ext_equal]
pub struct BufferView {
    pub bytes: Seq<u8>,
    pub truncated: bool,
    pub swallow_line_feed: bool,
}

/// The line that a buffer holds.
pub open spec fn line_of(v: BufferView) -> Seq<char> {
    if v.truncated {
        lossy(v.bytes) + TRUNCATION_SUFFIX@
    } else {
        lossy(v.bytes)
    }
}

/// The buffer after a line was taken from it.
pub open spec fn emptied(swallow_line_feed: bool) -> BufferView {
    BufferView { bytes: Seq::empty(), truncated: false, swallow_line_feed }
}

/// What one byte does to a buffer, and the line that it completes. A carriage return or a line
/// feed ends a line, and the two in a row end one; bytes beyond `maximum` are dropped.
pub open spec fn stepped(v: BufferView, byte: u8, maximum: nat) -> (BufferView, Option<Seq<char>>) {
    if v.swallow_line_feed && byte == 10 {
        (BufferView { swallow_line_feed: false, ..v }, None)
    } else if byte == 13 {
        (emptied(true), Some(line_of(v)))
    } else if byte == 10 {
        (emptied(false), Some(line_of(v)))
    } else if v.bytes.len() < maximum {
        (BufferView { bytes: v.bytes.push(byte), swallow_line_feed: false, ..v }, None)
    } else {
        (BufferView { truncated: true, swallow_line_feed: false, ..v }, None)
    }
}

/// What a chunk of bytes does to a buffer, and the lines that it completes.
pub open spec fn fed(v: BufferView, chunk: Seq<u8>, maximum: nat) -> (BufferView, Seq<Seq<char>>)
    decreases chunk.len(),
{
    if chunk.len() == 0 {
        (v, Seq::empty())
    } else {
        let (before, lines) = fed(v, chunk.drop_last(), maximum);
        let (after, line) = stepped(before, chunk.last(), maximum);
        (
            after,
            match line {
                Some(line) => lines.push(line),
                None => lines,
            },
        )
    }
}

/// The line that is left in a buffer when its stream ends.
pub open spec fn leftover(v: BufferView) -> Seq<Seq<char>> {
    if v.bytes.len() == 0 && !v.truncated {
        Seq::empty()
    } else {
        seq![line_of(v)]
    }
}

/// Bytes of a line that is not complete yet.
pub struct LineBuffer {
    pub bytes: Vec<u8>,
    pub truncated: bool,
    pub swallow_line_feed: bool,
}

impl View for LineBuffer {
    type V = BufferView;

    open spec fn view(&self) -> BufferView {
        BufferView {
            bytes: self.bytes@,
            truncated: self.truncated,
            swallow_line_feed: self.swallow_line_feed,
        }
    }
}

impl Default for LineBuffer {
    fn default() -> (r: LineBuffer)
        ensures
            r@ == emptied(false),
    {
        LineBuffer { bytes: Vec::new(), truncated: false, swallow_line_feed: false }
    }
}

impl LineBuffer {
    /// Takes in a chunk of the stream and hands out the lines that it completes.
    pub fn push(&mut self, chunk: &[u8], maximum: usize) -> (r: Vec<String>)
        ensures
            final(self)@ == fed(old(self)@, chunk@, maximum as nat).0,
            text::views(r@) == fed(old(self)@, chunk@, maximum as nat).1,
    {
        let mut lines: Vec<String> = Vec::new();
        let mut i: usize = 0;
        let ghost start = self@;
        assert(chunk@.take(0) =~= Seq::<u8>::empty());
        assert(text::views(lines@) =~= Seq::<Seq<char>>::empty());
        while i < chunk.len()
            invariant
                0 <= i <= chunk@.len(),
                self@ == fed(start, chunk@.take(i as int), maximum as nat).0,
                text::views(lines@) == fed(start, chunk@.take(i as int), maximum as nat).1,
            decreases chunk.len() - i,
        {
            let byte: u8 = chunk[i];
            let ghost was = self@;
            let ghost had = lines@;
            proof {
                assert(chunk@.take(i as int + 1).drop_last() =~= chunk@.take(i as int));
                assert(chunk@.take(i as int + 1).last() == byte);
            }
            let swallow = self.swallow_line_feed;
            self.swallow_line_feed = false;
            if swallow && byte == 10 {
                assert(self@ =~= stepped(was, byte, maximum as nat).0);
            } else if byte == 13 {
                let line = self.take_line();
                self.swallow_line_feed = true;
                lines.push(line);
                proof {
                    text::lemma_views_push(had, line);
                    assert(self@ =~= emptied(true));
                }
            } else if byte == 10 {
                let line = self.take_line();
                lines.push(line);
                proof {
                    text::lemma_views_push(had, line);
                    assert(self@ =~= emptied(false));
                }
            } else if self.bytes.len() < maximum {
                self.bytes.push(byte);
                assert(self@ =~= stepped(was, byte, maximum as nat).0);
            } else {
                self.truncated = true;
                assert(self@ =~= stepped(was, byte, maximum as nat).0);
            }
            i += 1;
        }
        assert(chunk@.take(chunk@.len() as int) =~= chunk@);
        lines
    }

    /// Hands out what is left when the stream has ended.
    pub fn finish(self) -> (r: Vec<String>)
        ensures
            text::views(r@) == leftover(self@),
    {
        let mut out: Vec<String> = Vec::new();
        if self.bytes.len() > 0 || self.truncated {
            let mut last = self;
            let line = last.take_line();
            out.push(line);
            assert(text::views(out@) =~= seq![line@]);
        }
        assert(text::views(out@) =~= leftover(self@));
        out
    }

    /// Takes the line that the buffer holds.
    pub fn take_line(&mut self) -> (r: String)
        ensures
            r@ == line_of(old(self)@),
            final(self)@ == emptied(old(self).swallow_line_feed),
    {
        let mut line = lossy_text(self.bytes.as_slice());
        self.bytes.clear();
        if self.truncated {
            line.append(TRUNCATION_SUFFIX);
        }
        self.truncated = false;
        line
    }
}

/// The stream of a container that a chunk came from.
#[derive(Clone, Copy, PartialEq, Eq, Structural)]
pub enum OutputStream {
    StdOut,
    StdErr,
    StdIn,
    Console,
}

/// The line buffers of a container's streams.
pub struct ConsoleOutputDecoder {
    pub stdout: LineBuffer,
    pub stderr: LineBuffer,
    pub console: LineBuffer,
}

impl Default for ConsoleOutputDecoder {
    fn default() -> (r: ConsoleOutputDecoder)
        ensures
            r.stdout@ == emptied(false),
            r.stderr@ == emptied(false),
            r.console@ == emptied(false),
    {
        ConsoleOutputDecoder {
            stdout: LineBuffer::default(),
            stderr: LineBuffer::default(),
            console: LineBuffer::default(),
        }
    }
}

impl ConsoleOutputDecoder {
    /// Takes in a chunk of one stream and hands out the lines that it completes. What the
    /// container was given as input makes no lines.
    pub fn push(&mut self, stream: OutputStream, message: &[u8], maximum: usize) -> (r: Vec<String>)
        ensures
            final(self).stdout@ == if stream == OutputStream::StdOut {
                fed(old(self).stdout@, message@, maximum as nat).0
            } else {
                old(self).stdout@
            },
            final(self).stderr@ == if stream == OutputStream::StdErr {
                fed(old(self).stderr@, message@, maximum as nat).0
            } else {
                old(self).stderr@
            },
            final(self).console@ == if stream == OutputStream::Console {
                fed(old(self).console@, message@, maximum as nat).0
            } else {
                old(self).console@
            },
            text::views(r@) == match stream {
                OutputStream::StdOut => fed(old(self).stdout@, message@, maximum as nat).1,
                OutputStream::StdErr => fed(old(self).stderr@, message@, maximum as nat).1,
                OutputStream::Console => fed(old(self).console@, message@, maximum as nat).1,
                OutputStream::StdIn => Seq::empty(),
            },
    {
        match stream {
            OutputStream::StdOut => self.stdout.push(message, maximum),
            OutputStream::StdErr => self.stderr.push(message, maximum),
            OutputStream::Console => self.console.push(message, maximum),
            OutputStream::StdIn => {
                let none: Vec<String> = Vec::new();
                assert(text::views(none@) =~= Seq::<Seq<char>>::empty());
                none
            },
        }
    }

    /// Hands out what is left of each stream when they have ended.
    pub fn finish(self) -> (r: Vec<String>)
        ensures
            text::views(r@) == leftover(self.stdout@) + leftover(self.stderr@) + leftover(
                self.console@,
            ),
    {
        let mut out = self.stdout.finish();
        let mut err = self.stderr.finish();
        let mut console = self.console.finish();
        let ghost a = out@;
        let ghost b = err@;
        let ghost c = console@;
        out.append(&mut err);
        out.append(&mut console);
        assert(text::views(out@) =~= text::views(a) + text::views(b) + text::views(c));
        out
    }
}

// ---------------------------------------------------------------------------------------------
// Laws.

/// Where a stream is cut into chunks does not matter: two chunks in a row complete the lines that
/// they complete as one.
pub proof fn law_chunks_do_not_matter(v: BufferView, a: Seq<u8>, b: Seq<u8>, maximum: nat)
    ensures
        fed(v, a + b, maximum).0 == fed(fed(v, a, maximum).0, b, maximum).0,
        fed(v, a + b, maximum).1 == fed(v, a, maximum).1 + fed(fed(v, a, maximum).0, b, maximum).1,
    decreases b.len(),
{
    if b.len() == 0 {
        assert(a + b =~= a);
        assert(fed(v, a, maximum).1 + Seq::<Seq<char>>::empty() =~= fed(v, a, maximum).1);
    } else {
        assert((a + b).drop_last() =~= a + b.drop_last());
        assert((a + b).last() == b.last());
        law_chunks_do_not_matter(v, a, b.drop_last(), maximum);
        let mid = fed(v, a, maximum);
        let (before, lines) = fed(mid.0, b.drop_last(), maximum);
        let line = stepped(before, b.last(), maximum).1;
        if let Some(line) = line {
            assert((mid.1 + lines).push(line) =~= mid.1 + lines.push(line));
        }
    }
}

/// A buffer never holds more than `maximum` bytes.
pub proof fn law_lines_are_bounded(v: BufferView, chunk: Seq<u8>, maximum: nat)
    requires
        v.bytes.len() <= maximum,
    ensures
        fed(v, chunk, maximum).0.bytes.len() <= maximum,
    decreases chunk.len(),
{
    if chunk.len() > 0 {
        law_lines_are_bounded(v, chunk.drop_last(), maximum);
    }
}

/// A carriage return and a line feed in a row end one line, also where a chunk ends between them.
pub proof fn law_crlf_ends_one_line(v: BufferView, maximum: nat)
    requires
        !v.swallow_line_feed,
    ensures
        fed(v, seq![13u8, 10u8], maximum) == (emptied(false), seq![line_of(v)]),
{
    reveal_with_fuel(fed, 3);
    let chunk = seq![13u8, 10u8];
    assert(chunk.drop_last() =~= seq![13u8]);
    assert(seq![13u8].drop_last() =~= Seq::<u8>::empty());
    assert(fed(v, seq![13u8], maximum).1 =~= seq![line_of(v)]);
}

proof fn lemma_plain_bytes_are_kept(v: BufferView, bytes: Seq<u8>, maximum: nat)
    requires
        forall|i: int| 0 <= i < bytes.len() ==> bytes[i] != 10 && bytes[i] != 13,
        v.bytes.len() + bytes.len() <= maximum,
    ensures
        fed(v, bytes, maximum).1.len() == 0,
        fed(v, bytes, maximum).0.bytes == v.bytes + bytes,
        fed(v, bytes, maximum).0.truncated == v.truncated,
        bytes.len() > 0 ==> !fed(v, bytes, maximum).0.swallow_line_feed,
        bytes.len() == 0 ==> fed(v, bytes, maximum).0 == v,
    decreases bytes.len(),
{
    if bytes.len() > 0 {
        lemma_plain_bytes_are_kept(v, bytes.drop_last(), maximum);
        assert(bytes.last() == bytes[bytes.len() - 1]);
        assert(fed(v, bytes, maximum).0.bytes =~= v.bytes + bytes);
    } else {
        assert(v.bytes + bytes =~= v.bytes);
    }
}

/// A line of output is given back as it was written: its bytes as text, without the end of line that
/// follows it, and the next line begins behind that end. What has no end yet is kept until it has
/// one, or the output ends.
pub proof fn law_lines_are_given_back_whole(bytes: Seq<u8>, end: u8, maximum: nat)
    requires
        forall|i: int| 0 <= i < bytes.len() ==> bytes[i] != 10 && bytes[i] != 13,
        bytes.len() <= maximum,
        end == 10 || end == 13,
    ensures
        fed(emptied(false), bytes.push(end), maximum).1 == seq![lossy(bytes)],
        fed(emptied(false), bytes.push(end), maximum).0.bytes.len() == 0,
        !fed(emptied(false), bytes.push(end), maximum).0.truncated,
        fed(emptied(false), bytes, maximum).1.len() == 0,
        bytes.len() > 0 ==> leftover(fed(emptied(false), bytes, maximum).0) == seq![lossy(bytes)],
        leftover(emptied(false)).len() == 0,
{
    let start = emptied(false);
    lemma_plain_bytes_are_kept(start, bytes, maximum);
    assert(start.bytes + bytes =~= bytes);
    let all = bytes.push(end);
    assert(all.drop_last() =~= bytes);
    assert(all.last() == end);
    assert(fed(start, all, maximum).1 =~= seq![lossy(bytes)]);
}

/// A line that is too long is cut behind the bytes that fit, and is marked as cut.
pub proof fn law_long_lines_are_cut_and_marked(bytes: Seq<u8>, more: Seq<u8>, maximum: nat)
    requires
        forall|i: int| 0 <= i < bytes.len() ==> bytes[i] != 10 && bytes[i] != 13,
        forall|i: int| 0 <= i < more.len() ==> more[i] != 10 && more[i] != 13,
        bytes.len() == maximum,
        more.len() > 0,
    ensures
        fed(emptied(false), bytes + more, maximum).0.bytes == bytes,
        fed(emptied(false), (bytes + more).push(10u8), maximum).1 == seq![
            lossy(bytes) + TRUNCATION_SUFFIX@,
        ],
{
    let start = emptied(false);
    lemma_plain_bytes_are_kept(start, bytes, maximum);
    assert(start.bytes + bytes =~= bytes);
    let full = fed(start, bytes, maximum).0;
    lemma_rest_is_dropped(full, more, maximum);
    law_chunks_do_not_matter(start, bytes, more, maximum);
    let all = (bytes + more).push(10u8);
    assert(all.drop_last() =~= bytes + more);
    assert(fed(start, bytes + more, maximum).1 =~= Seq::empty());
    assert(fed(start, all, maximum).1 =~= seq![lossy(bytes) + TRUNCATION_SUFFIX@]);
}

proof fn lemma_rest_is_dropped(v: BufferView, more: Seq<u8>, maximum: nat)
    requires
        forall|i: int| 0 <= i < more.len() ==> more[i] != 10 && more[i] != 13,
        v.bytes.len() == maximum,
    ensures
        fed(v, more, maximum).0.bytes == v.bytes,
        more.len() > 0 ==> fed(v, more, maximum).0.truncated && !fed(
            v,
            more,
            maximum,
        ).0.swallow_line_feed,
        fed(v, more, maximum).1.len() == 0,
    decreases more.len(),
{
    if more.len() > 0 {
        lemma_rest_is_dropped(v, more.drop_last(), maximum);
        assert(more.last() == more[more.len() - 1]);
    }
}

} // verus!
