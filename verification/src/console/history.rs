//! Bounded console history: the last lines of each server, within a budget for all of them.

use crate::protection::{setting, str_view};
use crate::text;
use crate::text::byte_len;
use std::collections::VecDeque;
use vstd::prelude::*;

verus! {

/// The most lines kept of one server.
pub const CONSOLE_HISTORY_LINES: usize = 200;

/// The most bytes of text kept of one server.
pub const CONSOLE_HISTORY_BYTES: usize = 65_536;

pub const DEFAULT_TOTAL_HISTORY_BYTES: usize = 67_108_864;

pub const MAX_TOTAL_HISTORY_BYTES: usize = 1_073_741_824;

/// What an entry costs beside its text.
pub const ENTRY_OVERHEAD: usize = 24;

/// A console line with its number.
pub struct ConsoleEntry {
    pub sequence: u64,
    pub line: String,
}

/// An entry by its contents.
pub open spec fn entry_view(e: ConsoleEntry) -> (u64, Seq<char>) {
    (e.sequence, e.line@)
}

/// What an entry is charged.
pub open spec fn charge_of(e: (u64, Seq<char>)) -> nat {
    ENTRY_OVERHEAD as nat + byte_len(e.1)
}

/// The bytes of text in some entries.
pub open spec fn content(lines: Seq<(u64, Seq<char>)>) -> nat
    decreases lines.len(),
{
    if lines.len() == 0 {
        0
    } else {
        byte_len(lines[0].1) + content(lines.drop_first())
    }
}

/// What some entries are charged.
pub open spec fn charge(lines: Seq<(u64, Seq<char>)>) -> nat
    decreases lines.len(),
{
    if lines.len() == 0 {
        0
    } else {
        charge_of(lines[0]) + charge(lines.drop_first())
    }
}

/// `content` and `charge` of entries that grew by one.
pub proof fn lemma_sums_push(lines: Seq<(u64, Seq<char>)>, e: (u64, Seq<char>))
    ensures
        content(lines.push(e)) == content(lines) + byte_len(e.1),
        charge(lines.push(e)) == charge(lines) + charge_of(e),
    decreases lines.len(),
{
    if lines.len() == 0 {
        assert(lines.push(e).drop_first() =~= lines);
    } else {
        assert(lines.push(e).drop_first() =~= lines.drop_first().push(e));
        lemma_sums_push(lines.drop_first(), e);
    }
}

/// What entries are charged is their text and the overhead of each.
pub proof fn lemma_charge_is_content(lines: Seq<(u64, Seq<char>)>)
    ensures
        charge(lines) == content(lines) + ENTRY_OVERHEAD * lines.len(),
    decreases lines.len(),
{
    if lines.len() > 0 {
        lemma_charge_is_content(lines.drop_first());
    }
}

/// The history of one server.
#[verifier::ext_equal]
pub struct HistoryView {
    pub lines: Seq<(u64, Seq<char>)>,
    pub next_sequence: u64,
    pub last_access: u64,
}

/// The newest entries that fit the limits of one server.
pub open spec fn bounded(lines: Seq<(u64, Seq<char>)>) -> Seq<(u64, Seq<char>)>
    decreases lines.len(),
{
    if lines.len() > 0 && (lines.len() > CONSOLE_HISTORY_LINES || content(lines)
        > CONSOLE_HISTORY_BYTES) {
        bounded(lines.drop_first())
    } else {
        lines
    }
}

/// The newest entries that, with `others` charged elsewhere, fit the budget.
pub open spec fn squeezed(lines: Seq<(u64, Seq<char>)>, others: int, maximum: nat) -> Seq<
    (u64, Seq<char>),
>
    decreases lines.len(),
{
    if lines.len() > 0 && others + charge(lines) > maximum {
        squeezed(lines.drop_first(), others, maximum)
    } else {
        lines
    }
}

/// What all servers are charged.
pub open spec fn total(entries: Seq<(Seq<char>, HistoryView)>) -> nat
    decreases entries.len(),
{
    if entries.len() == 0 {
        0
    } else {
        charge(entries[0].1.lines) + total(entries.drop_first())
    }
}

/// The position of the server other than `id` that was used the longest time ago; the first of
/// them where several were used at the same time.
pub open spec fn oldest(entries: Seq<(Seq<char>, HistoryView)>, id: Seq<char>) -> Option<int>
    decreases entries.len(),
{
    if entries.len() == 0 {
        None
    } else {
        let found = oldest(entries.drop_last(), id);
        let here = entries.len() - 1;
        if entries[here].0 == id {
            found
        } else {
            match found {
                Some(i) => if entries[here].1.last_access < entries[i].1.last_access {
                    Some(here)
                } else {
                    found
                },
                None => Some(here),
            }
        }
    }
}

/// What `oldest` finds.
pub proof fn lemma_oldest(entries: Seq<(Seq<char>, HistoryView)>, id: Seq<char>)
    ensures
        match oldest(entries, id) {
            Some(i) => {
                &&& 0 <= i < entries.len()
                &&& entries[i].0 != id
                &&& forall|j: int|
                    0 <= j < entries.len() && (#[trigger] entries[j]).0 != id
                        ==> entries[i].1.last_access <= entries[j].1.last_access
            },
            None => forall|j: int| 0 <= j < entries.len() ==> (#[trigger] entries[j]).0 == id,
        },
    decreases entries.len(),
{
    if entries.len() > 0 {
        let front = entries.drop_last();
        lemma_oldest(front, id);
        assert forall|j: int| 0 <= j < front.len() implies front[j] == entries[j] by {}
        match oldest(entries, id) {
            Some(i) => {
                assert forall|j: int|
                    0 <= j < entries.len() && (#[trigger] entries[j]).0
                        != id implies entries[i].1.last_access <= entries[j].1.last_access by {
                    if j < front.len() {
                        assert(front[j] == entries[j]);
                    }
                }
            },
            None => {
                assert forall|j: int| 0 <= j < entries.len() implies (#[trigger] entries[j]).0
                    == id by {
                    if j < front.len() {
                        assert(front[j] == entries[j]);
                    }
                }
            },
        }
    }
}

/// The servers that are kept for the budget: while it is exceeded and other servers than `id`
/// are there, the one used the longest time ago leaves as a whole.
pub open spec fn evicted(
    entries: Seq<(Seq<char>, HistoryView)>,
    maximum: nat,
    id: Seq<char>,
) -> Seq<(Seq<char>, HistoryView)>
    decreases entries.len(),
    via evicted_decreases
{
    if total(entries) > maximum && entries.len() > 1 {
        match oldest(entries, id) {
            Some(i) => evicted(entries.remove(i), maximum, id),
            None => entries,
        }
    } else {
        entries
    }
}

#[via_fn]
proof fn evicted_decreases(
    entries: Seq<(Seq<char>, HistoryView)>,
    maximum: nat,
    id: Seq<char>,
) {
    lemma_oldest(entries, id);
}

/// The position of `id`, or the number of entries where it has none.
pub open spec fn place(entries: Seq<(Seq<char>, HistoryView)>, id: Seq<char>) -> int
    decreases entries.len(),
{
    if entries.len() == 0 || entries[0].0 == id {
        0
    } else {
        1 + place(entries.drop_first(), id)
    }
}

/// What `place` finds.
pub proof fn lemma_place(entries: Seq<(Seq<char>, HistoryView)>, id: Seq<char>)
    ensures
        0 <= place(entries, id) <= entries.len(),
        place(entries, id) < entries.len() ==> entries[place(entries, id)].0 == id,
        forall|k: int| 0 <= k < place(entries, id) ==> (#[trigger] entries[k]).0 != id,
    decreases entries.len(),
{
    if entries.len() > 0 && entries[0].0 != id {
        let rest = entries.drop_first();
        lemma_place(rest, id);
        assert forall|k: int| 0 <= k < place(entries, id) implies (#[trigger] entries[k]).0
            != id by {
            if k > 0 {
                assert(entries[k] == rest[k - 1]);
            }
        }
    }
}

/// A position with the properties of `place` is `place`.
pub proof fn lemma_place_unique(entries: Seq<(Seq<char>, HistoryView)>, id: Seq<char>, i: int)
    requires
        0 <= i <= entries.len(),
        i < entries.len() ==> entries[i].0 == id,
        forall|k: int| 0 <= k < i ==> (#[trigger] entries[k]).0 != id,
    ensures
        place(entries, id) == i,
{
    lemma_place(entries, id);
    let p = place(entries, id);
    if p < i {
        assert(entries[p].0 != id);
    }
    if i < p {
        assert(entries[i].0 != id);
    }
}

/// The budgeted history of all servers.
#[verifier::ext_equal]
pub struct CacheView {
    pub entries: Seq<(Seq<char>, HistoryView)>,
    pub maximum: nat,
    pub clock: u64,
}

/// One more, up to the largest number.
pub open spec fn bumped(n: u64) -> u64 {
    if n < u64::MAX {
        (n + 1) as u64
    } else {
        n
    }
}

/// A server without history.
pub open spec fn no_history() -> HistoryView {
    HistoryView { lines: Seq::empty(), next_sequence: 0, last_access: 0 }
}

/// The history of a server after one more line at the moment `access`.
pub open spec fn recorded(h: HistoryView, line: Seq<char>, access: u64) -> HistoryView {
    HistoryView {
        lines: bounded(h.lines.push((bumped(h.next_sequence), line))),
        next_sequence: bumped(h.next_sequence),
        last_access: access,
    }
}

impl CacheView {
    /// The history of `id`.
    pub open spec fn history(self, id: Seq<char>) -> HistoryView {
        let i = place(self.entries, id);
        if i < self.entries.len() {
            self.entries[i].1
        } else {
            no_history()
        }
    }

    /// Whether `id` has a history.
    pub open spec fn has(self, id: Seq<char>) -> bool {
        place(self.entries, id) < self.entries.len()
    }

    /// The entries with the history of `id` set.
    pub open spec fn with(self, id: Seq<char>, h: HistoryView) -> Seq<(Seq<char>, HistoryView)> {
        let i = place(self.entries, id);
        if i < self.entries.len() {
            self.entries.update(i, (id, h))
        } else {
            self.entries.push((id, h))
        }
    }

    /// The cache after the lines of `id` were handed out.
    pub open spec fn looked_at(self, id: Seq<char>) -> CacheView {
        let access = bumped(self.clock);
        CacheView {
            entries: if self.has(id) {
                self.with(id, HistoryView { last_access: access, ..self.history(id) })
            } else {
                self.entries
            },
            clock: access,
            ..self
        }
    }

    /// The cache without the history of `id`.
    pub open spec fn without(self, id: Seq<char>) -> CacheView {
        CacheView {
            entries: if self.has(id) {
                self.entries.remove(place(self.entries, id))
            } else {
                self.entries
            },
            ..self
        }
    }

    /// The cache after one more line of `id`.
    pub open spec fn pushed(self, id: Seq<char>, line: Seq<char>) -> CacheView {
        let access = bumped(self.clock);
        let h = recorded(self.history(id), line, access);
        let kept = evicted(self.with(id, h), self.maximum, id);
        let own = kept[place(kept, id)].1;
        let others = total(kept) - charge(own.lines);
        CacheView {
            entries: kept.update(
                place(kept, id),
                (id, HistoryView { lines: squeezed(own.lines, others, self.maximum), ..own }),
            ),
            maximum: self.maximum,
            clock: access,
        }
    }
}

/// The history of one server.
pub struct ConsoleHistory {
    pub lines: VecDeque<ConsoleEntry>,
    pub content_bytes: usize,
    pub charged_bytes: usize,
    pub next_sequence: u64,
    pub last_access: u64,
}

impl View for ConsoleHistory {
    type V = HistoryView;

    open spec fn view(&self) -> HistoryView {
        HistoryView {
            lines: self.lines@.map_values(|e: ConsoleEntry| entry_view(e)),
            next_sequence: self.next_sequence,
            last_access: self.last_access,
        }
    }
}

impl ConsoleHistory {
    /// The counters are those of the lines, and the lines are within the limits.
    pub open spec fn wf(&self) -> bool {
        &&& self.content_bytes == content(self@.lines)
        &&& self.charged_bytes == charge(self@.lines)
        &&& self@.lines.len() <= CONSOLE_HISTORY_LINES
        &&& self.content_bytes <= CONSOLE_HISTORY_BYTES
    }

    /// Adds a line and drops the oldest ones beyond the limits.
    fn record(&mut self, line: &str, access: u64) -> (r: ConsoleEntry)
        requires
            old(self).wf(),
        ensures
            final(self).wf(),
            final(self)@ == recorded(old(self)@, line@, access),
            entry_view(r) == (bumped(old(self).next_sequence), line@),
    {
        let ghost was = self@;
        self.last_access = access;
        self.next_sequence = self.next_sequence.saturating_add(1);
        let sequence = self.next_sequence;
        let length: u128 = text::byte_length(line) as u128;
        let mut content_now: u128 = self.content_bytes as u128 + length;
        let mut charged_now: u128 = self.charged_bytes as u128 + ENTRY_OVERHEAD as u128 + length;
        let ghost raw = self.lines@;
        let entry = ConsoleEntry { sequence, line: line.to_owned() };
        self.lines.push_back(entry);
        proof {
            assert(self@.lines =~= was.lines.push((sequence, line@)));
            lemma_sums_push(was.lines, (sequence, line@));
        }
        let ghost all = self@.lines;
        while self.lines.len() > 0 && (self.lines.len() > CONSOLE_HISTORY_LINES || content_now
            > CONSOLE_HISTORY_BYTES as u128)
            invariant
                self.last_access == access,
                self.next_sequence == sequence,
                content_now == content(self@.lines),
                charged_now == charge(self@.lines),
                bounded(all) == bounded(self@.lines),
            decreases self.lines@.len(),
        {
            let ghost before = self@.lines;
            if let Some(removed) = self.lines.pop_front() {
                let size: u128 = text::byte_length(removed.line.as_str()) as u128;
                proof {
                    assert(before[0] == entry_view(removed));
                    assert(self@.lines =~= before.drop_first());
                }
                content_now = content_now - size;
                charged_now = charged_now - (ENTRY_OVERHEAD as u128 + size);
            }
        }
        proof {
            lemma_charge_is_content(self@.lines);
            assert(self@.lines == bounded(all));
        }
        self.content_bytes = content_now as usize;
        self.charged_bytes = charged_now as usize;
        ConsoleEntry { sequence, line: line.to_owned() }
    }
}

/// The history of all servers, by contents.
pub open spec fn entries_view(list: Seq<(String, ConsoleHistory)>) -> Seq<
    (Seq<char>, HistoryView),
> {
    list.map_values(|e: (String, ConsoleHistory)| (e.0@, e.1@))
}

/// The console history of all servers, within a budget.
pub struct HistoryCache {
    entries: Vec<(String, ConsoleHistory)>,
    charged_bytes: usize,
    maximum_bytes: usize,
    clock: u64,
}

impl View for HistoryCache {
    type V = CacheView;

    closed spec fn view(&self) -> CacheView {
        CacheView {
            entries: entries_view(self.entries@),
            maximum: self.maximum_bytes as nat,
            clock: self.clock,
        }
    }
}

/// No two entries have the same key.
pub open spec fn distinct_ids(entries: Seq<(Seq<char>, HistoryView)>) -> bool {
    forall|i: int, j: int|
        0 <= i < j < entries.len() ==> (#[trigger] entries[i]).0 != (#[trigger] entries[j]).0
}

/// `total` of entries that grew by one.
pub proof fn lemma_total_push(
    entries: Seq<(Seq<char>, HistoryView)>,
    e: (Seq<char>, HistoryView),
)
    ensures
        total(entries.push(e)) == total(entries) + charge(e.1.lines),
    decreases entries.len(),
{
    if entries.len() == 0 {
        assert(entries.push(e).drop_first() =~= entries);
    } else {
        assert(entries.push(e).drop_first() =~= entries.drop_first().push(e));
        lemma_total_push(entries.drop_first(), e);
    }
}

/// `total` of entries of which one changed.
pub proof fn lemma_total_update(
    entries: Seq<(Seq<char>, HistoryView)>,
    i: int,
    e: (Seq<char>, HistoryView),
)
    requires
        0 <= i < entries.len(),
    ensures
        total(entries.update(i, e)) == total(entries) - charge(entries[i].1.lines) + charge(
            e.1.lines,
        ),
        charge(entries[i].1.lines) <= total(entries),
    decreases entries.len(),
{
    if i == 0 {
        assert(entries.update(0, e).drop_first() =~= entries.drop_first());
    } else {
        assert(entries.update(i, e).drop_first() =~= entries.drop_first().update(i - 1, e));
        assert(entries.drop_first()[i - 1] == entries[i]);
        lemma_total_update(entries.drop_first(), i - 1, e);
    }
}

/// `total` of entries of which one left.
pub proof fn lemma_total_remove(entries: Seq<(Seq<char>, HistoryView)>, i: int)
    requires
        0 <= i < entries.len(),
    ensures
        total(entries.remove(i)) == total(entries) - charge(entries[i].1.lines),
        charge(entries[i].1.lines) <= total(entries),
    decreases entries.len(),
{
    if i == 0 {
        assert(entries.remove(0) =~= entries.drop_first());
    } else {
        assert(entries.remove(i).drop_first() =~= entries.drop_first().remove(i - 1));
        assert(entries.drop_first()[i - 1] == entries[i]);
        lemma_total_remove(entries.drop_first(), i - 1);
    }
}

/// Removing entries keeps keys distinct, and keeps each other key.
pub proof fn lemma_remove_keeps(entries: Seq<(Seq<char>, HistoryView)>, i: int, id: Seq<char>)
    requires
        0 <= i < entries.len(),
        distinct_ids(entries),
    ensures
        distinct_ids(entries.remove(i)),
        entries[i].0 != id && place(entries, id) < entries.len() ==> place(entries.remove(i), id)
            < entries.remove(i).len(),
{
    let after = entries.remove(i);
    assert forall|a: int, b: int| 0 <= a < b < after.len() implies (#[trigger] after[a]).0 != (
    #[trigger] after[b]).0 by {
        let x = if a < i {
            a
        } else {
            a + 1
        };
        let y = if b < i {
            b
        } else {
            b + 1
        };
        assert(after[a] == entries[x]);
        assert(after[b] == entries[y]);
    }
    lemma_place(entries, id);
    lemma_place(after, id);
    let p = place(entries, id);
    if entries[i].0 != id && p < entries.len() {
        let q = if p < i {
            p
        } else {
            p - 1
        };
        assert(after[q] == entries[p]);
        if place(after, id) >= after.len() {
            assert(after[q].0 != id);
        }
    }
}

/// Eviction keeps keys distinct and keeps `id`, changes no history, and leaves the budget kept or
/// `id` alone.
pub proof fn lemma_evicted(entries: Seq<(Seq<char>, HistoryView)>, maximum: nat, id: Seq<char>)
    requires
        distinct_ids(entries),
        place(entries, id) < entries.len(),
    ensures
        distinct_ids(evicted(entries, maximum, id)),
        place(evicted(entries, maximum, id), id) < evicted(entries, maximum, id).len(),
        evicted(entries, maximum, id).len() <= entries.len(),
        total(evicted(entries, maximum, id)) <= maximum || evicted(entries, maximum, id).len() == 1,
    decreases entries.len(),
{
    lemma_place(entries, id);
    if total(entries) > maximum && entries.len() > 1 {
        lemma_oldest(entries, id);
        match oldest(entries, id) {
            Some(i) => {
                lemma_remove_keeps(entries, i, id);
                lemma_evicted(entries.remove(i), maximum, id);
            },
            None => {
                assert(entries[0].0 == id);
                assert(entries[1].0 == id);
            },
        }
    }
}

/// Squeezing fits the budget as soon as what is charged elsewhere does.
pub proof fn lemma_squeezed(lines: Seq<(u64, Seq<char>)>, others: int, maximum: nat)
    requires
        others <= maximum,
    ensures
        others + charge(squeezed(lines, others, maximum)) <= maximum,
    decreases lines.len(),
{
    if lines.len() > 0 && others + charge(lines) > maximum {
        lemma_squeezed(lines.drop_first(), others, maximum);
    }
}

impl HistoryCache {
    /// The counters are those of the entries, each server has one entry, and the budget is kept.
    pub closed spec fn wf(&self) -> bool {
        &&& self.maximum_bytes >= 1
        &&& self.charged_bytes == total(self@.entries)
        &&& self.charged_bytes <= self.maximum_bytes
        &&& distinct_ids(self@.entries)
        &&& forall|i: int| 0 <= i < self.entries@.len() ==> (#[trigger] self.entries@[i]).1.wf()
    }

    /// What well-formedness says of the contents.
    pub proof fn lemma_wf(&self)
        requires
            self.wf(),
        ensures
            distinct_ids(self@.entries),
            total(self@.entries) <= self@.maximum,
            1 <= self@.maximum,
            forall|i: int|
                0 <= i < self@.entries.len() ==> (#[trigger] self@.entries[i]).1.lines.len()
                    <= CONSOLE_HISTORY_LINES && content(self@.entries[i].1.lines)
                    <= CONSOLE_HISTORY_BYTES,
    {
        assert forall|i: int| 0 <= i < self@.entries.len() implies (#[trigger] self@.entries[i]).1.lines.len()
            <= CONSOLE_HISTORY_LINES && content(self@.entries[i].1.lines)
            <= CONSOLE_HISTORY_BYTES by {
            assert(self.entries@[i].1.wf());
        }
    }

    /// An empty cache with the budget that the setting gives.
    pub fn configured(value: Option<&str>) -> (r: HistoryCache)
        ensures
            r.wf(),
            r@.entries.len() == 0,
            r@.clock == 0,
            r@.maximum == {
                let n = setting(str_view(value), DEFAULT_TOTAL_HISTORY_BYTES);
                if n < CONSOLE_HISTORY_BYTES {
                    CONSOLE_HISTORY_BYTES
                } else if n > MAX_TOTAL_HISTORY_BYTES {
                    MAX_TOTAL_HISTORY_BYTES
                } else {
                    n
                }
            },
    {
        let n = crate::protection::env_usize(value, DEFAULT_TOTAL_HISTORY_BYTES);
        let maximum = if n < CONSOLE_HISTORY_BYTES {
            CONSOLE_HISTORY_BYTES
        } else if n > MAX_TOTAL_HISTORY_BYTES {
            MAX_TOTAL_HISTORY_BYTES
        } else {
            n
        };
        HistoryCache::with_maximum(maximum)
    }

    /// An empty cache with the given budget, at least one byte.
    pub fn with_maximum(maximum_bytes: usize) -> (r: HistoryCache)
        ensures
            r.wf(),
            r@.entries.len() == 0,
            r@.clock == 0,
            r@.maximum == if maximum_bytes == 0 {
                1
            } else {
                maximum_bytes as nat
            },
    {
        HistoryCache {
            entries: Vec::new(),
            charged_bytes: 0,
            maximum_bytes: if maximum_bytes == 0 {
                1
            } else {
                maximum_bytes
            },
            clock: 0,
        }
    }

    fn position(&self, id: &str) -> (r: usize)
        ensures
            r == place(self@.entries, id@),
            r <= self.entries@.len(),
    {
        position_of(&self.entries, id)
    }

    /// Adds a line of `id`, and makes room for it.
    pub fn push(&mut self, id: &str, line: String) -> (r: ConsoleEntry)
        requires
            old(self).wf(),
        ensures
            final(self).wf(),
            final(self)@ == old(self)@.pushed(id@, line@),
            entry_view(r) == (bumped(old(self)@.history(id@).next_sequence), line@),
    {
        let ghost was = self@;
        self.clock = self.clock.saturating_add(1);
        let access = self.clock;
        let at = self.position(id);
        let ghost before = self.entries@;
        let mut entries: Vec<(String, ConsoleHistory)> = Vec::new();
        core::mem::swap(&mut entries, &mut self.entries);
        proof {
            lemma_place(was.entries, id@);
        }
        if at >= entries.len() {
            let fresh = ConsoleHistory {
                lines: VecDeque::new(),
                content_bytes: 0,
                charged_bytes: 0,
                next_sequence: 0,
                last_access: 0,
            };
            assert(fresh@ =~= no_history());
            entries.push((id.to_owned(), fresh));
            proof {
                lemma_total_push(was.entries, (id@, no_history()));
                assert(entries_view(entries@) =~= was.entries.push((id@, no_history())));
                assert(no_history().lines.len() == 0);
            }
        }
        let ghost seated = entries_view(entries@);
        let (name, mut h) = entries.remove(at);
        let ghost h0 = h@;
        proof {
            assert(seated[at as int] == (id@, was.history(id@)));
            assert(h.wf());
        }
        let old_charge: u128 = h.charged_bytes as u128;
        let entry = h.record(line.as_str(), access);
        let mut charged: u128 = self.charged_bytes as u128;
        proof {
            lemma_total_update(seated, at as int, (id@, h@));
        }
        charged = charged - old_charge + h.charged_bytes as u128;
        entries.insert(at, (name, h));
        proof {
            assert(entries_view(entries@) =~= seated.update(at as int, (id@, h@)));
            assert(entries_view(entries@) =~= was.with(id@, h@));
            let now = entries_view(entries@);
            assert forall|i: int, j: int| 0 <= i < j < now.len() implies (#[trigger] now[i]).0 != (
            #[trigger] now[j]).0 by {
                if i < was.entries.len() {
                    assert(now[i].0 == was.entries[i].0);
                }
                if j < was.entries.len() {
                    assert(now[j].0 == was.entries[j].0);
                }
            }
            lemma_place_unique(now, id@, at as int);
        }
        let maximum: u128 = self.maximum_bytes as u128;
        let charged = evict_to_budget(&mut entries, charged, maximum, id);
        self.entries = entries;
        self.charged_bytes = charged as usize;
        assert(self@ =~= was.pushed(id@, line@));
        entry
    }

    /// The lines of `id` and the number of the last one; reading them counts as use.
    pub fn snapshot(&mut self, id: &str) -> (r: (Vec<String>, u64))
        requires
            old(self).wf(),
        ensures
            final(self).wf(),
            final(self)@ == old(self)@.looked_at(id@),
            text::views(r.0@) == old(self)@.history(id@).lines.map_values(
                |e: (u64, Seq<char>)| e.1,
            ),
            r.1 == if old(self)@.history(id@).lines.len() > 0 {
                old(self)@.history(id@).lines.last().0
            } else {
                0
            },
    {
        let ghost was = self@;
        self.clock = self.clock.saturating_add(1);
        let at = self.position(id);
        let mut out: Vec<String> = Vec::new();
        proof {
            lemma_place(was.entries, id@);
        }
        if at >= self.entries.len() {
            assert(text::views(out@) =~= was.history(id@).lines.map_values(
                |e: (u64, Seq<char>)| e.1,
            ));
            return (out, 0);
        }
        let mut entries: Vec<(String, ConsoleHistory)> = Vec::new();
        core::mem::swap(&mut entries, &mut self.entries);
        let ghost before = entries@;
        let (name, mut h) = entries.remove(at);
        let ghost h0 = h@;
        assert(was.entries[at as int] == (id@, h0));
        h.last_access = self.clock;
        let ghost texts = h0.lines.map_values(|e: (u64, Seq<char>)| e.1);
        let mut i: usize = 0;
        while i < h.lines.len()
            invariant
                0 <= i <= h.lines@.len(),
                h@.lines == h0.lines,
                texts == h0.lines.map_values(|e: (u64, Seq<char>)| e.1),
                text::views(out@) == texts.take(i as int),
            decreases h.lines@.len() - i,
        {
            let ghost had = out@;
            let line = h.lines[i].line.as_str().to_owned();
            out.push(line);
            proof {
                text::lemma_views_push(had, line);
                assert(h@.lines[i as int].1 == line@);
                assert(text::views(out@) =~= texts.take(i as int + 1));
            }
            i += 1;
        }
        assert(text::views(out@) =~= texts);
        let last = if h.lines.len() > 0 {
            let n = h.lines.len();
            assert(h@.lines[n - 1] == entry_view(h.lines@[n - 1]));
            h.lines[n - 1].sequence
        } else {
            0
        };
        entries.insert(at, (name, h));
        self.entries = entries;
        proof {
            assert(self@.entries =~= was.entries.update(at as int, (id@, h@)));
            lemma_total_update(was.entries, at as int, (id@, h@));
            assert(h@ =~= HistoryView { last_access: self.clock, ..h0 });
            assert forall|k: int| 0 <= k < self.entries@.len() implies (
            #[trigger] self.entries@[k]).1.wf() by {
                if k != at {
                    assert(self.entries@[k] == before[k]);
                }
            }
            assert forall|a: int, b: int| 0 <= a < b < self@.entries.len() implies (
            #[trigger] self@.entries[a]).0 != (#[trigger] self@.entries[b]).0 by {
                assert(self@.entries[a].0 == was.entries[a].0);
                assert(self@.entries[b].0 == was.entries[b].0);
            }
        }
        (out, last)
    }

    /// Forgets the history of `id`.
    pub fn remove(&mut self, id: &str)
        requires
            old(self).wf(),
        ensures
            final(self).wf(),
            final(self)@ == old(self)@.without(id@),
            !final(self)@.has(id@),
    {
        let ghost was = self@;
        let at = self.position(id);
        proof {
            lemma_place(was.entries, id@);
        }
        if at < self.entries.len() {
            let ghost before = self.entries@;
            let (_, h) = self.entries.remove(at);
            proof {
                assert(was.entries[at as int] == (id@, h@));
                assert(self@.entries =~= was.entries.remove(at as int));
                lemma_total_remove(was.entries, at as int);
                lemma_remove_keeps(was.entries, at as int, id@);
                lemma_place(self@.entries, id@);
                if self@.has(id@) {
                    let p = place(self@.entries, id@);
                    let q = if p < at {
                        p
                    } else {
                        p + 1
                    };
                    assert(was.entries[q] == self@.entries[p]);
                    assert(was.entries[at as int].0 == id@);
                }
                assert(before[at as int].1.wf());
                assert forall|k: int| 0 <= k < self.entries@.len() implies (
                #[trigger] self.entries@[k]).1.wf() by {
                    let q = if k < at {
                        k
                    } else {
                        k + 1
                    };
                    assert(self.entries@[k] == before[q]);
                }
            }
            self.charged_bytes = self.charged_bytes - h.charged_bytes;
        }
    }

    /// Whether `id` has a history.
    pub fn contains_key(&self, id: &str) -> (r: bool)
        ensures
            r == self@.has(id@),
    {
        self.position(id) < self.entries.len()
    }

    /// Whether no server has a history.
    pub fn is_empty(&self) -> (r: bool)
        ensures
            r == (self@.entries.len() == 0),
    {
        self.entries.len() == 0
    }

    /// The history of `id`.
    pub fn get(&self, id: &str) -> (r: Option<&ConsoleHistory>)
        requires
            self.wf(),
        ensures
            r is Some <==> self@.has(id@),
            r is Some ==> r->0@ == self@.history(id@) && r->0.wf(),
    {
        let at = self.position(id);
        if at < self.entries.len() {
            Some(&self.entries[at].1)
        } else {
            None
        }
    }

    /// The number of servers that have a history.
    pub fn len(&self) -> (r: usize)
        ensures
            r == self@.entries.len(),
    {
        self.entries.len()
    }

    /// What all servers are charged.
    pub fn charged_bytes(&self) -> (r: usize)
        requires
            self.wf(),
        ensures
            r == total(self@.entries),
    {
        self.charged_bytes
    }
}

fn position_of(entries: &Vec<(String, ConsoleHistory)>, id: &str) -> (r: usize)
    ensures
        r == place(entries_view(entries@), id@),
        r <= entries@.len(),
{
    let mut i: usize = 0;
    while i < entries.len()
        invariant
            0 <= i <= entries@.len(),
            forall|k: int| 0 <= k < i ==> entries@[k].0@ != id@,
        decreases entries.len() - i,
    {
        if text::same(entries[i].0.as_str(), id) {
            proof {
                let v = entries_view(entries@);
                assert forall|k: int| 0 <= k < i implies (#[trigger] v[k]).0 != id@ by {
                    assert(entries@[k].0@ != id@);
                }
                lemma_place_unique(v, id@, i as int);
            }
            return i;
        }
        i += 1;
    }
    proof {
        let v = entries_view(entries@);
        assert forall|k: int| 0 <= k < i implies (#[trigger] v[k]).0 != id@ by {
            assert(entries@[k].0@ != id@);
        }
        lemma_place_unique(v, id@, i as int);
    }
    i
}

fn oldest_of(entries: &Vec<(String, ConsoleHistory)>, id: &str) -> (r: Option<usize>)
    ensures
        match oldest(entries_view(entries@), id@) {
            Some(i) => r is Some && r->0 == i,
            None => r is None,
        },
{
    let ghost v = entries_view(entries@);
    let mut found: Option<usize> = None;
    let mut i: usize = 0;
    assert(v.take(0) =~= Seq::<(Seq<char>, HistoryView)>::empty());
    while i < entries.len()
        invariant
            v == entries_view(entries@),
            0 <= i <= entries@.len(),
            match oldest(v.take(i as int), id@) {
                Some(k) => found is Some && found->0 == k && 0 <= k < i,
                None => found is None,
            },
        decreases entries.len() - i,
    {
        proof {
            let next = v.take(i as int + 1);
            assert(next.drop_last() =~= v.take(i as int));
            assert(next[i as int] == (entries@[i as int].0@, entries@[i as int].1@));
            if found is Some {
                assert(next[found->0 as int] == v.take(i as int)[found->0 as int]);
                assert(next[found->0 as int].1 == entries@[found->0 as int].1@);
            }
        }
        if !text::same(entries[i].0.as_str(), id) {
            match found {
                Some(k) => {
                    if entries[i].1.last_access < entries[k].1.last_access {
                        found = Some(i);
                    }
                },
                None => {
                    found = Some(i);
                },
            }
        }
        i += 1;
    }
    assert(v.take(v.len() as int) =~= v);
    found
}

/// Makes what is charged fit the budget: first other servers than `id` leave as a whole, then
/// the oldest lines of `id`. Hands out what is charged in the end.
#[verifier::rlimit(40)]
fn evict_to_budget(
    entries: &mut Vec<(String, ConsoleHistory)>,
    charged: u128,
    maximum: u128,
    id: &str,
) -> (r: u128)
    requires
        charged == total(entries_view(old(entries)@)),
        distinct_ids(entries_view(old(entries)@)),
        place(entries_view(old(entries)@), id@) < old(entries)@.len(),
        forall|i: int| 0 <= i < old(entries)@.len() ==> (#[trigger] old(entries)@[i]).1.wf(),
    ensures
        ({
            let kept = evicted(entries_view(old(entries)@), maximum as nat, id@);
            let own = kept[place(kept, id@)].1;
            let others = total(kept) - charge(own.lines);
            entries_view(final(entries)@) == kept.update(
                place(kept, id@),
                (id@, HistoryView { lines: squeezed(own.lines, others, maximum as nat), ..own }),
            )
        }),
        r == total(entries_view(final(entries)@)),
        r <= maximum,
        distinct_ids(entries_view(final(entries)@)),
        forall|i: int| 0 <= i < final(entries)@.len() ==> (#[trigger] final(entries)@[i]).1.wf(),
{
    let ghost start = entries_view(entries@);
    let mut charged = charged;
    while charged > maximum && entries.len() > 1
        invariant
            charged == total(entries_view(entries@)),
            distinct_ids(entries_view(entries@)),
            place(entries_view(entries@), id@) < entries@.len(),
            forall|i: int| 0 <= i < entries@.len() ==> (#[trigger] entries@[i]).1.wf(),
            evicted(start, maximum as nat, id@) == evicted(
                entries_view(entries@),
                maximum as nat,
                id@,
            ),
        decreases entries@.len(),
    {
        let ghost before = entries@;
        let ghost v = entries_view(entries@);
        proof {
            lemma_oldest(v, id@);
            lemma_place(v, id@);
        }
        match oldest_of(entries, id) {
            Some(i) => {
                let (_, h) = entries.remove(i);
                proof {
                    assert(entries_view(entries@) =~= v.remove(i as int));
                    lemma_total_remove(v, i as int);
                    lemma_remove_keeps(v, i as int, id@);
                    assert(before[i as int].1.wf());
                    assert(v[i as int].1 == h@);
                    assert forall|k: int| 0 <= k < entries@.len() implies (
                    #[trigger] entries@[k]).1.wf() by {
                        let q = if k < i {
                            k
                        } else {
                            k + 1
                        };
                        assert(entries@[k] == before[q]);
                    }
                }
                charged = charged - h.charged_bytes as u128;
            },
            None => {
                proof {
                    assert(v[0].0 == id@);
                    assert(v[1].0 == id@);
                }
            },
        }
    }
    let at = position_of(entries, id);
    let ghost before = entries@;
    let ghost kept = entries_view(entries@);
    proof {
        lemma_place(kept, id@);
    }
    let (name, mut h) = entries.remove(at);
    let ghost own = h@;
    let mut own_content: usize = h.content_bytes;
    let mut own_charge: usize = h.charged_bytes;
    let ghost others = total(kept) - charge(own.lines);
    proof {
        assert(kept[at as int] == (id@, own));
        assert(before[at as int].1.wf());
        lemma_total_update(kept, at as int, (id@, own));
        if kept.len() == 1 {
            assert(total(kept.drop_first()) == 0);
        }
    }
    assert(0 <= others <= maximum);
    while charged > maximum && h.lines.len() > 0
        invariant
            0 <= others,
            charged == others + charge(h@.lines),
            own_charge == charge(h@.lines),
            own_content == content(h@.lines),
            h@.lines.len() <= CONSOLE_HISTORY_LINES,
            own_content <= CONSOLE_HISTORY_BYTES,
            h.next_sequence == own.next_sequence,
            h.last_access == own.last_access,
            squeezed(own.lines, others, maximum as nat) == squeezed(
                h@.lines,
                others,
                maximum as nat,
            ),
        decreases h.lines@.len(),
    {
        let ghost lines = h@.lines;
        if let Some(removed) = h.lines.pop_front() {
            let size: usize = text::byte_length(removed.line.as_str());
            proof {
                assert(lines[0] == entry_view(removed));
                assert(h@.lines =~= lines.drop_first());
            }
            own_content = own_content - size;
            own_charge = own_charge - size - ENTRY_OVERHEAD;
            charged = charged - size as u128 - ENTRY_OVERHEAD as u128;
        }
    }
    h.content_bytes = own_content;
    h.charged_bytes = own_charge;
    proof {
        assert(h@.lines == squeezed(own.lines, others, maximum as nat));
        assert(h@ =~= HistoryView {
            lines: squeezed(own.lines, others, maximum as nat),
            ..own
        });
        lemma_total_update(kept, at as int, (id@, h@));
        lemma_squeezed(own.lines, others, maximum as nat);
    }
    entries.insert(at, (name, h));
    proof {
        let now = entries_view(entries@);
        assert(now =~= kept.update(at as int, (id@, h@)));
        assert forall|a: int, b: int| 0 <= a < b < now.len() implies (#[trigger] now[a]).0 != (
        #[trigger] now[b]).0 by {
            assert(now[a].0 == kept[a].0);
            assert(now[b].0 == kept[b].0);
        }
        assert forall|k: int| 0 <= k < entries@.len() implies (#[trigger] entries@[k]).1.wf() by {
            if k != at {
                assert(entries@[k] == before[k]);
            }
        }
    }
    charged
}

/// What one entry is charged.
pub fn entry_charge(entry: &ConsoleEntry) -> (r: usize)
    requires
        charge_of(entry_view(*entry)) <= usize::MAX,
    ensures
        r == charge_of(entry_view(*entry)),
{
    ENTRY_OVERHEAD + text::byte_length(entry.line.as_str())
}

// ---------------------------------------------------------------------------------------------
// Laws.

/// However many lines come, what is charged stays within the budget, and the server that was
/// written last keeps its entry.
pub proof fn law_push_keeps_budget(cache: CacheView, id: Seq<char>, line: Seq<char>)
    requires
        distinct_ids(cache.entries),
    ensures
        distinct_ids(cache.pushed(id, line).entries),
        total(cache.pushed(id, line).entries) <= cache.maximum,
        cache.pushed(id, line).has(id),
{
    let h = recorded(cache.history(id), line, bumped(cache.clock));
    let seated = cache.with(id, h);
    lemma_place(cache.entries, id);
    let p = place(cache.entries, id);
    assert forall|i: int, j: int| 0 <= i < j < seated.len() implies (#[trigger] seated[i]).0 != (
    #[trigger] seated[j]).0 by {
        if i < cache.entries.len() {
            assert(seated[i].0 == cache.entries[i].0);
        }
        if j < cache.entries.len() {
            assert(seated[j].0 == cache.entries[j].0);
        }
    }
    lemma_place_unique(seated, id, p);
    lemma_evicted(seated, cache.maximum, id);
    let kept = evicted(seated, cache.maximum, id);
    lemma_place(kept, id);
    let q = place(kept, id);
    let own = kept[q].1;
    let others = total(kept) - charge(own.lines);
    let fit = HistoryView { lines: squeezed(own.lines, others, cache.maximum), ..own };
    lemma_total_update(kept, q, (id, fit));
    if kept.len() == 1 {
        assert(total(kept.drop_first()) == 0);
    }
    lemma_squeezed(own.lines, others, cache.maximum);
    let last = cache.pushed(id, line).entries;
    assert(last =~= kept.update(q, (id, fit)));
    assert forall|i: int, j: int| 0 <= i < j < last.len() implies (#[trigger] last[i]).0 != (
    #[trigger] last[j]).0 by {
        assert(last[i].0 == kept[i].0);
        assert(last[j].0 == kept[j].0);
    }
    assert forall|k: int| 0 <= k < q implies (#[trigger] last[k]).0 != id by {
        assert(last[k] == kept[k]);
    }
    lemma_place_unique(last, id, q);
}

/// The lines kept of a server are its newest: a tail of what was written.
pub proof fn law_bounded_keeps_newest(lines: Seq<(u64, Seq<char>)>)
    ensures
        bounded(lines).len() <= CONSOLE_HISTORY_LINES,
        content(bounded(lines)) <= CONSOLE_HISTORY_BYTES,
        text::ends(lines, bounded(lines)),
    decreases lines.len(),
{
    if lines.len() > 0 && (lines.len() > CONSOLE_HISTORY_LINES || content(lines)
        > CONSOLE_HISTORY_BYTES) {
        law_bounded_keeps_newest(lines.drop_first());
        let kept = bounded(lines);
        let rest = lines.drop_first();
        let from = rest.len() - kept.len();
        assert(lines.subrange(from + 1, from + 1 + kept.len()) =~= rest.subrange(
            from,
            from + kept.len(),
        ));
    } else {
        assert(lines.subrange(0, lines.len() as int) =~= lines);
    }
}

/// The lines of a server carry numbers in a row, the last one the number that was given last.
pub open spec fn numbered(h: HistoryView) -> bool {
    forall|i: int|
        0 <= i < h.lines.len() ==> (#[trigger] h.lines[i]).0 == h.next_sequence - (h.lines.len() - 1
            - i)
}

/// The lines of every server are numbered in a row.
pub open spec fn all_numbered(entries: Seq<(Seq<char>, HistoryView)>) -> bool {
    forall|i: int| 0 <= i < entries.len() ==> numbered((#[trigger] entries[i]).1)
}

/// The number up to which a viewer is given the lines of a server that came before.
pub open spec fn replayed(h: HistoryView) -> u64 {
    if h.lines.len() > 0 {
        h.lines.last().0
    } else {
        0
    }
}

proof fn lemma_tail_is_numbered(h: HistoryView, tail: Seq<(u64, Seq<char>)>)
    requires
        numbered(h),
        text::ends(h.lines, tail),
    ensures
        numbered(HistoryView { lines: tail, ..h }),
{
    let from = h.lines.len() - tail.len();
    assert forall|i: int| 0 <= i < tail.len() implies (#[trigger] tail[i]).0 == h.next_sequence - (
    tail.len() - 1 - i) by {
        assert(tail[i] == h.lines[from + i]);
    }
}

proof fn lemma_squeezed_is_a_tail(lines: Seq<(u64, Seq<char>)>, others: int, maximum: nat)
    ensures
        text::ends(lines, squeezed(lines, others, maximum)),
    decreases lines.len(),
{
    if lines.len() > 0 && others + charge(lines) > maximum {
        lemma_squeezed_is_a_tail(lines.drop_first(), others, maximum);
        let kept = squeezed(lines, others, maximum);
        let rest = lines.drop_first();
        let from = rest.len() - kept.len();
        assert(lines.subrange(from + 1, from + 1 + kept.len()) =~= rest.subrange(
            from,
            from + kept.len(),
        ));
    } else {
        assert(lines.subrange(0, lines.len() as int) =~= lines);
    }
}

/// A viewer misses no line and is shown none twice: the lines of a server that came before carry
/// numbers up to the one that the viewer is given, and the next line carries the number after the
/// last that was given, which is a greater one.
pub proof fn law_viewers_see_each_line_once(h: HistoryView, line: Seq<char>, access: u64)
    requires
        numbered(h),
        h.next_sequence < u64::MAX,
    ensures
        forall|i: int| 0 <= i < h.lines.len() ==> (#[trigger] h.lines[i]).0 <= replayed(h),
        recorded(h, line, access).next_sequence == h.next_sequence + 1,
        recorded(h, line, access).next_sequence > replayed(h),
        numbered(recorded(h, line, access)),
{
    let all = h.lines.push((bumped(h.next_sequence), line));
    let next = HistoryView { lines: all, next_sequence: bumped(h.next_sequence), last_access: access };
    assert(numbered(next)) by {
        assert forall|i: int| 0 <= i < all.len() implies (#[trigger] all[i]).0
            == next.next_sequence - (all.len() - 1 - i) by {
            if i < h.lines.len() {
                assert(all[i] == h.lines[i]);
            }
        }
    }
    law_bounded_keeps_newest(all);
    lemma_tail_is_numbered(next, bounded(all));
}

/// However many lines come, the lines of every server stay numbered in a row.
pub proof fn law_lines_stay_numbered(cache: CacheView, id: Seq<char>, line: Seq<char>)
    requires
        distinct_ids(cache.entries),
        all_numbered(cache.entries),
        cache.history(id).next_sequence < u64::MAX,
    ensures
        all_numbered(cache.pushed(id, line).entries),
{
    let was = cache.history(id);
    lemma_place(cache.entries, id);
    let p = place(cache.entries, id);
    assert(numbered(was)) by {
        if p < cache.entries.len() {
            assert(numbered(cache.entries[p].1));
        }
    }
    law_viewers_see_each_line_once(was, line, bumped(cache.clock));
    let h = recorded(was, line, bumped(cache.clock));
    let seated = cache.with(id, h);
    assert(all_numbered(seated)) by {
        assert forall|i: int| 0 <= i < seated.len() implies numbered((#[trigger] seated[i]).1) by {
            if i < cache.entries.len() && i != p {
                assert(seated[i] == cache.entries[i]);
            }
        }
    }
    assert forall|i: int, j: int| 0 <= i < j < seated.len() implies (#[trigger] seated[i]).0 != (
    #[trigger] seated[j]).0 by {
        if i < cache.entries.len() {
            assert(seated[i].0 == cache.entries[i].0);
        }
        if j < cache.entries.len() {
            assert(seated[j].0 == cache.entries[j].0);
        }
    }
    lemma_place_unique(seated, id, p);
    lemma_evicted(seated, cache.maximum, id);
    lemma_evicted_keeps_numbers(seated, cache.maximum, id);
    let kept = evicted(seated, cache.maximum, id);
    lemma_place(kept, id);
    let q = place(kept, id);
    let own = kept[q].1;
    let others = total(kept) - charge(own.lines);
    let fit = HistoryView { lines: squeezed(own.lines, others, cache.maximum), ..own };
    assert(numbered(own));
    lemma_squeezed_is_a_tail(own.lines, others, cache.maximum);
    lemma_tail_is_numbered(own, squeezed(own.lines, others, cache.maximum));
    let last = cache.pushed(id, line).entries;
    assert(last =~= kept.update(q, (id, fit)));
    assert forall|i: int| 0 <= i < last.len() implies numbered((#[trigger] last[i]).1) by {
        if i != q {
            assert(last[i] == kept[i]);
        }
    }
}

proof fn lemma_evicted_keeps_numbers(
    entries: Seq<(Seq<char>, HistoryView)>,
    maximum: nat,
    id: Seq<char>,
)
    requires
        all_numbered(entries),
    ensures
        all_numbered(evicted(entries, maximum, id)),
    decreases entries.len(),
{
    if total(entries) > maximum && entries.len() > 1 {
        lemma_oldest(entries, id);
        match oldest(entries, id) {
            Some(i) => {
                let rest = entries.remove(i);
                assert forall|k: int| 0 <= k < rest.len() implies numbered(
                    (#[trigger] rest[k]).1,
                ) by {
                    if k < i {
                        assert(rest[k] == entries[k]);
                    } else {
                        assert(rest[k] == entries[k + 1]);
                    }
                }
                lemma_evicted_keeps_numbers(rest, maximum, id);
            },
            None => {},
        }
    }
}

/// No more of the newest lines of a server could be kept: every tail of what was written that is
/// within the limits is as short as what is kept, or shorter.
pub proof fn law_kept_lines_are_the_longest_tail(
    lines: Seq<(u64, Seq<char>)>,
    tail: Seq<(u64, Seq<char>)>,
)
    requires
        text::ends(lines, tail),
        tail.len() <= CONSOLE_HISTORY_LINES,
        content(tail) <= CONSOLE_HISTORY_BYTES,
    ensures
        tail.len() <= bounded(lines).len(),
    decreases lines.len(),
{
    if lines.len() > 0 && (lines.len() > CONSOLE_HISTORY_LINES || content(lines)
        > CONSOLE_HISTORY_BYTES) {
        let rest = lines.drop_first();
        let from = lines.len() - tail.len();
        if from == 0 {
            assert(tail =~= lines);
        }
        assert(rest.subrange(from - 1, rest.len() as int) =~= lines.subrange(
            from,
            lines.len() as int,
        ));
        law_kept_lines_are_the_longest_tail(rest, tail);
    }
}

proof fn lemma_seated(cache: CacheView, id: Seq<char>, h: HistoryView)
    requires
        distinct_ids(cache.entries),
    ensures
        distinct_ids(cache.with(id, h)),
        place(cache.with(id, h), id) == place(cache.entries, id),
        place(cache.entries, id) < cache.with(id, h).len(),
{
    let seated = cache.with(id, h);
    lemma_place(cache.entries, id);
    assert forall|i: int, j: int| 0 <= i < j < seated.len() implies (#[trigger] seated[i]).0 != (
    #[trigger] seated[j]).0 by {
        if i < cache.entries.len() {
            assert(seated[i].0 == cache.entries[i].0);
        }
        if j < cache.entries.len() {
            assert(seated[j].0 == cache.entries[j].0);
        }
    }
    lemma_place_unique(seated, id, place(cache.entries, id));
}

proof fn lemma_place_of(entries: Seq<(Seq<char>, HistoryView)>, i: int)
    requires
        distinct_ids(entries),
        0 <= i < entries.len(),
    ensures
        place(entries, entries[i].0) == i,
{
    assert forall|k: int| 0 <= k < i implies (#[trigger] entries[k]).0 != entries[i].0 by {}
    lemma_place_unique(entries, entries[i].0, i);
}

/// While everything fits the budget, one more line of a server changes nothing but the lines of
/// that server: they are the longest tail that is within its limits.
pub proof fn law_nothing_leaves_within_the_budget(
    cache: CacheView,
    id: Seq<char>,
    line: Seq<char>,
    other: Seq<char>,
)
    requires
        distinct_ids(cache.entries),
        other != id,
        total(cache.with(id, recorded(cache.history(id), line, bumped(cache.clock))))
            <= cache.maximum,
    ensures
        cache.pushed(id, line).entries == cache.with(
            id,
            recorded(cache.history(id), line, bumped(cache.clock)),
        ),
        cache.pushed(id, line).history(id) == recorded(
            cache.history(id),
            line,
            bumped(cache.clock),
        ),
        cache.pushed(id, line).has(other) == cache.has(other),
        cache.pushed(id, line).history(other) == cache.history(other),
{
    let h = recorded(cache.history(id), line, bumped(cache.clock));
    let seated = cache.with(id, h);
    lemma_seated(cache, id, h);
    lemma_place(cache.entries, id);
    let q = place(seated, id);
    assert(seated[q] == (id, h));
    assert(squeezed(h.lines, total(seated) - charge(h.lines), cache.maximum) == h.lines);
    let last = cache.pushed(id, line).entries;
    assert(last =~= seated);
    lemma_place_unique(last, id, q);
    lemma_place(cache.entries, other);
    lemma_place(seated, other);
    let p = place(cache.entries, other);
    if p < cache.entries.len() {
        assert(seated[p] == cache.entries[p]);
        lemma_place_of(seated, p);
    } else {
        let k = place(seated, other);
        if k < seated.len() {
            assert(seated[k].0 == other);
            if k < cache.entries.len() {
                assert(cache.entries[k].0 == other);
            }
        }
    }
}

/// The servers were used in turn: no two of them at the same time, and none in the future.
pub open spec fn used_in_turn(cache: CacheView) -> bool {
    &&& forall|i: int, j: int|
        0 <= i < j < cache.entries.len() ==> (#[trigger] cache.entries[i]).1.last_access != (
        #[trigger] cache.entries[j]).1.last_access
    &&& forall|i: int|
        0 <= i < cache.entries.len() ==> (#[trigger] cache.entries[i]).1.last_access <= cache.clock
}

proof fn lemma_evicted_are_the_oldest(
    entries: Seq<(Seq<char>, HistoryView)>,
    maximum: nat,
    id: Seq<char>,
)
    requires
        distinct_ids(entries),
        place(entries, id) < entries.len(),
    ensures
        forall|j: int|
            0 <= j < evicted(entries, maximum, id).len() ==> entries.contains(
                #[trigger] evicted(entries, maximum, id)[j],
            ),
        evicted(entries, maximum, id).contains(entries[place(entries, id)]),
        forall|i: int, j: int|
            0 <= i < entries.len() && 0 <= j < evicted(entries, maximum, id).len() && !evicted(
                entries,
                maximum,
                id,
            ).contains(#[trigger] entries[i]) && (#[trigger] evicted(entries, maximum, id)[j]).0
                != id ==> entries[i].1.last_access <= evicted(
                entries,
                maximum,
                id,
            )[j].1.last_access,
    decreases entries.len(),
{
    let kept = evicted(entries, maximum, id);
    lemma_place(entries, id);
    let p = place(entries, id);
    if total(entries) > maximum && entries.len() > 1 {
        lemma_oldest(entries, id);
        match oldest(entries, id) {
            Some(o) => {
                let rest = entries.remove(o);
                lemma_remove_keeps(entries, o, id);
                lemma_evicted_are_the_oldest(rest, maximum, id);
                lemma_place(rest, id);
                assert forall|i: int| 0 <= i < entries.len() && i != o implies rest.contains(
                    #[trigger] entries[i],
                ) by {
                    let k = if i < o {
                        i
                    } else {
                        i - 1
                    };
                    assert(rest[k] == entries[i]);
                }
                assert forall|k: int| 0 <= k < rest.len() implies entries.contains(
                    #[trigger] rest[k],
                ) by {
                    let i = if k < o {
                        k
                    } else {
                        k + 1
                    };
                    assert(rest[k] == entries[i]);
                }
                assert forall|j: int| 0 <= j < kept.len() implies entries.contains(
                    #[trigger] kept[j],
                ) by {
                    assert(rest.contains(kept[j]));
                    let k = choose|k: int| 0 <= k < rest.len() && rest[k] == kept[j];
                    assert(entries.contains(rest[k]));
                }
                assert(kept.contains(entries[p])) by {
                    let r = place(rest, id);
                    let i = if r < o {
                        r
                    } else {
                        r + 1
                    };
                    assert(rest[r] == entries[i]);
                    if i != p {
                        assert(entries[i].0 == entries[p].0);
                    }
                }
                assert forall|i: int, j: int|
                    0 <= i < entries.len() && 0 <= j < kept.len() && !kept.contains(
                        #[trigger] entries[i],
                    ) && (#[trigger] kept[j]).0 != id implies entries[i].1.last_access
                    <= kept[j].1.last_access by {
                    if i == o {
                        assert(entries.contains(kept[j]));
                        let k = choose|k: int| 0 <= k < entries.len() && entries[k] == kept[j];
                        assert(entries[k].0 != id);
                    } else {
                        assert(rest.contains(entries[i]));
                        let k = choose|k: int| 0 <= k < rest.len() && rest[k] == entries[i];
                        assert(!kept.contains(rest[k]));
                    }
                }
            },
            None => {
                assert(entries[0].0 == id);
                assert(entries[1].0 == id);
            },
        }
    } else {
        assert forall|j: int| 0 <= j < kept.len() implies entries.contains(
            #[trigger] kept[j],
        ) by {}
        assert forall|i: int| 0 <= i < entries.len() implies kept.contains(
            #[trigger] entries[i],
        ) by {
            assert(kept[i] == entries[i]);
        }
    }
}

/// What makes room for one more line of a server: another server keeps all its lines or leaves as a
/// whole, one that leaves was used before every other one that stays, and lines of the server
/// itself go for the budget only where no other server is left.
pub proof fn law_the_oldest_servers_leave(
    cache: CacheView,
    id: Seq<char>,
    line: Seq<char>,
    gone: Seq<char>,
    kept: Seq<char>,
)
    requires
        distinct_ids(cache.entries),
        gone != id,
        kept != id,
    ensures
        cache.pushed(id, line).has(kept) ==> cache.has(kept) && cache.pushed(id, line).history(kept)
            == cache.history(kept),
        cache.has(gone) && !cache.pushed(id, line).has(gone) && cache.pushed(id, line).has(kept)
            ==> cache.history(gone).last_access <= cache.history(kept).last_access,
        used_in_turn(cache) && cache.has(gone) && !cache.pushed(id, line).has(gone)
            && cache.pushed(id, line).has(kept) ==> cache.history(gone).last_access
            < cache.history(kept).last_access,
        cache.pushed(id, line).history(id).lines != recorded(
            cache.history(id),
            line,
            bumped(cache.clock),
        ).lines ==> cache.pushed(id, line).entries.len() == 1,
{
    let h = recorded(cache.history(id), line, bumped(cache.clock));
    let seated = cache.with(id, h);
    lemma_seated(cache, id, h);
    lemma_place(cache.entries, id);
    let p = place(cache.entries, id);
    assert(seated[p] == (id, h));
    lemma_evicted(seated, cache.maximum, id);
    lemma_evicted_are_the_oldest(seated, cache.maximum, id);
    let left = evicted(seated, cache.maximum, id);
    lemma_place(left, id);
    let q = place(left, id);
    assert(left[q].1 == h) by {
        let i = choose|i: int| 0 <= i < left.len() && left[i] == seated[p];
        lemma_place_of(left, i);
    }
    let others = total(left) - charge(h.lines);
    let fit = HistoryView { lines: squeezed(h.lines, others, cache.maximum), ..h };
    let last = cache.pushed(id, line).entries;
    assert(last =~= left.update(q, (id, fit)));
    law_push_keeps_budget(cache, id, line);
    assert forall|k: int| 0 <= k < q implies (#[trigger] last[k]).0 != id by {
        assert(last[k] == left[k]);
    }
    lemma_place_unique(last, id, q);
    if left.len() != 1 {
        assert(squeezed(h.lines, others, cache.maximum) == h.lines);
    }
    lemma_place(last, kept);
    lemma_place(last, gone);
    lemma_place(cache.entries, kept);
    lemma_place(cache.entries, gone);
    let a = place(last, kept);
    if a < last.len() {
        assert(a != q);
        assert(last[a] == left[a]);
        assert(seated.contains(left[a]));
        let i = choose|i: int| 0 <= i < seated.len() && seated[i] == left[a];
        assert(i != p);
        assert(seated[i] == cache.entries[i]);
        lemma_place_of(cache.entries, i);
        let g = place(cache.entries, gone);
        if g < cache.entries.len() && place(last, gone) >= last.len() {
            assert(g != p);
            assert(seated[g] == cache.entries[g]);
            assert(!left.contains(seated[g])) by {
                if left.contains(seated[g]) {
                    let k = choose|k: int| 0 <= k < left.len() && left[k] == seated[g];
                    assert(k != q);
                    assert(last[k].0 == gone);
                }
            }
            assert(left[a].0 == kept);
            assert(seated[g].1.last_access <= left[a].1.last_access);
            assert(g != i);
            if used_in_turn(cache) {
                if g < i {
                    assert(cache.entries[g].1.last_access != cache.entries[i].1.last_access);
                } else {
                    assert(cache.entries[i].1.last_access != cache.entries[g].1.last_access);
                }
            }
        }
    }
}

/// However many lines come, are handed out or are forgotten, the servers stay used in turn.
pub proof fn law_servers_stay_used_in_turn(cache: CacheView, id: Seq<char>, line: Seq<char>)
    requires
        distinct_ids(cache.entries),
        used_in_turn(cache),
        cache.clock < u64::MAX,
    ensures
        used_in_turn(cache.pushed(id, line)),
        used_in_turn(cache.looked_at(id)),
        used_in_turn(cache.without(id)),
{
    lemma_place(cache.entries, id);
    assert(used_in_turn(cache.without(id))) by {
        let at = place(cache.entries, id);
        let rest = cache.without(id).entries;
        if at < cache.entries.len() {
            assert forall|i: int, j: int| 0 <= i < j < rest.len() implies (
            #[trigger] rest[i]).1.last_access != (#[trigger] rest[j]).1.last_access by {
                let x = if i < at {
                    i
                } else {
                    i + 1
                };
                let y = if j < at {
                    j
                } else {
                    j + 1
                };
                assert(rest[i] == cache.entries[x] && rest[j] == cache.entries[y]);
            }
            assert forall|i: int| 0 <= i < rest.len() implies (#[trigger] rest[i]).1.last_access
                <= cache.clock by {
                let x = if i < at {
                    i
                } else {
                    i + 1
                };
                assert(rest[i] == cache.entries[x]);
            }
        }
    }
    let after = cache.pushed(id, line);
    law_push_keeps_budget(cache, id, line);
    let h = recorded(cache.history(id), line, bumped(cache.clock));
    let seated = cache.with(id, h);
    lemma_seated(cache, id, h);
    lemma_place(cache.entries, id);
    let p = place(cache.entries, id);
    lemma_evicted(seated, cache.maximum, id);
    lemma_evicted_are_the_oldest(seated, cache.maximum, id);
    let left = evicted(seated, cache.maximum, id);
    lemma_place(left, id);
    let q = place(left, id);
    assert(left[q].1 == h) by {
        assert(seated[p] == (id, h));
        let i = choose|i: int| 0 <= i < left.len() && left[i] == seated[p];
        lemma_place_of(left, i);
    }
    assert forall|i: int| 0 <= i < after.entries.len() implies (
    #[trigger] after.entries[i]).1.last_access <= after.clock && (i != q
        ==> after.entries[i].1.last_access <= cache.clock && exists|k: int|
        0 <= k < cache.entries.len() && cache.entries[k] == after.entries[i]) && (i == q
        ==> after.entries[i].1.last_access == after.clock) by {
        if i != q {
            assert(after.entries[i] == left[i]);
            assert(seated.contains(left[i]));
            let k = choose|k: int| 0 <= k < seated.len() && seated[k] == left[i];
            assert(k != p) by {
                if k == p {
                    lemma_place_of(left, i);
                }
            }
            assert(seated[k] == cache.entries[k]);
        }
    }
    assert forall|i: int, j: int| 0 <= i < j < after.entries.len() implies (
    #[trigger] after.entries[i]).1.last_access != (#[trigger] after.entries[j]).1.last_access by {
        if i != q && j != q {
            let k = choose|k: int|
                0 <= k < cache.entries.len() && cache.entries[k] == after.entries[i];
            let m = choose|m: int|
                0 <= m < cache.entries.len() && cache.entries[m] == after.entries[j];
            assert(after.entries[i].0 != after.entries[j].0);
            if k < m {
                assert(cache.entries[k].1.last_access != cache.entries[m].1.last_access);
            } else {
                assert(k != m);
                assert(cache.entries[m].1.last_access != cache.entries[k].1.last_access);
            }
        }
    }
}

/// A line that is not longer than a whole history is kept as the last one, with the next number.
pub proof fn law_new_lines_are_kept(h: HistoryView, line: Seq<char>, access: u64)
    requires
        byte_len(line) <= CONSOLE_HISTORY_BYTES,
        h.next_sequence < u64::MAX,
    ensures
        recorded(h, line, access).lines.len() > 0,
        recorded(h, line, access).lines.last() == ((h.next_sequence + 1) as u64, line),
        recorded(h, line, access).last_access == access,
{
    let entry = ((h.next_sequence + 1) as u64, line);
    let all = h.lines.push(entry);
    let tail = seq![entry];
    assert(content(tail.drop_first()) == 0);
    assert(content(tail) == byte_len(line));
    assert(all.subrange(all.len() - 1, all.len() as int) =~= tail);
    law_kept_lines_are_the_longest_tail(all, tail);
    law_bounded_keeps_newest(all);
    let kept = bounded(all);
    assert(all.subrange(all.len() - kept.len(), all.len() as int) == kept);
    assert(kept.last() == all.last());
}

/// Handing out the lines of a server changes none of them, of no server; letting go of a server
/// takes its history and no other.
pub proof fn law_reading_changes_no_lines(cache: CacheView, id: Seq<char>, other: Seq<char>)
    requires
        distinct_ids(cache.entries),
    ensures
        cache.looked_at(id).history(id).lines == cache.history(id).lines,
        cache.looked_at(id).has(id) == cache.has(id),
        other != id ==> cache.looked_at(id).history(other) == cache.history(other),
        !cache.without(id).has(id),
        other != id ==> cache.without(id).history(other) == cache.history(other),
{
    let p = place(cache.entries, id);
    lemma_place(cache.entries, id);
    lemma_place(cache.entries, other);
    let seen = cache.looked_at(id).entries;
    lemma_place(seen, id);
    lemma_place(seen, other);
    let rest = cache.without(id).entries;
    lemma_place(rest, id);
    lemma_place(rest, other);
    let q = place(cache.entries, other);
    if p < cache.entries.len() {
        let s = place(seen, id);
        assert(seen[p].0 == id);
        assert(s == p) by {
            if s < p {
                assert(cache.entries[s].0 == id);
            }
        }
        if other != id {
            let t = place(seen, other);
            if q < cache.entries.len() {
                assert(seen[q].0 == other);
                if t < q {
                    assert(cache.entries[t].0 == other);
                }
                assert(t == q);
            } else if t < seen.len() {
                assert(cache.entries[t].0 == other);
            }
            let u = place(rest, other);
            if q < cache.entries.len() {
                let moved = if q < p {
                    q
                } else {
                    q - 1
                };
                assert(rest[moved] == cache.entries[q]);
                if u < moved {
                    let back = if u < p {
                        u
                    } else {
                        u + 1
                    };
                    assert(rest[u] == cache.entries[back]);
                }
                assert(u == moved);
            } else if u < rest.len() {
                let back = if u < p {
                    u
                } else {
                    u + 1
                };
                assert(rest[u] == cache.entries[back]);
            }
        }
        let w = place(rest, id);
        if w < rest.len() {
            let back = if w < p {
                w
            } else {
                w + 1
            };
            assert(rest[w] == cache.entries[back]);
            assert(cache.entries[p].0 == id);
        }
    }
}

/// A line is charged its bytes and a fixed sum; the lines of a server, and those of all servers, are
/// charged together.
pub proof fn law_charges_add_up(e: (u64, Seq<char>), lines: Seq<(u64, Seq<char>)>)
    ensures
        charge_of(e) == ENTRY_OVERHEAD + byte_len(e.1),
        charge(seq![e] + lines) == charge_of(e) + charge(lines),
        content(seq![e] + lines) == byte_len(e.1) + content(lines),
        charge(Seq::empty()) == 0,
        content(Seq::empty()) == 0,
{
    assert((seq![e] + lines).drop_first() =~= lines);
    assert((seq![e] + lines)[0] == e);
}

} // verus!
