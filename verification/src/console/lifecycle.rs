//! Which consoles this agent owns, who reads them, and what viewers are given.

use crate::console::decoder::TRUNCATION_SUFFIX;
use crate::console::history::{
    bumped, distinct_ids, entry_view, lemma_place, lemma_place_unique, place, CacheView,
    ConsoleEntry, HistoryCache, HistoryView,
};
use crate::error::Failure;
use crate::paths::{valid_id, validate_id};
use crate::protection::{
    counted, setting, str_view, verdict, env_usize, LineDecision, ProtectionState,
};
use crate::table::{NameSet, Table};
use crate::text;
use vstd::prelude::*;

verus! {

/// The number of lines that a viewer may fall behind.
pub const CONSOLE_BROADCAST_CAPACITY: usize = 64;

pub const DEFAULT_READER_IDLE_SECONDS: usize = 120;

pub const MAX_READER_IDLE_SECONDS: usize = 3600;

pub const DEFAULT_MAX_ACTIVE_READERS: usize = 256;

pub const MAX_ACTIVE_READERS: usize = 4096;

/// The smaller of two numbers.
pub open spec fn least(a: usize, b: usize) -> usize {
    if a < b {
        a
    } else {
        b
    }
}

/// The seconds without viewers after which a reader ends.
pub fn configured_reader_idle(value: Option<&str>) -> (r: usize)
    ensures
        r == least(
            setting(str_view(value), DEFAULT_READER_IDLE_SECONDS),
            MAX_READER_IDLE_SECONDS,
        ),
{
    let n = env_usize(value, DEFAULT_READER_IDLE_SECONDS);
    if n < MAX_READER_IDLE_SECONDS {
        n
    } else {
        MAX_READER_IDLE_SECONDS
    }
}

/// The number of readers that may run at a time.
pub fn configured_max_active_readers(value: Option<&str>) -> (r: usize)
    ensures
        r == least(setting(str_view(value), DEFAULT_MAX_ACTIVE_READERS), MAX_ACTIVE_READERS),
{
    let n = env_usize(value, DEFAULT_MAX_ACTIVE_READERS);
    if n < MAX_ACTIVE_READERS {
        n
    } else {
        MAX_ACTIVE_READERS
    }
}

/// A reader of one console. The token tells it from earlier readers of the same console.
#[derive(Clone, Copy, PartialEq, Eq, Structural)]
pub struct ReaderTask {
    pub token: u64,
    pub parked: bool,
    pub suspended: bool,
    pub finished: bool,
}

/// Which servers' consoles the agent owns, and which readers run.
pub struct ConsoleLifecycle {
    pub desired: NameSet,
    pub readers: Table<ReaderTask>,
    pub pending_additions: NameSet,
    pub pending_removals: NameSet,
    pub inventory_initialized: bool,
}

/// The servers whose consoles the agent owns, and the operations that came before the inventory.
#[verifier::ext_equal]
pub struct Inventory {
    pub desired: Set<Seq<char>>,
    pub additions: Set<Seq<char>>,
    pub removals: Set<Seq<char>>,
    pub initialized: bool,
}

impl Inventory {
    /// Nothing is known yet.
    pub open spec fn fresh() -> Inventory {
        Inventory {
            desired: Set::empty(),
            additions: Set::empty(),
            removals: Set::empty(),
            initialized: false,
        }
    }

    /// The inventory after a server was created.
    pub open spec fn created(self, id: Seq<char>) -> Inventory {
        Inventory {
            desired: self.desired.insert(id),
            additions: if self.initialized {
                self.additions
            } else {
                self.additions.insert(id)
            },
            removals: if self.initialized {
                self.removals
            } else {
                self.removals.remove(id)
            },
            initialized: self.initialized,
        }
    }

    /// The inventory after a server was deleted.
    pub open spec fn removed(self, id: Seq<char>) -> Inventory {
        Inventory {
            desired: self.desired.remove(id),
            additions: if self.initialized {
                self.additions
            } else {
                self.additions.remove(id)
            },
            removals: if self.initialized {
                self.removals
            } else {
                self.removals.insert(id)
            },
            initialized: self.initialized,
        }
    }

    /// The inventory after the list of all servers came. Only the first list counts.
    pub open spec fn synchronized(self, ids: Set<Seq<char>>) -> Inventory {
        if self.initialized {
            self
        } else {
            Inventory {
                desired: ids.union(self.additions).difference(self.removals),
                additions: Set::empty(),
                removals: Set::empty(),
                initialized: true,
            }
        }
    }

    /// The server may have a console here.
    pub open spec fn admits(self, id: Seq<char>) -> bool {
        if self.initialized {
            self.desired.contains(id)
        } else {
            !self.removals.contains(id)
        }
    }

    /// Why the server may not have a console here.
    pub open spec fn refusal(self) -> Seq<char> {
        if self.initialized {
            "server is not assigned to this agent console inventory"@
        } else {
            "server was removed before console inventory bootstrap"@
        }
    }

    /// The inventory after a viewer subscribed.
    pub open spec fn subscribed(self, id: Seq<char>) -> Inventory {
        Inventory {
            desired: if self.initialized {
                self.desired
            } else {
                self.desired.insert(id)
            },
            ..self
        }
    }
}

impl ConsoleLifecycle {
    /// The inventory part.
    pub open spec fn inventory(&self) -> Inventory {
        Inventory {
            desired: self.desired@,
            additions: self.pending_additions@,
            removals: self.pending_removals@,
            initialized: self.inventory_initialized,
        }
    }

    /// Nothing is known yet.
    pub fn new() -> (r: ConsoleLifecycle)
        ensures
            r.inventory() == Inventory::fresh(),
            r.readers@ == Map::<Seq<char>, ReaderTask>::empty(),
    {
        ConsoleLifecycle {
            desired: NameSet::new(),
            readers: Table::new(),
            pending_additions: NameSet::new(),
            pending_removals: NameSet::new(),
            inventory_initialized: false,
        }
    }

    /// Refuses servers that may not have a console here.
    fn check_owned(&self, id: &str) -> (r: Result<(), Failure>)
        ensures
            r is Ok <==> self.inventory().admits(id@),
            r is Err ==> r->Err_0.message@ == self.inventory().refusal(),
    {
        if self.inventory_initialized && !self.desired.contains(id) {
            return Err(Failure::new("server is not assigned to this agent console inventory"));
        }
        if !self.inventory_initialized && self.pending_removals.contains(id) {
            return Err(Failure::new("server was removed before console inventory bootstrap"));
        }
        Ok(())
    }

    /// Notes an addition for the inventory that is still to come.
    fn record_addition(&mut self, id: &str)
        ensures
            final(self).readers@ == old(self).readers@,
            final(self).inventory() == (Inventory {
                desired: old(self).inventory().desired,
                ..old(self).inventory().created(id@)
            }),
    {
        if !self.inventory_initialized {
            self.pending_removals.remove(id);
            self.pending_additions.insert(id.to_owned());
        }
    }

    /// Takes a reader out; hands out its token.
    fn stop_reader(&mut self, id: &str) -> (r: Option<u64>)
        ensures
            final(self).inventory() == old(self).inventory(),
            final(self).readers@ == old(self).readers@.remove(id@),
            r == token_of(old(self).readers@, id@),
    {
        match self.readers.remove(id) {
            Some(reader) => Some(reader.token),
            None => None,
        }
    }
}

/// The token of a console's reader.
pub open spec fn token_of(readers: Map<Seq<char>, ReaderTask>, id: Seq<char>) -> Option<u64> {
    if readers.contains_key(id) {
        Some(readers[id].token)
    } else {
        None
    }
}

/// The servers that have a reader that has not ended.
pub open spec fn live(readers: Map<Seq<char>, ReaderTask>) -> Set<Seq<char>> {
    readers.dom().filter(|id: Seq<char>| !readers[id].finished)
}

/// The number of readers that have not ended.
pub fn count_live(readers: &Table<ReaderTask>) -> (r: usize)
    ensures
        r == live(readers@).len(),
        live(readers@).finite(),
{
    let names = readers.keys();
    let ghost all = text::views(names@);
    let mut count: usize = 0;
    let mut i: usize = 0;
    let ghost mut seen: Set<Seq<char>> = Set::empty();
    while i < names.len()
        invariant
            all == text::views(names@),
            all.no_duplicates(),
            all.to_set() =~= readers@.dom(),
            0 <= i <= names@.len(),
            count <= i,
            seen.finite(),
            seen.len() == count,
            forall|k: Seq<char>| #[trigger]
                seen.contains(k) <==> all.take(i as int).contains(k) && !readers@[k].finished,
        decreases names.len() - i,
    {
        let name = names[i].as_str();
        proof {
            assert(all[i as int] == name@);
            assert(all.to_set().contains(name@));
            lemma_take_set(all, i as int);
            assert forall|k: Seq<char>| #[trigger]
                all.take(i as int + 1).contains(k) <==> all.take(i as int).contains(k) || k
                    == name@ by {
                assert(all.take(i as int + 1).to_set().contains(k) <==> all.take(
                    i as int,
                ).to_set().insert(name@).contains(k));
            }
            if all.take(i as int).contains(name@) {
                let j = choose|j: int| 0 <= j < i && all.take(i as int)[j] == name@;
                assert(all[j] == all[i as int]);
            }
        }
        if let Some(reader) = readers.get(name) {
            if !reader.finished {
                count += 1;
                proof {
                    seen = seen.insert(name@);
                }
            }
        }
        i += 1;
    }
    proof {
        assert(all.take(all.len() as int) =~= all);
        assert forall|k: Seq<char>| #[trigger] seen.contains(k) <==> live(readers@).contains(k) by {
            assert(all.to_set().contains(k) <==> readers@.dom().contains(k));
        }
        assert(seen =~= live(readers@));
    }
    count
}

/// What a synchronization did. `stopped` are the tokens of the readers that are to be ended.
pub struct ConsoleSyncResult {
    pub active_reader_count: usize,
    pub accepted_count: usize,
    pub removed_count: usize,
    pub stopped: Vec<u64>,
}

/// What is done about a console's reader when a viewer comes.
#[derive(Clone, Copy, PartialEq, Eq, Structural)]
pub enum ReaderChange {
    /// There is nothing to read from.
    Nothing,
    /// The reader with this token is told that a viewer came.
    Greet(u64),
    /// A reader is started under the second token; the first one, if any, is ended.
    Start(Option<u64>, u64),
}

/// What a viewer is given: the lines so far, the number of the last of them, the channel on which
/// later lines come, and what is done about the reader.
pub struct Subscription {
    pub history: Vec<String>,
    pub replayed_through: u64,
    pub channel: u64,
    pub reader: ReaderChange,
}

/// A line on its way to the viewers on a channel.
pub struct Delivery {
    pub entry: ConsoleEntry,
    pub channel: Option<u64>,
}

/// What becomes of a reader that ran without viewers.
#[derive(Clone, Copy, PartialEq, Eq, Structural)]
pub enum Retirement {
    /// Another reader has taken its place.
    Superseded,
    /// A viewer came meanwhile: a reader is started under the given token.
    Restarted(u64),
    /// It is gone, and so is the console's history.
    Retired,
}

/// Consoles with bounded history and readers that run while someone watches.
pub struct ConsoleHub {
    pub has_docker: bool,
    pub channels: Table<u64>,
    pub history: HistoryCache,
    pub lifecycle: ConsoleLifecycle,
    pub protection: ProtectionState,
    pub max_active_readers: usize,
}

/// A console line, cut to the longest length that is shown whole.
pub open spec fn shown(line: Seq<char>, maximum: usize) -> Seq<char> {
    if text::byte_len(line) > maximum {
        text::fitting(line, maximum as nat) + TRUNCATION_SUFFIX@
    } else {
        line
    }
}

/// What is published for a line that met the given decision.
pub open spec fn published(
    line: Seq<char>,
    decision: LineDecision,
    maximum: usize,
    limit: usize,
) -> Option<Seq<char>> {
    match decision {
        LineDecision::Allow => Some(shown(line, maximum)),
        LineDecision::Notify => Some(
            "[agent] Console output throttled above "@ + text::decimal(limit as nat)
                + " lines/second."@,
        ),
        LineDecision::Trip => Some(
            "[agent] Sustained console flood detected. Output remains throttled to protect the control plane."@,
        ),
        LineDecision::Suppress => None,
    }
}

/// The two caches hold the same histories but for those of `gone`.
pub open spec fn same_but(now: CacheView, was: CacheView, gone: Set<Seq<char>>) -> bool {
    &&& now.maximum == was.maximum
    &&& now.clock == was.clock
    &&& forall|k: Seq<char>| #[trigger] now.has(k) <==> was.has(k) && !gone.contains(k)
    &&& forall|k: Seq<char>| #[trigger] now.has(k) ==> now.history(k) == was.history(k)
}

/// Removing one history leaves the others.
pub proof fn lemma_removed_history(was: CacheView, now: CacheView, id: Seq<char>)
    requires
        distinct_ids(was.entries),
        now.maximum == was.maximum,
        now.clock == was.clock,
        now.entries == if was.has(id) {
            was.entries.remove(place(was.entries, id))
        } else {
            was.entries
        },
        !now.has(id),
    ensures
        same_but(now, was, set![id]),
{
    let p = place(was.entries, id);
    lemma_place(was.entries, id);
    assert forall|k: Seq<char>|
        (#[trigger] now.has(k) <==> was.has(k) && !set![id].contains(k)) && (now.has(k)
            ==> now.history(k) == was.history(k)) by {
        lemma_place(was.entries, k);
        lemma_place(now.entries, k);
        if was.has(id) && k != id {
            let q = place(was.entries, k);
            if q < was.entries.len() {
                let moved = if q < p {
                    q
                } else {
                    q - 1
                };
                assert(now.entries[moved] == was.entries[q]);
                assert forall|j: int| 0 <= j < moved implies (#[trigger] now.entries[j]).0
                    != k by {
                    let from = if j < p {
                        j
                    } else {
                        j + 1
                    };
                    assert(now.entries[j] == was.entries[from]);
                    assert(was.entries[from].0 != k);
                }
                lemma_place_unique(now.entries, k, moved);
            } else {
                assert forall|j: int| 0 <= j < now.entries.len() implies (
                #[trigger] now.entries[j]).0 != k by {
                    let from = if j < p {
                        j
                    } else {
                        j + 1
                    };
                    assert(now.entries[j] == was.entries[from]);
                    assert(was.entries[from].0 != k);
                }
                lemma_place_unique(now.entries, k, now.entries.len() as int);
            }
        }
    }
}

/// The protection state without anything about `gone`.
pub open spec fn protection_without(
    now: ProtectionState,
    was: ProtectionState,
    gone: Set<Seq<char>>,
) -> bool {
    &&& now.same_limits(&was)
    &&& now.commands@ == was.commands@.remove_keys(gone)
    &&& now.console@ == was.console@.remove_keys(gone)
    &&& now.statuses@ == was.statuses@.remove_keys(gone)
    &&& now.recovery@ == was.recovery@.remove_keys(gone)
}

impl ConsoleHub {
    pub open spec fn wf(&self) -> bool {
        self.history.wf()
    }

    /// A hub without any console.
    pub fn with_optional_docker(
        has_docker: bool,
        protection: ProtectionState,
        history_bytes: Option<&str>,
        max_active_readers: Option<&str>,
    ) -> (r: ConsoleHub)
        ensures
            r.wf(),
            r.has_docker == has_docker,
            r.channels@ == Map::<Seq<char>, u64>::empty(),
            r.history@.entries.len() == 0,
            r.lifecycle.inventory() == Inventory::fresh(),
            r.lifecycle.readers@ == Map::<Seq<char>, ReaderTask>::empty(),
            r.protection == protection,
            r.max_active_readers == least(
                setting(str_view(max_active_readers), DEFAULT_MAX_ACTIVE_READERS),
                MAX_ACTIVE_READERS,
            ),
    {
        ConsoleHub {
            has_docker,
            channels: Table::new(),
            history: HistoryCache::configured(history_bytes),
            lifecycle: ConsoleLifecycle::new(),
            protection,
            max_active_readers: configured_max_active_readers(max_active_readers),
        }
    }

    /// Forgets the channel, the history and the protection state of a server.
    fn forget(&mut self, id: &str)
        requires
            old(self).wf(),
        ensures
            final(self).wf(),
            final(self).has_docker == old(self).has_docker,
            final(self).max_active_readers == old(self).max_active_readers,
            final(self).lifecycle == old(self).lifecycle,
            final(self).channels@ == old(self).channels@.remove(id@),
            same_but(final(self).history@, old(self).history@, set![id@]),
            protection_without(final(self).protection, old(self).protection, set![id@]),
    {
        let ghost was = *self;
        let _ = self.channels.remove(id);
        proof {
            self.history.lemma_wf();
        }
        self.history.remove(id);
        self.protection.remove(id);
        proof {
            lemma_removed_history(was.history@, self.history@, id@);
            assert(self.protection.commands@ =~= was.protection.commands@.remove_keys(set![id@]));
            assert(self.protection.console@ =~= was.protection.console@.remove_keys(set![id@]));
            assert(self.protection.statuses@ =~= was.protection.statuses@.remove_keys(set![id@]));
            assert(self.protection.recovery@ =~= was.protection.recovery@.remove_keys(set![id@]));
        }
    }

    /// Takes over the list of all servers. The first list counts, later ones are acknowledged
    /// without effect. Servers that were created or deleted here before the list came keep that
    /// state. A list with an invalid identifier changes nothing.
    pub fn synchronize_servers(&mut self, server_ids: Vec<String>) -> (r: Result<
        ConsoleSyncResult,
        Failure,
    >)
        requires
            old(self).wf(),
        ensures
            final(self).wf(),
            final(self).has_docker == old(self).has_docker,
            final(self).max_active_readers == old(self).max_active_readers,
            r is Ok <==> old(self).lifecycle.inventory_initialized || (forall|i: int|
                0 <= i < server_ids@.len() ==> valid_id(#[trigger] server_ids@[i]@)),
            r is Err ==> *final(self) == *old(self) && r->Err_0.message@ == "invalid server id"@,
            r is Ok ==> {
                let ids = text::views(server_ids@).to_set();
                let now = old(self).lifecycle.inventory().synchronized(ids);
                let gone = old(self).lifecycle.desired@.difference(now.desired);
                &&& final(self).lifecycle.inventory() == now
                &&& final(self).lifecycle.readers@ == old(self).lifecycle.readers@.remove_keys(
                    gone,
                )
                &&& final(self).channels@ == old(self).channels@.remove_keys(gone)
                &&& same_but(final(self).history@, old(self).history@, gone)
                &&& protection_without(final(self).protection, old(self).protection, gone)
                &&& r->Ok_0.active_reader_count == live(final(self).lifecycle.readers@).len()
                &&& r->Ok_0.accepted_count == now.desired.len()
                &&& r->Ok_0.removed_count == gone.len()
                &&& forall|t: u64| #[trigger]
                    r->Ok_0.stopped@.contains(t) <==> exists|id: Seq<char>|
                        gone.contains(id) && #[trigger] token_of(
                            old(self).lifecycle.readers@,
                            id,
                        ) == Some(t)
            },
    {
        let ghost was = *self;
        if self.lifecycle.inventory_initialized {
            proof {
                let gone = was.lifecycle.desired@.difference(was.lifecycle.desired@);
                assert(gone =~= Set::<Seq<char>>::empty());
                assert(was.lifecycle.readers@.remove_keys(gone) =~= was.lifecycle.readers@);
                assert(was.channels@.remove_keys(gone) =~= was.channels@);
                assert(was.protection.commands@.remove_keys(gone) =~= was.protection.commands@);
                assert(was.protection.console@.remove_keys(gone) =~= was.protection.console@);
                assert(was.protection.statuses@.remove_keys(gone) =~= was.protection.statuses@);
                assert(was.protection.recovery@.remove_keys(gone) =~= was.protection.recovery@);
            }
            let count = count_live(&self.lifecycle.readers);
            return Ok(
                ConsoleSyncResult {
                    active_reader_count: count,
                    accepted_count: self.lifecycle.desired.len(),
                    removed_count: 0,
                    stopped: Vec::new(),
                },
            );
        }
        let mut desired = match validate_inventory(&server_ids) {
            Ok(desired) => desired,
            Err(e) => {
                return Err(e);
            },
        };
        let additions = self.lifecycle.pending_additions.names();
        insert_all(&mut desired, &additions);
        let removals = self.lifecycle.pending_removals.names();
        remove_all(&mut desired, &removals);
        let before = self.lifecycle.desired.names();
        let mut stopped: Vec<u64> = Vec::new();
        let mut removed_count: usize = 0;
        let mut i: usize = 0;
        let ghost all = text::views(before@);
        let ghost mut gone: Set<Seq<char>> = Set::empty();
        let ghost now = was.lifecycle.inventory().synchronized(
            text::views(server_ids@).to_set(),
        );
        proof {
            assert(desired@ =~= now.desired);
            assert(self.lifecycle.readers@ =~= was.lifecycle.readers@.remove_keys(gone));
            assert(self.channels@ =~= was.channels@.remove_keys(gone));
            assert(was.protection.commands@.remove_keys(gone) =~= was.protection.commands@);
            assert(was.protection.console@.remove_keys(gone) =~= was.protection.console@);
            assert(was.protection.statuses@.remove_keys(gone) =~= was.protection.statuses@);
            assert(was.protection.recovery@.remove_keys(gone) =~= was.protection.recovery@);
        }
        while i < before.len()
            invariant
                self.wf(),
                self.has_docker == was.has_docker,
                self.max_active_readers == was.max_active_readers,
                self.lifecycle.inventory() == was.lifecycle.inventory(),
                all == text::views(before@),
                all.no_duplicates(),
                all.to_set() == was.lifecycle.desired@,
                desired@ == now.desired,
                0 <= i <= before@.len(),
                removed_count <= i,
                gone.finite(),
                gone.len() == removed_count,
                forall|k: Seq<char>| #[trigger]
                    gone.contains(k) <==> all.take(i as int).contains(k) && !now.desired.contains(
                        k,
                    ),
                self.lifecycle.readers@ == was.lifecycle.readers@.remove_keys(gone),
                self.channels@ == was.channels@.remove_keys(gone),
                same_but(self.history@, was.history@, gone),
                protection_without(self.protection, was.protection, gone),
                forall|t: u64| #[trigger]
                    stopped@.contains(t) <==> exists|id: Seq<char>|
                        gone.contains(id) && #[trigger] token_of(was.lifecycle.readers@, id)
                            == Some(t),
            decreases before.len() - i,
        {
            let name = before[i].as_str();
            let ghost gone0 = gone;
            let ghost here = *self;
            proof {
                assert(all[i as int] == name@);
                lemma_take_set(all, i as int);
                assert forall|k: Seq<char>| #[trigger]
                    all.take(i as int + 1).contains(k) <==> all.take(i as int).contains(k) || k
                        == name@ by {
                    assert(all.take(i as int + 1).to_set().contains(k) <==> all.take(
                        i as int,
                    ).to_set().insert(name@).contains(k));
                }
                if all.take(i as int).contains(name@) {
                    let j = choose|j: int| 0 <= j < i && all.take(i as int)[j] == name@;
                    assert(all[j] == all[i as int]);
                }
            }
            if !desired.contains(name) {
                removed_count += 1;
                let token = self.lifecycle.stop_reader(name);
                self.forget(name);
                let ghost stopped0 = stopped@;
                if let Some(token) = token {
                    stopped.push(token);
                }
                proof {
                    gone = gone0.insert(name@);
                    assert(self.lifecycle.readers@ =~= was.lifecycle.readers@.remove_keys(gone));
                    assert(self.channels@ =~= was.channels@.remove_keys(gone));
                    assert(self.protection.commands@ =~= was.protection.commands@.remove_keys(
                        gone,
                    ));
                    assert(self.protection.console@ =~= was.protection.console@.remove_keys(gone));
                    assert(self.protection.statuses@ =~= was.protection.statuses@.remove_keys(
                        gone,
                    ));
                    assert(self.protection.recovery@ =~= was.protection.recovery@.remove_keys(
                        gone,
                    ));
                    assert(token_of(here.lifecycle.readers@, name@) == token_of(
                        was.lifecycle.readers@,
                        name@,
                    ));
                    assert forall|t: u64| #[trigger]
                        stopped@.contains(t) <==> exists|id: Seq<char>|
                            gone.contains(id) && #[trigger] token_of(was.lifecycle.readers@, id)
                                == Some(t) by {
                        if stopped@.contains(t) {
                            if stopped0.contains(t) {
                                let id = choose|id: Seq<char>|
                                    gone0.contains(id) && #[trigger] token_of(
                                        was.lifecycle.readers@,
                                        id,
                                    ) == Some(t);
                                assert(gone.contains(id));
                            } else {
                                assert(token_of(was.lifecycle.readers@, name@) == Some(t)) by {
                                    let j = choose|j: int|
                                        0 <= j < stopped@.len() && stopped@[j] == t;
                                    if j < stopped0.len() {
                                        assert(stopped0[j] == t);
                                    }
                                }
                                assert(gone.contains(name@));
                            }
                        }
                        if exists|id: Seq<char>|
                            gone.contains(id) && #[trigger] token_of(was.lifecycle.readers@, id)
                                == Some(t) {
                            let id = choose|id: Seq<char>|
                                gone.contains(id) && #[trigger] token_of(
                                    was.lifecycle.readers@,
                                    id,
                                ) == Some(t);
                            if id == name@ {
                                assert(stopped@[stopped0.len() as int] == t);
                            } else {
                                assert(gone0.contains(id));
                                assert(stopped0.contains(t));
                                let j = choose|j: int| 0 <= j < stopped0.len() && stopped0[j] == t;
                                assert(stopped@[j] == t);
                            }
                        }
                    }
                }
            }
            i += 1;
        }
        proof {
            assert(all.take(all.len() as int) =~= all);
            assert forall|k: Seq<char>| #[trigger]
                gone.contains(k) <==> was.lifecycle.desired@.difference(now.desired).contains(
                    k,
                ) by {
                assert(all.to_set().contains(k) <==> was.lifecycle.desired@.contains(k));
            }
            assert(gone =~= was.lifecycle.desired@.difference(now.desired));
        }
        let accepted_count = desired.len();
        self.lifecycle.desired = desired;
        self.lifecycle.pending_additions = NameSet::new();
        self.lifecycle.pending_removals = NameSet::new();
        self.lifecycle.inventory_initialized = true;
        let active_reader_count = count_live(&self.lifecycle.readers);
        assert(self.lifecycle.inventory() =~= now);
        Ok(ConsoleSyncResult { active_reader_count, accepted_count, removed_count, stopped })
    }

    /// Takes over a server that was created.
    pub fn track_server(&mut self, id: &str) -> (r: Result<(), Failure>)
        requires
            old(self).wf(),
        ensures
            final(self).wf(),
            final(self).has_docker == old(self).has_docker,
            final(self).max_active_readers == old(self).max_active_readers,
            final(self).channels == old(self).channels,
            final(self).history == old(self).history,
            final(self).protection == old(self).protection,
            final(self).lifecycle.readers@ == old(self).lifecycle.readers@,
            r is Ok <==> valid_id(id@),
            r is Err ==> r->Err_0.message@ == "invalid server id"@,
            final(self).lifecycle.inventory() == if valid_id(id@) {
                old(self).lifecycle.inventory().created(id@)
            } else {
                old(self).lifecycle.inventory()
            },
    {
        match validate_id(id) {
            Ok(()) => {
                self.lifecycle.record_addition(id);
                self.lifecycle.desired.insert(id.to_owned());
                Ok(())
            },
            Err(e) => Err(e),
        }
    }

    /// Takes over a server whose container was started or replaced; its reader, whose token is
    /// handed out, is no longer suspended and is woken.
    pub fn refresh_server(&mut self, id: &str) -> (r: Result<Option<u64>, Failure>)
        requires
            old(self).wf(),
        ensures
            final(self).wf(),
            final(self).has_docker == old(self).has_docker,
            final(self).max_active_readers == old(self).max_active_readers,
            final(self).channels == old(self).channels,
            final(self).history == old(self).history,
            final(self).protection == old(self).protection,
            r is Ok <==> valid_id(id@),
            r is Err ==> r->Err_0.message@ == "invalid server id"@ && *final(self) == *old(self),
            r is Ok ==> {
                &&& r->Ok_0 == token_of(old(self).lifecycle.readers@, id@)
                &&& final(self).lifecycle.inventory() == old(self).lifecycle.inventory().created(
                    id@,
                )
                &&& final(self).lifecycle.readers@ == if old(
                    self,
                ).lifecycle.readers@.contains_key(id@) {
                    old(self).lifecycle.readers@.insert(
                        id@,
                        ReaderTask { suspended: false, ..old(self).lifecycle.readers@[id@] },
                    )
                } else {
                    old(self).lifecycle.readers@
                }
            },
    {
        match validate_id(id) {
            Ok(()) => {
                self.lifecycle.record_addition(id);
                self.lifecycle.desired.insert(id.to_owned());
                let reader = match self.lifecycle.readers.get(id) {
                    Some(reader) => *reader,
                    None => {
                        return Ok(None);
                    },
                };
                self.lifecycle.readers.insert(
                    id.to_owned(),
                    ReaderTask { suspended: false, ..reader },
                );
                Ok(Some(reader.token))
            },
            Err(e) => Err(e),
        }
    }

    /// Whether the list of all servers has come.
    pub fn inventory_initialized(&self) -> (r: bool)
        ensures
            r == self.lifecycle.inventory_initialized,
    {
        self.lifecycle.inventory_initialized
    }

    /// Whether the container must be looked at before a viewer may attach.
    pub fn attach_requires_inspection(&self, id: &str) -> (r: Result<bool, Failure>)
        ensures
            r is Ok <==> self.lifecycle.inventory().admits(id@),
            r is Err ==> r->Err_0.message@ == self.lifecycle.inventory().refusal(),
            r is Ok ==> r->Ok_0 == !self.lifecycle.desired@.contains(id@),
    {
        match self.lifecycle.check_owned(id) {
            Ok(()) => Ok(!self.lifecycle.desired.contains(id)),
            Err(e) => Err(e),
        }
    }

    /// Suspends the reader of a console whose container is missing for now, and hands out its
    /// token for it to be woken.
    pub fn detach_reader(&mut self, id: &str) -> (r: Option<u64>)
        requires
            old(self).wf(),
        ensures
            final(self).wf(),
            final(self).has_docker == old(self).has_docker,
            final(self).max_active_readers == old(self).max_active_readers,
            final(self).channels == old(self).channels,
            final(self).history == old(self).history,
            final(self).protection == old(self).protection,
            final(self).lifecycle.inventory() == old(self).lifecycle.inventory(),
            r == token_of(old(self).lifecycle.readers@, id@),
            final(self).lifecycle.readers@ == if r is Some {
                old(self).lifecycle.readers@.insert(
                    id@,
                    ReaderTask { suspended: true, ..old(self).lifecycle.readers@[id@] },
                )
            } else {
                old(self).lifecycle.readers@
            },
    {
        let reader = match self.lifecycle.readers.get(id) {
            Some(reader) => *reader,
            None => {
                return None;
            },
        };
        self.lifecycle.readers.insert(id.to_owned(), ReaderTask { suspended: true, ..reader });
        Some(reader.token)
    }

    /// Ends the suspension of a console's reader when its container runs again; the token is
    /// handed out where the reader waits to be woken.
    pub fn wake_reader(&mut self, id: &str) -> (r: Option<u64>)
        requires
            old(self).wf(),
        ensures
            final(self).wf(),
            final(self).has_docker == old(self).has_docker,
            final(self).max_active_readers == old(self).max_active_readers,
            final(self).channels == old(self).channels,
            final(self).history == old(self).history,
            final(self).protection == old(self).protection,
            final(self).lifecycle.inventory() == old(self).lifecycle.inventory(),
            ({
                let readers = old(self).lifecycle.readers@;
                let owned = old(self).lifecycle.desired@.contains(id@) && readers.contains_key(
                    id@,
                );
                &&& r == if owned && (readers[id@].suspended || readers[id@].parked) {
                    Some(readers[id@].token)
                } else {
                    None
                }
                &&& final(self).lifecycle.readers@ == if owned {
                    readers.insert(id@, ReaderTask { suspended: false, ..readers[id@] })
                } else {
                    readers
                }
            }),
    {
        if !self.lifecycle.desired.contains(id) {
            return None;
        }
        let reader = match self.lifecycle.readers.get(id) {
            Some(reader) => *reader,
            None => {
                return None;
            },
        };
        self.lifecycle.readers.insert(id.to_owned(), ReaderTask { suspended: false, ..reader });
        if reader.suspended || reader.parked {
            Some(reader.token)
        } else {
            None
        }
    }

    /// Notes whether the reader with the given token waits, and whether it has ended.
    pub fn note_reader(&mut self, id: &str, token: u64, parked: bool, finished: bool)
        requires
            old(self).wf(),
        ensures
            final(self).wf(),
            final(self).has_docker == old(self).has_docker,
            final(self).max_active_readers == old(self).max_active_readers,
            final(self).channels == old(self).channels,
            final(self).history == old(self).history,
            final(self).protection == old(self).protection,
            final(self).lifecycle.inventory() == old(self).lifecycle.inventory(),
            final(self).lifecycle.readers@ == if old(self).is_active(id@, token) {
                old(self).lifecycle.readers@.insert(
                    id@,
                    ReaderTask { parked, finished, ..old(self).lifecycle.readers@[id@] },
                )
            } else {
                old(self).lifecycle.readers@
            },
    {
        let reader = match self.lifecycle.readers.get(id) {
            Some(reader) => *reader,
            None => {
                return ;
            },
        };
        if reader.token == token {
            self.lifecycle.readers.insert(
                id.to_owned(),
                ReaderTask { parked, finished, ..reader },
            );
        }
    }

    /// The reader with the given token is the console's reader.
    pub open spec fn is_active(&self, id: Seq<char>, token: u64) -> bool {
        token_of(self.lifecycle.readers@, id) == Some(token)
    }

    /// Whether the reader with the given token is the console's reader.
    pub fn reader_is_active(&self, id: &str, token: u64) -> (r: bool)
        ensures
            r == self.is_active(id@, token),
    {
        match self.lifecycle.readers.get(id) {
            Some(reader) => reader.token == token,
            None => false,
        }
    }

    /// A new reader may run for the console: nothing is read, one runs already, or there is room.
    pub open spec fn has_capacity(&self, id: Seq<char>) -> bool {
        !self.has_docker || live(self.lifecycle.readers@).contains(id) || live(
            self.lifecycle.readers@,
        ).len() < self.max_active_readers
    }

    /// What is done about the console's reader when a viewer comes.
    pub open spec fn reader_change(&self, id: Seq<char>, token: u64) -> ReaderChange {
        if live(self.lifecycle.readers@).contains(id) {
            ReaderChange::Greet(self.lifecycle.readers@[id].token)
        } else if self.has_docker {
            ReaderChange::Start(token_of(self.lifecycle.readers@, id), token)
        } else {
            ReaderChange::Nothing
        }
    }

    /// Gives a viewer the lines so far and a channel for the later ones. `channel` and `token`
    /// number the channel and the reader that are made if they are needed.
    pub fn subscribe(&mut self, id: &str, channel: u64, token: u64) -> (r: Result<
        Subscription,
        Failure,
    >)
        requires
            old(self).wf(),
        ensures
            final(self).wf(),
            final(self).has_docker == old(self).has_docker,
            final(self).max_active_readers == old(self).max_active_readers,
            final(self).protection == old(self).protection,
            r is Ok <==> old(self).lifecycle.inventory().admits(id@) && old(self).has_capacity(id@),
            r is Err ==> final(self).channels == old(self).channels && final(self).history == old(
                self,
            ).history && final(self).lifecycle.readers@ == old(self).lifecycle.readers@,
            !old(self).lifecycle.inventory().admits(id@) ==> r->Err_0.message@ == old(
                self,
            ).lifecycle.inventory().refusal(),
            old(self).lifecycle.inventory().admits(id@) && !old(self).has_capacity(id@)
                ==> r->Err_0.message@ == "console reader capacity reached (maximum "@
                + text::decimal(old(self).max_active_readers as nat) + ")"@,
            final(self).lifecycle.inventory() == if old(self).lifecycle.inventory().admits(id@) {
                old(self).lifecycle.inventory().subscribed(id@)
            } else {
                old(self).lifecycle.inventory()
            },
            r is Ok ==> {
                let was = old(self).history@.history(id@).lines;
                let readers = old(self).lifecycle.readers@;
                &&& text::views(r->Ok_0.history@) == was.map_values(|e: (u64, Seq<char>)| e.1)
                &&& r->Ok_0.replayed_through == if was.len() > 0 {
                    was.last().0
                } else {
                    0
                }
                &&& r->Ok_0.channel == if old(self).channels@.contains_key(id@) {
                    old(self).channels@[id@]
                } else {
                    channel
                }
                &&& final(self).channels@ == old(self).channels@.insert(id@, r->Ok_0.channel)
                &&& r->Ok_0.reader == old(self).reader_change(id@, token)
                &&& final(self).lifecycle.readers@ == match r->Ok_0.reader {
                    ReaderChange::Greet(_) => readers,
                    ReaderChange::Nothing => readers.remove(id@),
                    ReaderChange::Start(_, _) => readers.insert(
                        id@,
                        (ReaderTask { token, parked: false, suspended: false, finished: false }),
                    ),
                }
                &&& final(self).history@.maximum == old(self).history@.maximum
                &&& final(self).history@.clock == bumped(old(self).history@.clock)
                &&& final(self).history@.entries == if old(self).history@.has(id@) {
                    old(self).history@.with(
                        id@,
                        HistoryView {
                            last_access: bumped(old(self).history@.clock),
                            ..old(self).history@.history(id@)
                        },
                    )
                } else {
                    old(self).history@.entries
                }
            },
    {
        let ghost was = *self;
        match self.lifecycle.check_owned(id) {
            Ok(()) => {},
            Err(e) => {
                return Err(e);
            },
        }
        if !self.lifecycle.inventory_initialized {
            self.lifecycle.desired.insert(id.to_owned());
        }
        assert(self.lifecycle.inventory() =~= was.lifecycle.inventory().subscribed(id@));
        let running = match self.lifecycle.readers.get(id) {
            Some(reader) => if reader.finished {
                None
            } else {
                Some(reader.token)
            },
            None => None,
        };
        if self.has_docker && running.is_none() {
            let active = count_live(&self.lifecycle.readers);
            if active >= self.max_active_readers {
                let limit = text::decimal_string(self.max_active_readers as u64);
                return Err(
                    Failure {
                        message: text::concat3(
                            "console reader capacity reached (maximum ",
                            limit.as_str(),
                            ")",
                        ),
                    },
                );
            }
        }
        let channel = match self.channels.get(id) {
            Some(existing) => *existing,
            None => channel,
        };
        self.channels.insert(id.to_owned(), channel);
        let reader = match running {
            Some(token) => ReaderChange::Greet(token),
            None => {
                let stopped = self.lifecycle.stop_reader(id);
                if self.has_docker {
                    self.lifecycle.readers.insert(
                        id.to_owned(),
                        ReaderTask { token, parked: false, suspended: false, finished: false },
                    );
                    assert(self.lifecycle.readers@ =~= was.lifecycle.readers@.insert(
                        id@,
                        (ReaderTask { token, parked: false, suspended: false, finished: false }),
                    ));
                    ReaderChange::Start(stopped, token)
                } else {
                    ReaderChange::Nothing
                }
            },
        };
        let (history, replayed_through) = self.history.snapshot(id);
        Ok(Subscription { history, replayed_through, channel, reader })
    }

    /// Ends a reader that ran without viewers. `receivers` is the number of viewers on its
    /// channel, and `fresh` numbers the reader that is started if one came meanwhile.
    pub fn retire_idle_reader(
        &mut self,
        id: &str,
        token: u64,
        channel: u64,
        receivers: usize,
        fresh: u64,
    ) -> (r: Retirement)
        requires
            old(self).wf(),
        ensures
            final(self).wf(),
            final(self).has_docker == old(self).has_docker,
            final(self).max_active_readers == old(self).max_active_readers,
            final(self).protection == old(self).protection,
            final(self).lifecycle.inventory() == old(self).lifecycle.inventory(),
            r == if !old(self).is_active(id@, token) {
                Retirement::Superseded
            } else if receivers > 0 && old(self).lifecycle.desired@.contains(id@) {
                Retirement::Restarted(fresh)
            } else {
                Retirement::Retired
            },
            r is Superseded ==> *final(self) == *old(self),
            r is Restarted ==> {
                &&& final(self).channels == old(self).channels
                &&& final(self).history == old(self).history
                &&& final(self).lifecycle.readers@ == if old(self).has_docker {
                    old(self).lifecycle.readers@.insert(
                        id@,
                        (ReaderTask { token: fresh, parked: false, suspended: false, finished: false
                        }),
                    )
                } else {
                    old(self).lifecycle.readers@.remove(id@)
                }
            },
            r is Retired ==> {
                &&& final(self).lifecycle.readers@ == old(self).lifecycle.readers@.remove(id@)
                &&& final(self).channels@ == if receivers == 0 && old(
                    self,
                ).channels@.contains_key(id@) && old(self).channels@[id@] == channel {
                    old(self).channels@.remove(id@)
                } else {
                    old(self).channels@
                }
                &&& same_but(final(self).history@, old(self).history@, set![id@])
            },
    {
        if !self.reader_is_active(id, token) {
            return Retirement::Superseded;
        }
        let ghost was = *self;
        let _ = self.lifecycle.stop_reader(id);
        if receivers > 0 && self.lifecycle.desired.contains(id) {
            if self.has_docker {
                self.lifecycle.readers.insert(
                    id.to_owned(),
                    ReaderTask { token: fresh, parked: false, suspended: false, finished: false },
                );
                assert(self.lifecycle.readers@ =~= was.lifecycle.readers@.insert(
                    id@,
                    (ReaderTask { token: fresh, parked: false, suspended: false, finished: false }),
                ));
            }
            return Retirement::Restarted(fresh);
        }
        let same_channel = match self.channels.get(id) {
            Some(current) => *current == channel,
            None => false,
        };
        if same_channel && receivers == 0 {
            let _ = self.channels.remove(id);
        }
        proof {
            self.history.lemma_wf();
        }
        self.history.remove(id);
        proof {
            lemma_removed_history(was.history@, self.history@, id@);
        }
        Retirement::Retired
    }

    /// Forgets a server that was deleted, and hands out the token of its reader for it to be
    /// ended.
    pub fn remove(&mut self, id: &str) -> (r: Option<u64>)
        requires
            old(self).wf(),
        ensures
            final(self).wf(),
            final(self).has_docker == old(self).has_docker,
            final(self).max_active_readers == old(self).max_active_readers,
            r == token_of(old(self).lifecycle.readers@, id@),
            final(self).lifecycle.inventory() == old(self).lifecycle.inventory().removed(id@),
            final(self).lifecycle.readers@ == old(self).lifecycle.readers@.remove(id@),
            final(self).channels@ == old(self).channels@.remove(id@),
            same_but(final(self).history@, old(self).history@, set![id@]),
            protection_without(final(self).protection, old(self).protection, set![id@]),
    {
        if !self.lifecycle.inventory_initialized {
            self.lifecycle.pending_additions.remove(id);
            self.lifecycle.pending_removals.insert(id.to_owned());
        }
        self.lifecycle.desired.remove(id);
        assert(self.lifecycle.inventory() =~= old(self).lifecycle.inventory().removed(id@));
        let token = self.lifecycle.stop_reader(id);
        self.forget(id);
        token
    }

    /// The decision that a line of `id` meets at `now`.
    pub open spec fn decision(&self, id: Seq<char>, now: u64) -> LineDecision {
        verdict(
            self.protection.rate_at(id, now),
            self.protection.console_lines_per_second,
            self.protection.console_strike_limit,
        )
    }

    /// What is published for a line of `id` at `now`.
    pub open spec fn prepared(&self, id: Seq<char>, line: Seq<char>, now: u64) -> Option<
        Seq<char>,
    > {
        published(
            line,
            self.decision(id, now),
            self.protection.console_max_line_length,
            self.protection.console_lines_per_second,
        )
    }

    /// The protection state has counted one line of `id` at `now`.
    pub open spec fn counts_line(&self, was: &ConsoleHub, id: Seq<char>, now: u64) -> bool {
        &&& self.protection.same_limits(&was.protection)
        &&& self.protection.commands@ == was.protection.commands@
        &&& self.protection.statuses@ == was.protection.statuses@
        &&& self.protection.recovery@ == was.protection.recovery@
        &&& self.protection.console@ == was.protection.console@.insert(
            id,
            counted(
                was.protection.rate_at(id, now),
                was.protection.console_lines_per_second,
                now,
            ),
        )
    }

    /// Counts a line and cuts, replaces or drops it as the limits say.
    pub fn prepare_line(&mut self, id: &str, line: String, now: u64) -> (r: Option<String>)
        requires
            old(self).wf(),
        ensures
            final(self).wf(),
            final(self).has_docker == old(self).has_docker,
            final(self).max_active_readers == old(self).max_active_readers,
            final(self).channels == old(self).channels,
            final(self).history == old(self).history,
            final(self).lifecycle == old(self).lifecycle,
            final(self).counts_line(old(self), id@, now),
            text::opt_view(r) == old(self).prepared(id@, line@, now),
    {
        let maximum = self.protection.max_line_length();
        let line = if text::byte_length(line.as_str()) > maximum {
            let head = text::fit(line.as_str(), maximum);
            text::concat2(head.as_str(), TRUNCATION_SUFFIX)
        } else {
            line
        };
        match self.protection.observe_line(id, now) {
            LineDecision::Allow => Some(line),
            LineDecision::Notify => {
                let limit = text::decimal_string(
                    self.protection.console_lines_per_second() as u64,
                );
                Some(
                    text::concat3(
                        "[agent] Console output throttled above ",
                        limit.as_str(),
                        " lines/second.",
                    ),
                )
            },
            LineDecision::Trip => Some(
                "[agent] Sustained console flood detected. Output remains throttled to protect the control plane.".to_owned(),
            ),
            LineDecision::Suppress => None,
        }
    }

    /// Stores a prepared line, and says where it is delivered.
    fn publish_prepared(&mut self, id: &str, line: Option<String>) -> (r: Option<Delivery>)
        requires
            old(self).wf(),
        ensures
            final(self).wf(),
            final(self).has_docker == old(self).has_docker,
            final(self).max_active_readers == old(self).max_active_readers,
            final(self).channels == old(self).channels,
            final(self).lifecycle == old(self).lifecycle,
            final(self).protection == old(self).protection,
            delivers(old(self), final(self), id@, text::opt_view(line), r),
    {
        match line {
            Some(line) => {
                let entry = self.history.push(id, line);
                let channel = match self.channels.get(id) {
                    Some(channel) => Some(*channel),
                    None => None,
                };
                Some(Delivery { entry, channel })
            },
            None => None,
        }
    }

    /// Publishes a line of the agent itself. It is dropped where the server may not have a
    /// console here.
    pub fn publish(&mut self, id: &str, line: String, now: u64) -> (r: Option<Delivery>)
        requires
            old(self).wf(),
        ensures
            final(self).wf(),
            final(self).has_docker == old(self).has_docker,
            final(self).max_active_readers == old(self).max_active_readers,
            final(self).channels == old(self).channels,
            final(self).lifecycle == old(self).lifecycle,
            !old(self).lifecycle.inventory().admits(id@) ==> r is None && *final(self) == *old(
                self,
            ),
            old(self).lifecycle.inventory().admits(id@) ==> {
                &&& final(self).counts_line(old(self), id@, now)
                &&& delivers(
                    old(self),
                    final(self),
                    id@,
                    old(self).prepared(id@, line@, now),
                    r,
                )
            },
    {
        match self.lifecycle.check_owned(id) {
            Ok(()) => {
                let line = self.prepare_line(id, line, now);
                self.publish_prepared(id, line)
            },
            Err(_) => None,
        }
    }

    /// Publishes a line that a reader read. It is counted in any case, and dropped where another
    /// reader has taken the reader's place; the flag says whether the reader is still the
    /// console's reader.
    pub fn publish_line_when_active(
        &mut self,
        id: &str,
        line: String,
        token: u64,
        now: u64,
    ) -> (r: (bool, Option<Delivery>))
        requires
            old(self).wf(),
        ensures
            final(self).wf(),
            final(self).has_docker == old(self).has_docker,
            final(self).max_active_readers == old(self).max_active_readers,
            final(self).channels == old(self).channels,
            final(self).lifecycle == old(self).lifecycle,
            final(self).counts_line(old(self), id@, now),
            r.0 == old(self).is_active(id@, token),
            !r.0 ==> r.1 is None && final(self).history == old(self).history,
            r.0 ==> delivers(
                old(self),
                final(self),
                id@,
                old(self).prepared(id@, line@, now),
                r.1,
            ),
    {
        let line = self.prepare_line(id, line, now);
        if !self.reader_is_active(id, token) {
            return (false, None);
        }
        let delivery = self.publish_prepared(id, line);
        (true, delivery)
    }
}

/// A prepared line was stored, and is delivered on the console's channel; nothing happens where
/// there is no line.
pub open spec fn delivers(
    was: &ConsoleHub,
    now: &ConsoleHub,
    id: Seq<char>,
    line: Option<Seq<char>>,
    r: Option<Delivery>,
) -> bool {
    match line {
        Some(line) => {
            &&& now.history@ == was.history@.pushed(id, line)
            &&& r is Some
            &&& entry_view(r->0.entry) == (
                bumped(was.history@.history(id).next_sequence),
                line,
            )
            &&& r->0.channel == if was.channels@.contains_key(id) {
                Some(was.channels@[id])
            } else {
                None
            }
        },
        None => r is None && now.history == was.history,
    }
}

/// The set of the given servers, all of them valid.
pub fn validate_inventory(server_ids: &Vec<String>) -> (r: Result<NameSet, Failure>)
    ensures
        r is Ok <==> forall|i: int|
            0 <= i < server_ids@.len() ==> valid_id(#[trigger] server_ids@[i]@),
        r is Ok ==> r->Ok_0@ == text::views(server_ids@).to_set(),
        r is Err ==> r->Err_0.message@ == "invalid server id"@,
{
    let mut i: usize = 0;
    while i < server_ids.len()
        invariant
            0 <= i <= server_ids@.len(),
            forall|k: int| 0 <= k < i ==> valid_id(#[trigger] server_ids@[k]@),
        decreases server_ids.len() - i,
    {
        match validate_id(server_ids[i].as_str()) {
            Ok(()) => {},
            Err(e) => {
                assert(!valid_id(server_ids@[i as int]@));
                return Err(e);
            },
        }
        i += 1;
    }
    let mut desired = NameSet::new();
    insert_all(&mut desired, server_ids);
    assert(desired@ =~= text::views(server_ids@).to_set());
    Ok(desired)
}

fn insert_all(set: &mut NameSet, names: &Vec<String>)
    ensures
        final(set)@ == old(set)@.union(text::views(names@).to_set()),
{
    let ghost all = text::views(names@);
    let ghost start = set@;
    let mut i: usize = 0;
    assert(set@ =~= start.union(all.take(0).to_set()));
    while i < names.len()
        invariant
            all == text::views(names@),
            0 <= i <= names@.len(),
            set@ == start.union(all.take(i as int).to_set()),
        decreases names.len() - i,
    {
        set.insert(names[i].as_str().to_owned());
        proof {
            lemma_take_set(all, i as int);
            assert(set@ =~= start.union(all.take(i as int + 1).to_set()));
        }
        i += 1;
    }
    assert(all.take(all.len() as int) =~= all);
}

fn remove_all(set: &mut NameSet, names: &Vec<String>)
    ensures
        final(set)@ == old(set)@.difference(text::views(names@).to_set()),
{
    let ghost all = text::views(names@);
    let ghost start = set@;
    let mut i: usize = 0;
    assert(set@ =~= start.difference(all.take(0).to_set()));
    while i < names.len()
        invariant
            all == text::views(names@),
            0 <= i <= names@.len(),
            set@ == start.difference(all.take(i as int).to_set()),
        decreases names.len() - i,
    {
        set.remove(names[i].as_str());
        proof {
            lemma_take_set(all, i as int);
            assert(set@ =~= start.difference(all.take(i as int + 1).to_set()));
        }
        i += 1;
    }
    assert(all.take(all.len() as int) =~= all);
}

/// The set of one more element of a sequence.
pub proof fn lemma_take_set(all: Seq<Seq<char>>, i: int)
    requires
        0 <= i < all.len(),
    ensures
        all.take(i + 1).to_set() == all.take(i).to_set().insert(all[i]),
{
    let next = all.take(i + 1);
    assert forall|k: Seq<char>| next.contains(k) <==> all.take(i).contains(k) || k == all[i] by {
        if all.take(i).contains(k) {
            let j = choose|j: int| 0 <= j < i && all.take(i)[j] == k;
            assert(next[j] == k);
        }
        if k == all[i] {
            assert(next[i] == k);
        }
        if next.contains(k) {
            let j = choose|j: int| 0 <= j < i + 1 && next[j] == k;
            if j < i {
                assert(all.take(i)[j] == k);
            }
        }
    }
    assert(next.to_set() =~= all.take(i).to_set().insert(all[i]));
}

// ---------------------------------------------------------------------------------------------
// Laws.

/// An operation on the inventory.
pub enum InventoryChange {
    Create(Seq<char>),
    Delete(Seq<char>),
    Watch(Seq<char>),
}

/// The inventory after a row of operations.
pub open spec fn changed(inventory: Inventory, changes: Seq<InventoryChange>) -> Inventory
    decreases changes.len(),
{
    if changes.len() == 0 {
        inventory
    } else {
        let before = changed(inventory, changes.drop_last());
        match changes.last() {
            InventoryChange::Create(id) => before.created(id),
            InventoryChange::Delete(id) => before.removed(id),
            InventoryChange::Watch(id) => if before.admits(id) {
                before.subscribed(id)
            } else {
                before
            },
        }
    }
}

/// What the last creation or deletion of `id` says of it, `fallback` where there was none.
pub open spec fn last_word(changes: Seq<InventoryChange>, id: Seq<char>, fallback: bool) -> bool
    decreases changes.len(),
{
    if changes.len() == 0 {
        fallback
    } else {
        match changes.last() {
            InventoryChange::Create(other) => if other == id {
                true
            } else {
                last_word(changes.drop_last(), id, fallback)
            },
            InventoryChange::Delete(other) => if other == id {
                false
            } else {
                last_word(changes.drop_last(), id, fallback)
            },
            InventoryChange::Watch(_) => last_word(changes.drop_last(), id, fallback),
        }
    }
}

proof fn lemma_changes_before_inventory(changes: Seq<InventoryChange>, id: Seq<char>)
    ensures
        ({
            let now = changed(Inventory::fresh(), changes);
            &&& !now.initialized
            &&& last_word(changes, id, true) == !now.removals.contains(id)
            &&& last_word(changes, id, false) == now.additions.contains(id)
            &&& last_word(changes, id, false) ==> last_word(changes, id, true)
        }),
    decreases changes.len(),
{
    if changes.len() > 0 {
        lemma_changes_before_inventory(changes.drop_last(), id);
    }
}

/// Whatever happened before the list of all servers came, the last creation or deletion of a
/// server wins over the list; a server without either is taken from the list.
pub proof fn law_last_operation_wins(
    changes: Seq<InventoryChange>,
    ids: Set<Seq<char>>,
    id: Seq<char>,
)
    ensures
        changed(Inventory::fresh(), changes).synchronized(ids).desired.contains(id) == last_word(
            changes,
            id,
            ids.contains(id),
        ),
{
    lemma_changes_before_inventory(changes, id);
}

/// A second list of all servers has no effect.
pub proof fn law_only_the_first_inventory_counts(
    inventory: Inventory,
    first: Set<Seq<char>>,
    second: Set<Seq<char>>,
)
    ensures
        inventory.synchronized(first).synchronized(second) == inventory.synchronized(first),
{
}

/// A deleted server has no console until it is created again, whatever list comes and whoever
/// watches.
pub proof fn law_deleted_servers_stay_away(
    inventory: Inventory,
    id: Seq<char>,
    ids: Set<Seq<char>>,
)
    ensures
        !inventory.removed(id).admits(id),
        !inventory.removed(id).synchronized(ids).admits(id),
        inventory.created(id).admits(id),
        inventory.created(id).synchronized(ids).admits(id),
{
}

/// A server that was created has a console and one that was deleted has none, whether the list of
/// all servers came already, comes later, or says otherwise; and no other server is affected.
pub proof fn law_created_servers_have_consoles(
    inventory: Inventory,
    id: Seq<char>,
    other: Seq<char>,
    ids: Set<Seq<char>>,
)
    requires
        other != id,
    ensures
        inventory.created(id).admits(id),
        inventory.created(id).synchronized(ids).admits(id),
        !inventory.removed(id).admits(id),
        !inventory.removed(id).synchronized(ids).admits(id),
        inventory.created(id).admits(other) == inventory.admits(other),
        inventory.removed(id).admits(other) == inventory.admits(other),
        inventory.subscribed(id).admits(other) == inventory.admits(other),
        Inventory::fresh().admits(id),
        ids.contains(id) ==> Inventory::fresh().synchronized(ids).admits(id),
        !ids.contains(id) ==> !Inventory::fresh().synchronized(ids).admits(id),
{
}

/// A line that is allowed is published as it is where it is not too long, else its longest beginning
/// that fits, marked as cut. Nothing but a line that is left out goes without a word.
pub proof fn law_allowed_lines_are_published(
    line: Seq<char>,
    decision: LineDecision,
    maximum: usize,
    limit: usize,
)
    ensures
        text::byte_len(line) <= maximum ==> published(line, LineDecision::Allow, maximum, limit)
            == Some(line),
        text::byte_len(line) > maximum ==> published(line, LineDecision::Allow, maximum, limit)
            == Some(text::fitting(line, maximum as nat) + TRUNCATION_SUFFIX@),
        published(line, decision, maximum, limit) is None <==> decision == LineDecision::Suppress,
        published(line, LineDecision::Notify, maximum, limit) == Some(
            "[agent] Console output throttled above "@ + text::decimal(limit as nat)
                + " lines/second."@,
        ),
{
}

/// A viewer's console is read: by the reader that runs, or by a new one with the given token, and by
/// none only where there is no Docker. A running reader always has room.
pub proof fn law_viewed_consoles_are_read(hub: ConsoleHub, id: Seq<char>, token: u64)
    ensures
        hub.lifecycle.readers@.contains_key(id) && !hub.lifecycle.readers@[id].finished
            ==> hub.reader_change(id, token) == ReaderChange::Greet(
            hub.lifecycle.readers@[id].token,
        ) && hub.has_capacity(id),
        !hub.lifecycle.readers@.contains_key(id) && hub.has_docker ==> hub.reader_change(id, token)
            == ReaderChange::Start(None, token),
        hub.lifecycle.readers@.contains_key(id) && hub.lifecycle.readers@[id].finished
            && hub.has_docker ==> hub.reader_change(id, token) == ReaderChange::Start(
            Some(hub.lifecycle.readers@[id].token),
            token,
        ),
        hub.is_active(id, token) <==> hub.lifecycle.readers@.contains_key(id)
            && hub.lifecycle.readers@[id].token == token,
        !hub.has_docker ==> hub.has_capacity(id),
{
}

} // verus!
