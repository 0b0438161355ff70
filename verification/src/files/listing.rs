//! Listing a directory of a server.

use crate::error::Failure;
use crate::paths;
use crate::process;
use crate::text;
use vstd::prelude::*;

verus! {

/// The most entries that a listing holds.
pub const MAX_DIRECTORY_ENTRIES: usize = 10_000;

/// The path to look at: without slashes at its start, and the root itself where nothing is left.
pub open spec fn browsed(path: Seq<char>) -> Seq<char> {
    if paths::unled(path, true).len() == 0 {
        "."@
    } else {
        paths::unled(path, true)
    }
}

/// The path to look at: without slashes at its start, and the root itself where nothing is left.
pub fn browse_path(path: &str) -> (r: String)
    ensures
        r@ == browsed(path@),
{
    let clean = paths::trim_leading_slashes(path, true);
    if text::is_empty(clean.as_str()) {
        ".".to_owned()
    } else {
        clean
    }
}

/// An entry of a listing.
#[derive(Debug)]
pub struct Item {
    pub name: String,
    pub directory: bool,
    pub size: i64,
    pub modified: String,
}

/// An entry of a listing by its contents.
pub ghost struct ItemView {
    pub name: Seq<char>,
    pub directory: bool,
    pub size: int,
    pub modified: Seq<char>,
}

impl View for Item {
    type V = ItemView;

    open spec fn view(&self) -> ItemView {
        ItemView {
            name: self.name@,
            directory: self.directory,
            size: self.size as int,
            modified: self.modified@,
        }
    }
}

/// Entries by their contents.
pub open spec fn items_of(items: Seq<Item>) -> Seq<ItemView> {
    items.map_values(|i: Item| i@)
}

/// The text that lists a directory inside a container: one line for each entry, with its name,
/// kind, size and time between tabs.
pub open spec fn list_script(target: Seq<char>) -> Seq<char> {
    "target="@ + process::quoted(target)
        + "; [ -d \"$target\" ] || exit 44; for f in \"$target\"/* \"$target\"/.[!.]* \"$target\"/..?*; do [ -e \"$f\" ] || continue; name=${f##*/}; if [ -d \"$f\" ]; then type=d; size=0; else type=f; size=$(wc -c < \"$f\" 2>/dev/null || echo 0); fi; mod=$(date -r \"$f\" -u +%Y-%m-%dT%H:%M:%SZ 2>/dev/null || echo \"\"); printf '%s\\t%s\\t%s\\t%s\\n' \"$name\" \"$type\" \"$size\" \"$mod\"; done"@
}

/// The text that lists a directory inside a container.
pub fn list_command(target: &str) -> (r: String)
    ensures
        r@ == list_script(target@),
{
    let word = process::shell_quote(target);
    text::concat3(
        "target=",
        word.as_str(),
        "; [ -d \"$target\" ] || exit 44; for f in \"$target\"/* \"$target\"/.[!.]* \"$target\"/..?*; do [ -e \"$f\" ] || continue; name=${f##*/}; if [ -d \"$f\" ]; then type=d; size=0; else type=f; size=$(wc -c < \"$f\" 2>/dev/null || echo 0); fi; mod=$(date -r \"$f\" -u +%Y-%m-%dT%H:%M:%SZ 2>/dev/null || echo \"\"); printf '%s\\t%s\\t%s\\t%s\\n' \"$name\" \"$type\" \"$size\" \"$mod\"; done",
    )
}

/// The entry that a line describes, if it describes one.
pub open spec fn item_of_line(line: Seq<char>) -> Option<ItemView> {
    let p = text::split_on(line, '\t');
    if p.len() < 4 {
        None
    } else {
        Some(
            ItemView {
                name: p[0],
                directory: p[1] == "d"@,
                size: match text::signed_parsed(p[2]) {
                    Some(n) => if i64::MIN <= n <= i64::MAX {
                        n
                    } else {
                        0
                    },
                    None => 0,
                },
                modified: p[3],
            },
        )
    }
}

/// The entries that lines describe, in order.
pub open spec fn items_of_lines(lines: Seq<Seq<char>>) -> Seq<ItemView>
    decreases lines.len(),
{
    if lines.len() == 0 {
        Seq::empty()
    } else {
        match item_of_line(lines.last()) {
            Some(item) => items_of_lines(lines.drop_last()).push(item),
            None => items_of_lines(lines.drop_last()),
        }
    }
}

fn item_from_line(line: &str) -> (r: Option<Item>)
    ensures
        match r {
            Some(item) => Some(item@),
            None => None,
        } == item_of_line(line@),
{
    let p = text::split(line, '\t');
    let ghost all = text::split_on(line@, '\t');
    assert(all.len() == p@.len());
    if p.len() < 4 {
        return None;
    }
    assert(all[0] == p@[0]@ && all[1] == p@[1]@ && all[2] == p@[2]@ && all[3] == p@[3]@);
    let size: i64 = match text::parse_signed(p[2].as_str()) {
        Some(n) => n,
        None => 0,
    };
    Some(
        Item {
            name: p[0].as_str().to_owned(),
            directory: text::same(p[1].as_str(), "d"),
            size,
            modified: p[3].as_str().to_owned(),
        },
    )
}

/// The entries that a container listed. Too many of them are refused.
pub fn listed_items(raw: &str) -> (r: Result<Vec<Item>, Failure>)
    ensures
        ({
            let items = items_of_lines(text::lines_of(raw@));
            &&& r is Ok <==> items.len() <= MAX_DIRECTORY_ENTRIES
            &&& r is Ok ==> items_of(r->Ok_0@) == items
            &&& r is Err ==> r->Err_0.message@
                == "Directory contains more than 10000 entries."@
        }),
{
    let lines = text::lines(raw);
    let ghost all = text::lines_of(raw@);
    let mut out: Vec<Item> = Vec::new();
    let mut i: usize = 0;
    assert(all.take(0) =~= Seq::<Seq<char>>::empty());
    assert(items_of(out@) =~= Seq::<ItemView>::empty());
    while i < lines.len()
        invariant
            text::views(lines@) == all,
            0 <= i <= lines@.len(),
            items_of(out@) == items_of_lines(all.take(i as int)),
        decreases lines.len() - i,
    {
        assert(all[i as int] == lines@[i as int]@);
        assert(all.take(i as int + 1).drop_last() =~= all.take(i as int));
        match item_from_line(lines[i].as_str()) {
            Some(item) => {
                let ghost before = out@;
                out.push(item);
                assert(items_of(out@) =~= items_of(before).push(item@));
            },
            None => {},
        }
        i += 1;
    }
    assert(all.take(all.len() as int) =~= all);
    if out.len() > MAX_DIRECTORY_ENTRIES {
        Err(Failure::new("Directory contains more than 10000 entries."))
    } else {
        Ok(out)
    }
}

/// An entry of a directory on the host.
pub struct HostEntry {
    pub name: String,
    pub symlink: bool,
    pub directory: bool,
    pub file: bool,
    pub size: i64,
    /// When it was changed; empty where that is not known.
    pub modified: String,
}

impl HostEntry {
    /// The entry as a listing has it.
    pub open spec fn item(&self) -> ItemView {
        ItemView {
            name: self.name@,
            directory: self.directory,
            size: if self.file {
                self.size as int
            } else {
                0
            },
            modified: self.modified@,
        }
    }
}

/// An entry put into a list in the order of names, behind those with the same name.
pub open spec fn inserted(items: Seq<ItemView>, item: ItemView) -> Seq<ItemView>
    decreases items.len(),
{
    if items.len() > 0 && text::precedes(item.name, items.last().name) {
        inserted(items.drop_last(), item).push(items.last())
    } else {
        items.push(item)
    }
}

/// A listing of a directory on the host: its entries in the order of their names, without
/// symbolic links.
pub struct Listing {
    pub items: Vec<Item>,
}

proof fn lemma_inserted(items: Seq<ItemView>, item: ItemView, k: int)
    requires
        0 <= k <= items.len(),
        k > 0 ==> !text::precedes(item.name, items[k - 1].name),
        forall|i: int|
            k <= i < items.len() ==> text::precedes(item.name, (#[trigger] items[i]).name),
    ensures
        inserted(items, item) == items.insert(k, item),
    decreases items.len(),
{
    if k == items.len() {
        assert(items.push(item) =~= items.insert(k, item));
    } else {
        assert(text::precedes(item.name, items[items.len() - 1].name));
        let shorter = items.drop_last();
        assert forall|i: int| k <= i < shorter.len() implies text::precedes(
            item.name,
            (#[trigger] shorter[i]).name,
        ) by {
            assert(text::precedes(item.name, items[i].name));
        }
        lemma_inserted(shorter, item, k);
        assert(shorter.insert(k, item).push(items.last()) =~= items.insert(k, item));
    }
}

impl Listing {
    /// A listing without entries.
    pub fn new() -> (r: Listing)
        ensures
            items_of(r.items@) == Seq::<ItemView>::empty(),
    {
        let r = Listing { items: Vec::new() };
        assert(items_of(r.items@) =~= Seq::<ItemView>::empty());
        r
    }

    /// Adds an entry, unless it is a symbolic link. An entry too many is refused.
    pub fn add(&mut self, entry: HostEntry) -> (r: Result<(), Failure>)
        requires
            old(self).items@.len() <= MAX_DIRECTORY_ENTRIES,
        ensures
            r is Ok <==> entry.symlink || old(self).items@.len() < MAX_DIRECTORY_ENTRIES,
            r is Ok ==> items_of(final(self).items@) == if entry.symlink {
                items_of(old(self).items@)
            } else {
                inserted(items_of(old(self).items@), entry.item())
            },
            r is Ok ==> final(self).items@.len() <= MAX_DIRECTORY_ENTRIES,
            r is Err ==> final(self).items@ == old(self).items@ && r->Err_0.message@
                == "Directory contains more than 10000 entries."@,
    {
        if entry.symlink {
            return Ok(());
        }
        if self.items.len() >= MAX_DIRECTORY_ENTRIES {
            return Err(Failure::new("Directory contains more than 10000 entries."));
        }
        let size: i64 = if entry.file {
            entry.size
        } else {
            0
        };
        let item = Item {
            name: entry.name,
            directory: entry.directory,
            size,
            modified: entry.modified,
        };
        let ghost all = items_of(self.items@);
        let mut k: usize = self.items.len();
        while k > 0 && text::is_before(item.name.as_str(), self.items[k - 1].name.as_str())
            invariant
                all == items_of(self.items@),
                0 <= k <= self.items@.len(),
                forall|i: int|
                    k <= i < all.len() ==> text::precedes(item.name@, (#[trigger] all[i]).name),
            decreases k,
        {
            assert(all[k - 1].name == self.items@[k - 1].name@);
            k -= 1;
        }
        proof {
            if k > 0 {
                assert(all[k - 1].name == self.items@[k - 1].name@);
            }
            lemma_inserted(all, item@, k as int);
        }
        let ghost before = self.items@;
        self.items.insert(k, item);
        assert(items_of(self.items@) =~= all.insert(k as int, item@));
        Ok(())
    }
}

// ---------------------------------------------------------------------------------------------
// Laws.

/// No entry of a list has a name that comes after that of one behind it.
pub open spec fn by_name(items: Seq<ItemView>) -> bool {
    forall|i: int, j: int|
        0 <= i < j < items.len() ==> !text::precedes(
            (#[trigger] items[j]).name,
            (#[trigger] items[i]).name,
        )
}

/// A listing on the host is in the order of names, however the entries come: each entry that is
/// added keeps it so, and nothing but it is added.
pub proof fn law_listing_is_in_order(items: Seq<ItemView>, item: ItemView)
    requires
        by_name(items),
    ensures
        by_name(inserted(items, item)),
        inserted(items, item).to_multiset() == items.to_multiset().insert(item),
        forall|i: int|
            0 <= i < inserted(items, item).len() ==> {
                ||| #[trigger] inserted(items, item)[i] == item
                ||| items.contains(inserted(items, item)[i])
            },
    decreases items.len(),
{
    broadcast use vstd::seq_lib::group_to_multiset_ensures;

    let r = inserted(items, item);
    if items.len() > 0 && text::precedes(item.name, items.last().name) {
        let shorter = items.drop_last();
        law_listing_is_in_order(shorter, item);
        let inner = inserted(shorter, item);
        assert(shorter.push(items.last()) =~= items);
        assert(r.to_multiset() =~= items.to_multiset().insert(item));
        assert forall|i: int| 0 <= i < r.len() implies {
            ||| #[trigger] r[i] == item
            ||| items.contains(r[i])
        } by {
            if i < inner.len() {
                assert(r[i] == inner[i]);
                if inner[i] != item {
                    let k = choose|k: int| 0 <= k < shorter.len() && shorter[k] == inner[i];
                    assert(items[k] == r[i]);
                }
            } else {
                assert(r[i] == items[items.len() - 1]);
            }
        }
        assert forall|i: int, j: int| 0 <= i < j < r.len() implies !text::precedes(
            (#[trigger] r[j]).name,
            (#[trigger] r[i]).name,
        ) by {
            if j < inner.len() {
                assert(!text::precedes(inner[j].name, inner[i].name));
            } else {
                assert(r[j] == items.last());
                assert(r[i] == inner[i]);
                if inner[i] == item {
                    text::lemma_order(item.name, items.last().name);
                } else {
                    let k = choose|k: int| 0 <= k < shorter.len() && shorter[k] == inner[i];
                    assert(!text::precedes(items[items.len() - 1].name, items[k].name));
                }
            }
        }
    } else {
        assert(r =~= items.push(item));
        assert forall|i: int| 0 <= i < r.len() implies {
            ||| #[trigger] r[i] == item
            ||| items.contains(r[i])
        } by {
            if i < items.len() {
                assert(items[i] == r[i]);
            }
        }
        assert forall|i: int, j: int| 0 <= i < j < r.len() implies !text::precedes(
            (#[trigger] r[j]).name,
            (#[trigger] r[i]).name,
        ) by {
            if j < items.len() {
                assert(!text::precedes(items[j].name, items[i].name));
            } else if i < items.len() - 1 {
                let last = items.last();
                assert(!text::precedes(items[items.len() - 1].name, items[i].name));
                if text::precedes(item.name, items[i].name) {
                    text::lemma_order(last.name, item.name);
                    text::lemma_order(last.name, items[i].name);
                    if text::precedes(last.name, item.name) {
                        text::lemma_order_transitive(last.name, item.name, items[i].name);
                    }
                }
            }
        }
    }
}

} // verus!
