//! What Linux writes down about the use of the node: its processors, its memory and its uptime.

use crate::text;
use vstd::prelude::*;

verus! {

/// The number that the first word of a text spells, if it fits.
pub open spec fn first_number(s: Seq<char>) -> Option<int> {
    let words = text::words_of(s);
    if words.len() == 0 {
        None
    } else {
        match text::signed_parsed(words[0]) {
            Some(n) => if i64::MIN <= n <= i64::MAX {
                Some(n)
            } else {
                None
            },
            None => None,
        }
    }
}

fn read_first_number(s: &str) -> (r: Option<i64>)
    ensures
        match first_number(s@) {
            Some(n) => r is Some && r->0 == n,
            None => r is None,
        },
{
    let words = text::words(s);
    if words.len() == 0 {
        assert(text::words_of(s@).len() == 0);
        return None;
    }
    assert(text::words_of(s@)[0] == words@[0]@);
    text::parse_signed(words[0].as_str())
}

/// The number behind a name, in the first line that begins with the name and gives one.
pub open spec fn number_behind(lines: Seq<Seq<char>>, name: Seq<char>) -> Option<int>
    decreases lines.len(),
{
    if lines.len() == 0 {
        None
    } else {
        let found = match text::without_prefix(lines[0], name) {
            Some(rest) => first_number(rest),
            None => None,
        };
        if found is Some {
            found
        } else {
            number_behind(lines.skip(1), name)
        }
    }
}

/// A number within 64 bits, signed.
pub open spec fn bounded(n: int) -> int {
    if n > i64::MAX {
        i64::MAX as int
    } else if n < i64::MIN {
        i64::MIN as int
    } else {
        n
    }
}

/// The bytes that a line of the memory's description names in units of 1024; 0 where none does.
pub open spec fn memory_of(description: Seq<char>, name: Seq<char>) -> int {
    match number_behind(text::lines_of(description), name) {
        Some(n) => bounded(n * 1024),
        None => 0,
    }
}

/// The bytes that a line of the memory's description names in units of 1024; 0 where none does.
pub fn memory_bytes(description: &str, name: &str) -> (r: i64)
    ensures
        r == memory_of(description@, name@),
{
    let lines = text::lines(description);
    let ghost all = text::views(lines@);
    let mut i: usize = 0;
    assert(all.skip(0) =~= all);
    while i < lines.len()
        invariant
            all == text::views(lines@),
            all == text::lines_of(description@),
            0 <= i <= lines@.len(),
            number_behind(all, name@) == number_behind(all.skip(i as int), name@),
        decreases lines.len() - i,
    {
        assert(all.skip(i as int)[0] == lines@[i as int]@);
        assert(all.skip(i as int).skip(1) =~= all.skip(i as int + 1));
        if let Some(rest) = text::strip_prefix(lines[i].as_str(), name) {
            if let Some(n) = read_first_number(rest.as_str()) {
                let bytes: i128 = n as i128 * 1024;
                return if bytes > i64::MAX as i128 {
                    i64::MAX
                } else if bytes < i64::MIN as i128 {
                    i64::MIN
                } else {
                    bytes as i64
                };
            }
        }
        i += 1;
    }
    0
}

/// The memory in use, of what there is and what is available.
pub fn memory_used(total: i64, available: i64) -> (r: i64)
    ensures
        r == bounded(total - available),
{
    let used: i128 = total as i128 - available as i128;
    if used > i64::MAX as i128 {
        i64::MAX
    } else if used < i64::MIN as i128 {
        i64::MIN
    } else {
        used as i64
    }
}

/// The whole seconds of an uptime; 0 where it is not written as one.
pub open spec fn uptime_of(s: Seq<char>) -> int {
    let whole = match text::split_first(s, '.') {
        Some((whole, _)) => whole,
        None => s,
    };
    match text::signed_parsed(text::trimmed(whole)) {
        Some(n) => if i64::MIN <= n <= i64::MAX {
            n
        } else {
            0
        },
        None => 0,
    }
}

/// The whole seconds of an uptime; 0 where it is not written as one.
pub fn uptime_seconds(s: &str) -> (r: i64)
    ensures
        r == uptime_of(s@),
{
    let whole = match text::split_once(s, '.') {
        Some((whole, _)) => whole,
        None => s.to_owned(),
    };
    match text::parse_signed(text::trim(whole.as_str()).as_str()) {
        Some(n) => n,
        None => 0,
    }
}

/// The words that spell numbers of 64 bits, as these numbers.
pub open spec fn numbers_in(words: Seq<Seq<char>>) -> Seq<int>
    decreases words.len(),
{
    if words.len() == 0 {
        Seq::empty()
    } else {
        let before = numbers_in(words.drop_last());
        match text::parsed(words.last()) {
            Some(n) => if n <= u64::MAX {
                before.push(n as int)
            } else {
                before
            },
            None => before,
        }
    }
}

/// The sum of some numbers.
pub open spec fn sum_of(numbers: Seq<int>) -> int
    decreases numbers.len(),
{
    if numbers.len() == 0 {
        0
    } else {
        sum_of(numbers.drop_last()) + numbers.last()
    }
}

/// At most so many numbers from a place on.
pub open spec fn some_from(numbers: Seq<int>, from: int, count: int) -> Seq<int> {
    if numbers.len() <= from {
        Seq::empty()
    } else if numbers.len() <= from + count {
        numbers.skip(from)
    } else {
        numbers.subrange(from, from + count)
    }
}

/// A sum within 64 bits.
pub open spec fn fitting_sum(numbers: Seq<int>) -> int {
    if sum_of(numbers) > u64::MAX {
        u64::MAX as int
    } else {
        sum_of(numbers)
    }
}

/// The times that the processors spent, all of them and idle: the first line names them, behind a
/// word, and the fourth and the fifth are those of waiting.
pub open spec fn times_of(description: Seq<char>) -> Option<(int, int)> {
    let lines = text::lines_of(description);
    if lines.len() == 0 {
        None
    } else {
        let words = text::words_of(lines[0]);
        let numbers = numbers_in(
            if words.len() == 0 {
                words
            } else {
                words.skip(1)
            },
        );
        Some((fitting_sum(some_from(numbers, 0, 8)), fitting_sum(some_from(numbers, 3, 2))))
    }
}

/// Two times by their values.
pub open spec fn times_view(times: Option<(u64, u64)>) -> Option<(int, int)> {
    match times {
        Some(t) => Some((t.0 as int, t.1 as int)),
        None => None,
    }
}

spec fn as_ints(list: Seq<u64>) -> Seq<int> {
    list.map_values(|n: u64| n as int)
}

fn add_some(numbers: &Vec<u64>, from: usize, count: usize) -> (r: u64)
    requires
        from + count <= usize::MAX,
    ensures
        r == fitting_sum(some_from(as_ints(numbers@), from as int, count as int)),
{
    let ghost all = as_ints(numbers@);
    let ghost part = some_from(all, from as int, count as int);
    let mut sum: u64 = 0;
    let mut i: usize = from;
    assert(part.take(0) =~= Seq::<int>::empty());
    while i < numbers.len() && i < from + count
        invariant
            all == as_ints(numbers@),
            part == some_from(all, from as int, count as int),
            from <= i,
            from + count <= usize::MAX,
            i == from || i <= numbers@.len(),
            i <= from + count,
            0 <= i - from <= part.len(),
            sum == fitting_sum(part.take(i - from)),
            sum_of(part.take(i - from)) >= 0,
        decreases numbers.len() + 1 - i,
    {
        let ghost k = i - from;
        assert(part.take(k + 1).drop_last() =~= part.take(k));
        assert(part.take(k + 1).last() == numbers@[i as int] as int);
        sum = if numbers[i] > u64::MAX - sum {
            u64::MAX
        } else {
            sum + numbers[i]
        };
        i += 1;
    }
    assert(part.take(part.len() as int) =~= part);
    sum
}

/// The times that the processors spent, all of them and idle; none where nothing is described.
pub fn processor_times(description: &str) -> (r: Option<(u64, u64)>)
    ensures
        times_view(r) == times_of(description@),
{
    let lines = text::lines(description);
    if lines.len() == 0 {
        assert(text::lines_of(description@).len() == 0);
        return None;
    }
    assert(text::lines_of(description@)[0] == lines@[0]@);
    let words = text::words(lines[0].as_str());
    let ghost all = text::words_of(lines@[0]@);
    let ghost rest = if all.len() == 0 {
        all
    } else {
        all.skip(1)
    };
    let mut numbers: Vec<u64> = Vec::new();
    let mut i: usize = 1;
    assert(rest.take(0) =~= Seq::<Seq<char>>::empty());
    assert(as_ints(numbers@) =~= Seq::<int>::empty());
    while i < words.len()
        invariant
            all == text::views(words@),
            rest == if all.len() == 0 {
                all
            } else {
                all.skip(1)
            },
            1 <= i,
            words@.len() > 0 ==> i <= words@.len(),
            words@.len() == 0 ==> i == 1,
            as_ints(numbers@) == numbers_in(
                rest.take(
                    if words@.len() == 0 {
                        0
                    } else {
                        i - 1
                    },
                ),
            ),
        decreases words.len() + 1 - i,
    {
        proof {
            assert(rest.take(i as int).drop_last() =~= rest.take(i - 1));
            assert(rest.take(i as int).last() == words@[i as int]@);
        }
        if let Some(n) = text::parse_number(words[i].as_str(), u64::MAX) {
            let ghost before = as_ints(numbers@);
            numbers.push(n);
            assert(as_ints(numbers@) =~= before.push(n as int));
        }
        i += 1;
    }
    assert(rest.take(rest.len() as int) =~= rest);
    Some((add_some(&numbers, 0, 8), add_some(&numbers, 3, 2)))
}

} // verus!
