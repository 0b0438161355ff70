//! Text as sequences of characters: the handful of string operations the agent needs, each with
//! a mathematical definition and a verified implementation.

use vstd::prelude::*;

verus! {

/// `String::push` appends one character to the end of the string.
pub assume_specification[ String::push ](s: &mut String, c: char)
    ensures
        final(s)@ == old(s)@.push(c),
;

/// The contents of a list of strings.
pub open spec fn views(list: Seq<String>) -> Seq<Seq<char>> {
    list.map_values(|s: String| s@)
}

/// The characters of a string.
pub fn chars_of(s: &str) -> (r: Vec<char>)
    ensures
        r@ == s@,
{
    broadcast use vstd::string::group_string_axioms;
    let mut out: Vec<char> = Vec::new();
    for c in it: s.chars()
        invariant
            it.seq() == s@,
            out@ == s@.take(it.index() as int),
    {
        out.push(c);
        assert(out@ =~= s@.take(it.index() as int + 1));
    }
    assert(s@.take(s@.len() as int) =~= s@);
    out
}

/// The string made of the characters `from..to` of `chars`.
pub fn string_range(chars: &[char], from: usize, to: usize) -> (r: String)
    requires
        from <= to <= chars@.len(),
    ensures
        r@ == chars@.subrange(from as int, to as int),
{
    let mut out = String::new();
    let mut i: usize = from;
    while i < to
        invariant
            from <= i <= to <= chars@.len(),
            out@ == chars@.subrange(from as int, i as int),
        decreases to - i,
    {
        out.push(chars[i]);
        assert(chars@.subrange(from as int, i as int + 1) =~= chars@.subrange(
            from as int,
            i as int,
        ).push(chars@[i as int]));
        i += 1;
    }
    out
}

/// Whether two byte slices are equal.
pub fn same_bytes(a: &[u8], b: &[u8]) -> (r: bool)
    ensures
        r == (a@ == b@),
{
    if a.len() != b.len() {
        return false;
    }
    let mut i: usize = 0;
    while i < a.len()
        invariant
            a@.len() == b@.len(),
            0 <= i <= a@.len(),
            forall|k: int| 0 <= k < i ==> a@[k] == b@[k],
        decreases a.len() - i,
    {
        if a[i] != b[i] {
            assert(a@[i as int] != b@[i as int]);
            return false;
        }
        i += 1;
    }
    assert(a@ =~= b@);
    true
}

/// The number of bytes that a text takes in UTF-8.
pub open spec fn byte_len(s: Seq<char>) -> nat {
    vstd::utf8::encode_utf8(s).len()
}

/// The number of bytes that a text takes in UTF-8.
pub fn byte_length(s: &str) -> (r: usize)
    ensures
        r == byte_len(s@),
{
    let bytes = s.as_bytes();
    bytes.len()
}

/// Whether two strings have the same characters.
pub fn same(a: &str, b: &str) -> (r: bool)
    ensures
        r == (a@ == b@),
{
    broadcast use {vstd::string::group_string_axioms, vstd::utf8::encode_utf8_decode_utf8};
    let r = same_bytes(a.as_bytes(), b.as_bytes());
    assert(r ==> vstd::utf8::decode_utf8(vstd::utf8::encode_utf8(a@))
        == vstd::utf8::decode_utf8(vstd::utf8::encode_utf8(b@)));
    r
}

/// `a` followed by `b`.
pub fn concat2(a: &str, b: &str) -> (r: String)
    ensures
        r@ == a@ + b@,
{
    let mut out = a.to_owned();
    out.append(b);
    out
}

/// `a`, `b` and `c` in a row.
pub fn concat3(a: &str, b: &str, c: &str) -> (r: String)
    ensures
        r@ == a@ + b@ + c@,
{
    let mut out = a.to_owned();
    out.append(b);
    out.append(c);
    out
}

/// `a`, `b`, `c` and `d` in a row.
pub fn concat4(a: &str, b: &str, c: &str, d: &str) -> (r: String)
    ensures
        r@ == a@ + b@ + c@ + d@,
{
    let mut out = concat3(a, b, c);
    out.append(d);
    out
}

/// `a`, `b`, `c`, `d` and `e` in a row.
pub fn concat5(a: &str, b: &str, c: &str, d: &str, e: &str) -> (r: String)
    ensures
        r@ == a@ + b@ + c@ + d@ + e@,
{
    let mut out = concat4(a, b, c, d);
    out.append(e);
    out
}

// ---------------------------------------------------------------------------------------------
// Bytes.

/// The bytes of a text that grew by one character.
pub proof fn lemma_encode_push(s: Seq<char>, c: char)
    ensures
        vstd::utf8::encode_utf8(s.push(c)) == vstd::utf8::encode_utf8(s)
            + vstd::utf8::encode_scalar(c as u32),
    decreases s.len(),
{
    reveal_with_fuel(vstd::utf8::encode_utf8, 2);
    let t = s.push(c);
    if s.len() == 0 {
        assert(t.drop_first() =~= s);
        assert(vstd::utf8::encode_utf8(t) =~= vstd::utf8::encode_scalar(c as u32));
        assert(vstd::utf8::encode_utf8(s) + vstd::utf8::encode_scalar(c as u32)
            =~= vstd::utf8::encode_scalar(c as u32));
    } else {
        assert(t.drop_first() =~= s.drop_first().push(c));
        lemma_encode_push(s.drop_first(), c);
        assert(vstd::utf8::encode_utf8(t) =~= vstd::utf8::encode_utf8(s)
            + vstd::utf8::encode_scalar(c as u32));
    }
}

/// The number of bytes that a character takes in UTF-8.
pub fn char_bytes(c: char) -> (r: usize)
    ensures
        r == vstd::utf8::encode_scalar(c as u32).len(),
        1 <= r <= 4,
{
    broadcast use vstd::utf8::char_is_scalar;
    let v: u32 = c as u32;
    assert(vstd::utf8::is_scalar(v));
    if v < 0x80 {
        1
    } else if v < 0x800 {
        2
    } else if v < 0x10000 {
        3
    } else {
        4
    }
}

/// The longest beginning of `s` that takes at most `maximum` bytes.
pub open spec fn fitting(s: Seq<char>, maximum: nat) -> Seq<char>
    decreases s.len(),
{
    if s.len() == 0 || byte_len(s) <= maximum {
        s
    } else {
        fitting(s.drop_last(), maximum)
    }
}

proof fn lemma_fitting(s: Seq<char>, i: int, maximum: nat)
    requires
        0 <= i <= s.len(),
        byte_len(s.take(i)) <= maximum,
        i < s.len() ==> byte_len(s.take(i + 1)) > maximum,
    ensures
        fitting(s, maximum) == s.take(i),
    decreases s.len(),
{
    if i == s.len() {
        assert(s.take(i) =~= s);
    } else {
        lemma_byte_len_grows(s, i + 1);
        let t = s.drop_last();
        assert(t.take(i) =~= s.take(i));
        if i < t.len() {
            assert(t.take(i + 1) =~= s.take(i + 1));
        }
        lemma_fitting(t, i, maximum);
    }
}

proof fn lemma_byte_len_grows(s: Seq<char>, i: int)
    requires
        0 <= i <= s.len(),
    ensures
        byte_len(s.take(i)) <= byte_len(s),
    decreases s.len() - i,
{
    if i < s.len() {
        lemma_byte_len_grows(s, i + 1);
        assert(s.take(i + 1) =~= s.take(i).push(s[i]));
        lemma_encode_push(s.take(i), s[i]);
    } else {
        assert(s.take(i) =~= s);
    }
}

/// The longest beginning of `s` that takes at most `maximum` bytes.
pub fn fit(s: &str, maximum: usize) -> (r: String)
    ensures
        r@ == fitting(s@, maximum as nat),
{
    let cs = chars_of(s);
    let mut i: usize = 0;
    let mut used: usize = 0;
    assert(s@.take(0) =~= Seq::<char>::empty());
    while i < cs.len()
        invariant
            cs@ == s@,
            0 <= i <= cs@.len(),
            used == byte_len(s@.take(i as int)),
            used <= maximum,
        decreases cs.len() - i,
    {
        let width = char_bytes(cs[i]);
        proof {
            assert(s@.take(i as int + 1) =~= s@.take(i as int).push(s@[i as int]));
            lemma_encode_push(s@.take(i as int), s@[i as int]);
        }
        if width > maximum - used {
            proof {
                lemma_fitting(s@, i as int, maximum as nat);
                assert(s@.take(i as int) =~= cs@.subrange(0, i as int));
            }
            return string_range(cs.as_slice(), 0, i);
        }
        used = used + width;
        i += 1;
    }
    proof {
        lemma_fitting(s@, i as int, maximum as nat);
        assert(s@.take(i as int) =~= cs@.subrange(0, i as int));
    }
    string_range(cs.as_slice(), 0, i)
}

// ---------------------------------------------------------------------------------------------
// Searching.

/// `p` stands in `s` at position `i`.
pub open spec fn occurs_at<T>(s: Seq<T>, p: Seq<T>, i: int) -> bool {
    0 <= i && i + p.len() <= s.len() && s.subrange(i, i + p.len()) == p
}

/// `s` begins with `p`.
pub open spec fn begins<T>(s: Seq<T>, p: Seq<T>) -> bool {
    occurs_at(s, p, 0)
}

/// `s` ends with `p`.
pub open spec fn ends<T>(s: Seq<T>, p: Seq<T>) -> bool {
    occurs_at(s, p, s.len() - p.len())
}

/// `p` stands somewhere in `s`.
pub open spec fn contains<T>(s: Seq<T>, p: Seq<T>) -> bool {
    exists|i: int| occurs_at(s, p, i)
}

/// The position of the first `c` in `s`, or the length of `s` when there is none.
pub open spec fn index_of(s: Seq<char>, c: char) -> int
    decreases s.len(),
{
    if s.len() == 0 || s[0] == c {
        0
    } else {
        1 + index_of(s.drop_first(), c)
    }
}

/// What `index_of` says of `s`: nothing before the position is `c`, and the position holds `c`
/// unless it is the end.
pub proof fn lemma_index_of(s: Seq<char>, c: char)
    ensures
        0 <= index_of(s, c) <= s.len(),
        forall|k: int| 0 <= k < index_of(s, c) ==> s[k] != c,
        index_of(s, c) < s.len() ==> s[index_of(s, c)] == c,
        index_of(s, c) < s.len() <==> s.contains(c),
    decreases s.len(),
{
    if s.len() == 0 || s[0] == c {
        if s.len() > 0 {
            assert(s.contains(s[0]));
        }
    } else {
        let t = s.drop_first();
        lemma_index_of(t, c);
        assert forall|k: int| 0 <= k < index_of(s, c) implies s[k] != c by {
            if k > 0 {
                assert(s[k] == t[k - 1]);
            }
        }
        if s.contains(c) {
            let k = choose|k: int| 0 <= k < s.len() && s[k] == c;
            assert(t[k - 1] == c);
        }
        if t.contains(c) {
            let k = choose|k: int| 0 <= k < t.len() && t[k] == c;
            assert(s[k + 1] == c);
        }
    }
}

/// A position with the properties of `index_of` is `index_of`.
pub proof fn lemma_index_of_unique(s: Seq<char>, c: char, i: int)
    requires
        0 <= i <= s.len(),
        forall|k: int| 0 <= k < i ==> s[k] != c,
        i < s.len() ==> s[i] == c,
    ensures
        index_of(s, c) == i,
{
    lemma_index_of(s, c);
    let j = index_of(s, c);
    if j < i {
        assert(s[j] != c);
    }
    if i < j {
        assert(s[i] != c);
    }
}

/// The first position from `from` on that holds `c`, or the length.
pub fn find_char(chars: &[char], from: usize, c: char) -> (r: usize)
    requires
        from <= chars@.len(),
    ensures
        from <= r <= chars@.len(),
        r - from == index_of(chars@.skip(from as int), c),
{
    let mut i: usize = from;
    while i < chars.len() && chars[i] != c
        invariant
            from <= i <= chars@.len(),
            forall|k: int| from <= k < i ==> chars@[k] != c,
        decreases chars.len() - i,
    {
        i += 1;
    }
    proof {
        let t = chars@.skip(from as int);
        assert forall|k: int| 0 <= k < i - from implies t[k] != c by {
            assert(t[k] == chars@[k + from]);
        }
        lemma_index_of_unique(t, c, i - from);
    }
    i
}

/// Whether `p` stands in `s` at position `i`.
pub fn stands_at(s: &[char], p: &[char], i: usize) -> (r: bool)
    ensures
        r == occurs_at(s@, p@, i as int),
{
    if p.len() > s.len() || i > s.len() - p.len() {
        return false;
    }
    let mut k: usize = 0;
    let n: usize = s.len();
    while k < p.len()
        invariant
            n == s@.len(),
            i + p@.len() <= s@.len(),
            0 <= k <= p@.len(),
            forall|j: int| 0 <= j < k ==> s@[i + j] == p@[j],
        decreases p.len() - k,
    {
        if s[i + k] != p[k] {
            assert(s@.subrange(i as int, i + p@.len())[k as int] != p@[k as int]);
            return false;
        }
        k += 1;
    }
    assert(s@.subrange(i as int, i + p@.len()) =~= p@);
    true
}

/// Whether `p` stands somewhere in `s`.
pub fn stands_in(s: &[char], p: &[char]) -> (r: bool)
    ensures
        r == contains(s@, p@),
{
    if p.len() > s.len() {
        return false;
    }
    let mut i: usize = 0;
    while i <= s.len() - p.len()
        invariant
            p@.len() <= s@.len(),
            0 <= i <= s@.len() - p@.len() + 1,
            forall|j: int| 0 <= j < i ==> !occurs_at(s@, p@, j),
        decreases s.len() - i,
    {
        if stands_at(s, p, i) {
            return true;
        }
        if i == s.len() - p.len() {
            return false;
        }
        i += 1;
    }
    false
}

/// Whether `s` begins with `p`.
pub fn starts_with(s: &str, p: &str) -> (r: bool)
    ensures
        r == begins(s@, p@),
{
    stands_at(chars_of(s).as_slice(), chars_of(p).as_slice(), 0)
}

/// Whether `s` ends with `p`.
pub fn ends_with(s: &str, p: &str) -> (r: bool)
    ensures
        r == ends(s@, p@),
{
    let cs = chars_of(s);
    let cp = chars_of(p);
    if cp.len() > cs.len() {
        return false;
    }
    stands_at(cs.as_slice(), cp.as_slice(), cs.len() - cp.len())
}

/// Whether `p` stands somewhere in `s`.
pub fn has(s: &str, p: &str) -> (r: bool)
    ensures
        r == contains(s@, p@),
{
    stands_in(chars_of(s).as_slice(), chars_of(p).as_slice())
}

/// Whether the character `c` stands somewhere in `s`.
pub fn has_char(s: &str, c: char) -> (r: bool)
    ensures
        r == s@.contains(c),
{
    let cs = chars_of(s);
    let i = find_char(cs.as_slice(), 0, c);
    proof {
        assert(cs@.skip(0) =~= cs@);
        lemma_index_of(cs@, c);
    }
    i < cs.len()
}

/// Whether the strings of `list` include `s`.
pub fn list_has(list: &[String], s: &str) -> (r: bool)
    ensures
        r == views(list@).contains(s@),
{
    let mut i: usize = 0;
    while i < list.len()
        invariant
            0 <= i <= list@.len(),
            forall|k: int| 0 <= k < i ==> list@[k]@ != s@,
        decreases list.len() - i,
    {
        if same(list[i].as_str(), s) {
            assert(views(list@)[i as int] == s@);
            return true;
        }
        i += 1;
    }
    assert forall|k: int| 0 <= k < views(list@).len() implies views(list@)[k] != s@ by {
        assert(list@[k]@ != s@);
    }
    false
}

// ---------------------------------------------------------------------------------------------
// Cutting and joining.

/// The pieces of `s` between the occurrences of `c`.
pub open spec fn split_on(s: Seq<char>, c: char) -> Seq<Seq<char>>
    decreases s.len(),
{
    let i = index_of(s, c);
    if i < 0 || i >= s.len() {
        seq![s]
    } else {
        seq![s.take(i)] + split_on(s.skip(i + 1), c)
    }
}

/// `views` of a list that grew by one.
pub proof fn lemma_views_push(list: Seq<String>, s: String)
    ensures
        views(list.push(s)) == views(list).push(s@),
{
    assert(views(list.push(s)) =~= views(list).push(s@));
}

/// The pieces of `s` between the occurrences of `c`.
pub fn split(s: &str, c: char) -> (r: Vec<String>)
    ensures
        views(r@) == split_on(s@, c),
{
    let cs = chars_of(s);
    let mut out: Vec<String> = Vec::new();
    let mut pos: usize = 0;
    assert(s@.skip(0) =~= s@);
    assert(views(out@) + split_on(s@, c) =~= split_on(s@, c));
    loop
        invariant
            cs@ == s@,
            pos <= cs@.len(),
            views(out@) + split_on(s@.skip(pos as int), c) == split_on(s@, c),
        decreases cs.len() - pos,
    {
        let i = find_char(cs.as_slice(), pos, c);
        let piece = string_range(cs.as_slice(), pos, i);
        let ghost before = out@;
        let ghost rest = s@.skip(pos as int);
        out.push(piece);
        proof {
            lemma_views_push(before, piece);
            lemma_index_of(rest, c);
            assert(rest.take(i - pos) =~= piece@);
        }
        if i >= cs.len() {
            proof {
                assert(rest =~= piece@);
                assert(views(out@) =~= views(before) + seq![rest]);
            }
            return out;
        }
        proof {
            assert(rest.skip(i - pos + 1) =~= s@.skip(i + 1));
            assert(views(out@) + split_on(s@.skip(i + 1), c) =~= views(before) + (seq![piece@]
                + split_on(s@.skip(i + 1), c)));
        }
        pos = i + 1;
    }
}

/// The parts with `sep` between each two neighbours.
pub open spec fn join_with(parts: Seq<Seq<char>>, sep: Seq<char>) -> Seq<char>
    decreases parts.len(),
{
    if parts.len() == 0 {
        Seq::empty()
    } else if parts.len() == 1 {
        parts[0]
    } else {
        join_with(parts.drop_last(), sep) + sep + parts.last()
    }
}

/// The strings with `sep` between each two neighbours.
pub fn join(parts: &[String], sep: &str) -> (r: String)
    ensures
        r@ == join_with(views(parts@), sep@),
{
    let mut out = String::new();
    let mut i: usize = 0;
    let ghost all = views(parts@);
    assert(all.take(0) =~= Seq::<Seq<char>>::empty());
    while i < parts.len()
        invariant
            all == views(parts@),
            0 <= i <= parts@.len(),
            out@ == join_with(all.take(i as int), sep@),
        decreases parts.len() - i,
    {
        if i > 0 {
            out.append(sep);
        }
        out.append(parts[i].as_str());
        proof {
            let next = all.take(i as int + 1);
            assert(next.drop_last() =~= all.take(i as int));
            assert(next.last() == parts@[i as int]@);
            if i == 0 {
                assert(out@ =~= next[0]);
            }
        }
        i += 1;
    }
    assert(all.take(all.len() as int) =~= all);
    out
}

/// The two sides of the first `c` in `s`.
pub open spec fn split_first(s: Seq<char>, c: char) -> Option<(Seq<char>, Seq<char>)> {
    let i = index_of(s, c);
    if i < s.len() {
        Some((s.take(i), s.skip(i + 1)))
    } else {
        None
    }
}

/// An optional pair of strings, by its contents.
pub open spec fn pair_view(o: Option<(String, String)>) -> Option<(Seq<char>, Seq<char>)> {
    match o {
        Some(p) => Some((p.0@, p.1@)),
        None => None,
    }
}

/// The two sides of the first `c` in `s`.
pub fn split_once(s: &str, c: char) -> (r: Option<(String, String)>)
    ensures
        pair_view(r) == split_first(s@, c),
{
    let cs = chars_of(s);
    let i = find_char(cs.as_slice(), 0, c);
    proof {
        assert(cs@.skip(0) =~= cs@);
        lemma_index_of(cs@, c);
    }
    if i < cs.len() {
        let a = string_range(cs.as_slice(), 0, i);
        let b = string_range(cs.as_slice(), i + 1, cs.len());
        assert(a@ =~= s@.take(i as int));
        assert(b@ =~= s@.skip(i + 1));
        Some((a, b))
    } else {
        None
    }
}

/// The position just behind the last `c` in `s`, or 0 when there is none.
pub open spec fn after_last(s: Seq<char>, c: char) -> int
    decreases s.len(),
{
    if s.len() == 0 {
        0
    } else if s.last() == c {
        s.len() as int
    } else {
        after_last(s.drop_last(), c)
    }
}

/// The two sides of the last `c` in `s`.
pub open spec fn split_last(s: Seq<char>, c: char) -> Option<(Seq<char>, Seq<char>)> {
    let i = after_last(s, c);
    if i > 0 {
        Some((s.take(i - 1), s.skip(i)))
    } else {
        None
    }
}

/// The position just behind the last `c`, or 0 when there is none.
pub fn find_last(chars: &[char], c: char) -> (r: usize)
    ensures
        r == after_last(chars@, c),
        r <= chars@.len(),
{
    let mut i: usize = chars.len();
    assert(chars@.take(i as int) =~= chars@);
    while i > 0 && chars[i - 1] != c
        invariant
            0 <= i <= chars@.len(),
            after_last(chars@.take(i as int), c) == after_last(chars@, c),
        decreases i,
    {
        assert(chars@.take(i as int).drop_last() =~= chars@.take(i - 1));
        i -= 1;
    }
    i
}

/// The two sides of the last `c` in `s`.
pub fn rsplit_once(s: &str, c: char) -> (r: Option<(String, String)>)
    ensures
        pair_view(r) == split_last(s@, c),
{
    let cs = chars_of(s);
    let i = find_last(cs.as_slice(), c);
    if i > 0 {
        let a = string_range(cs.as_slice(), 0, i - 1);
        let b = string_range(cs.as_slice(), i, cs.len());
        assert(a@ =~= s@.take(i - 1));
        assert(b@ =~= s@.skip(i as int));
        Some((a, b))
    } else {
        None
    }
}

/// What is left of `s` behind the prefix `p`.
pub open spec fn without_prefix(s: Seq<char>, p: Seq<char>) -> Option<Seq<char>> {
    if begins(s, p) {
        Some(s.skip(p.len() as int))
    } else {
        None
    }
}

/// An optional string, by its contents.
pub open spec fn opt_view(o: Option<String>) -> Option<Seq<char>> {
    match o {
        Some(s) => Some(s@),
        None => None,
    }
}

/// What is left of `s` behind the prefix `p`.
pub fn strip_prefix(s: &str, p: &str) -> (r: Option<String>)
    ensures
        opt_view(r) == without_prefix(s@, p@),
{
    let cs = chars_of(s);
    let cp = chars_of(p);
    if stands_at(cs.as_slice(), cp.as_slice(), 0) {
        let rest = string_range(cs.as_slice(), cp.len(), cs.len());
        assert(rest@ =~= s@.skip(p@.len() as int));
        Some(rest)
    } else {
        None
    }
}

/// What is left of `s` before the suffix `p`.
pub open spec fn without_suffix(s: Seq<char>, p: Seq<char>) -> Option<Seq<char>> {
    if ends(s, p) {
        Some(s.take(s.len() - p.len()))
    } else {
        None
    }
}

/// What is left of `s` before the suffix `p`.
pub fn strip_suffix(s: &str, p: &str) -> (r: Option<String>)
    ensures
        opt_view(r) == without_suffix(s@, p@),
{
    let cs = chars_of(s);
    let cp = chars_of(p);
    if cp.len() <= cs.len() && stands_at(cs.as_slice(), cp.as_slice(), cs.len() - cp.len()) {
        let rest = string_range(cs.as_slice(), 0, cs.len() - cp.len());
        assert(rest@ =~= s@.take(s@.len() - p@.len()));
        Some(rest)
    } else {
        None
    }
}

/// No piece of a split holds the character it was split on, and every character of a piece is
/// one of the text.
pub proof fn lemma_split_pieces(s: Seq<char>, c: char)
    ensures
        split_on(s, c).len() >= 1,
        forall|i: int| 0 <= i < split_on(s, c).len() ==> !(#[trigger] split_on(s, c)[i]).contains(c),
        forall|i: int, k: int|
            0 <= i < split_on(s, c).len() && 0 <= k < split_on(s, c)[i].len() ==> s.contains(
                #[trigger] split_on(s, c)[i][k],
            ),
    decreases s.len(),
{
    let i = index_of(s, c);
    lemma_index_of(s, c);
    let parts = split_on(s, c);
    if i >= s.len() {
        assert(parts[0] == s);
    } else {
        let rest = s.skip(i + 1);
        lemma_split_pieces(rest, c);
        assert forall|j: int| 0 <= j < parts.len() implies !(#[trigger] parts[j]).contains(c) by {
            if j > 0 {
                assert(parts[j] == split_on(rest, c)[j - 1]);
            } else {
                assert(parts[0] == s.take(i));
            }
        }
        assert forall|j: int, k: int|
            0 <= j < parts.len() && 0 <= k < parts[j].len() implies s.contains(
            #[trigger] parts[j][k],
        ) by {
            if j > 0 {
                assert(parts[j] == split_on(rest, c)[j - 1]);
                assert(rest.contains(split_on(rest, c)[j - 1][k]));
                let m = choose|m: int| 0 <= m < rest.len() && rest[m] == parts[j][k];
                assert(s[m + i + 1] == parts[j][k]);
            } else {
                assert(parts[0] == s.take(i));
                assert(s[k] == parts[0][k]);
            }
        }
    }
}

/// Appending the separator and a piece without it appends that piece to the split.
pub proof fn lemma_split_append(a: Seq<char>, b: Seq<char>, c: char)
    requires
        !b.contains(c),
    ensures
        split_on(a + seq![c] + b, c) == split_on(a, c).push(b),
    decreases a.len(),
{
    let s = a + seq![c] + b;
    let i = index_of(a, c);
    lemma_index_of(a, c);
    lemma_index_of(b, c);
    if i >= a.len() {
        assert(s[i] == c);
        lemma_index_of_unique(s, c, i);
        assert(s.take(i) =~= a);
        assert(s.skip(i + 1) =~= b);
        assert(split_on(b, c) =~= seq![b]);
        assert(split_on(s, c) =~= seq![a].push(b));
    } else {
        assert(s[i] == c);
        lemma_index_of_unique(s, c, i);
        assert(s.take(i) =~= a.take(i));
        assert(s.skip(i + 1) =~= a.skip(i + 1) + seq![c] + b);
        lemma_split_append(a.skip(i + 1), b, c);
        assert(split_on(s, c) =~= split_on(a, c).push(b));
    }
}

/// Splitting undoes joining, for parts that do not hold the separator.
pub proof fn lemma_split_of_join(parts: Seq<Seq<char>>, c: char)
    requires
        parts.len() > 0,
        forall|i: int| 0 <= i < parts.len() ==> !(#[trigger] parts[i]).contains(c),
    ensures
        split_on(join_with(parts, seq![c]), c) == parts,
    decreases parts.len(),
{
    if parts.len() == 1 {
        lemma_index_of(parts[0], c);
        assert(!parts[0].contains(c));
        assert(split_on(parts[0], c) =~= seq![parts[0]]);
        assert(parts =~= seq![parts[0]]);
    } else {
        let front = parts.drop_last();
        assert forall|i: int| 0 <= i < front.len() implies !(#[trigger] front[i]).contains(c) by {
            assert(!parts[i].contains(c));
        }
        lemma_split_of_join(front, c);
        assert(!parts[parts.len() - 1].contains(c));
        lemma_split_append(join_with(front, seq![c]), parts.last(), c);
        assert(front.push(parts.last()) =~= parts);
    }
}

// ---------------------------------------------------------------------------------------------
// White space.

/// The characters with the Unicode property White_Space.
pub open spec fn is_space(c: char) -> bool {
    ||| '\u{9}' <= c <= '\u{d}'
    ||| c == ' '
    ||| c == '\u{85}'
    ||| c == '\u{a0}'
    ||| c == '\u{1680}'
    ||| '\u{2000}' <= c <= '\u{200a}'
    ||| c == '\u{2028}'
    ||| c == '\u{2029}'
    ||| c == '\u{202f}'
    ||| c == '\u{205f}'
    ||| c == '\u{3000}'
}

/// Whether `c` is white space.
pub fn space(c: char) -> (r: bool)
    ensures
        r == is_space(c),
{
    ('\u{9}' <= c && c <= '\u{d}') || c == ' ' || c == '\u{85}' || c == '\u{a0}' || c == '\u{1680}'
        || ('\u{2000}' <= c && c <= '\u{200a}') || c == '\u{2028}' || c == '\u{2029}' || c
        == '\u{202f}' || c == '\u{205f}' || c == '\u{3000}'
}

/// `s` without its leading white space.
pub open spec fn left_trimmed(s: Seq<char>) -> Seq<char>
    decreases s.len(),
{
    if s.len() > 0 && is_space(s[0]) {
        left_trimmed(s.drop_first())
    } else {
        s
    }
}

/// `s` without its trailing white space.
pub open spec fn right_trimmed(s: Seq<char>) -> Seq<char>
    decreases s.len(),
{
    if s.len() > 0 && is_space(s.last()) {
        right_trimmed(s.drop_last())
    } else {
        s
    }
}

/// `s` without white space at either end.
pub open spec fn trimmed(s: Seq<char>) -> Seq<char> {
    right_trimmed(left_trimmed(s))
}

/// The first position from `from` on that is not white space, or the length.
pub fn skip_space(chars: &[char], from: usize) -> (r: usize)
    requires
        from <= chars@.len(),
    ensures
        from <= r <= chars@.len(),
        left_trimmed(chars@.skip(from as int)) == chars@.skip(r as int),
        forall|k: int| from <= k < r ==> is_space(chars@[k]),
        r < chars@.len() ==> !is_space(chars@[r as int]),
{
    let mut i: usize = from;
    while i < chars.len() && space(chars[i])
        invariant
            from <= i <= chars@.len(),
            left_trimmed(chars@.skip(from as int)) == left_trimmed(chars@.skip(i as int)),
            forall|k: int| from <= k < i ==> is_space(chars@[k]),
        decreases chars.len() - i,
    {
        assert(chars@.skip(i as int).drop_first() =~= chars@.skip(i as int + 1));
        i += 1;
    }
    i
}

/// The end of the characters `from..to` without trailing white space.
pub fn drop_space(chars: &[char], from: usize, to: usize) -> (r: usize)
    requires
        from <= to <= chars@.len(),
    ensures
        from <= r <= to,
        right_trimmed(chars@.subrange(from as int, to as int)) == chars@.subrange(
            from as int,
            r as int,
        ),
{
    let mut i: usize = to;
    while i > from && space(chars[i - 1])
        invariant
            from <= i <= to <= chars@.len(),
            right_trimmed(chars@.subrange(from as int, to as int)) == right_trimmed(
                chars@.subrange(from as int, i as int),
            ),
        decreases i,
    {
        assert(chars@.subrange(from as int, i as int).drop_last() =~= chars@.subrange(
            from as int,
            i - 1,
        ));
        i -= 1;
    }
    i
}

/// `s` without white space at either end.
pub fn trim(s: &str) -> (r: String)
    ensures
        r@ == trimmed(s@),
{
    let cs = chars_of(s);
    let a = skip_space(cs.as_slice(), 0);
    let b = drop_space(cs.as_slice(), a, cs.len());
    assert(cs@.skip(0) =~= cs@);
    assert(cs@.skip(a as int) =~= cs@.subrange(a as int, cs@.len() as int));
    string_range(cs.as_slice(), a, b)
}

/// Whether `s` is empty but for white space.
pub open spec fn is_blank(s: Seq<char>) -> bool {
    trimmed(s).len() == 0
}

/// Whether `s` is empty but for white space.
pub fn blank(s: &str) -> (r: bool)
    ensures
        r == is_blank(s@),
{
    let t = trim(s);
    is_empty(t.as_str())
}

/// Whether `s` has no characters.
pub fn is_empty(s: &str) -> (r: bool)
    ensures
        r == (s@.len() == 0),
{
    chars_of(s).len() == 0
}

/// The length of the run of characters at the start of `s` that are not white space.
pub open spec fn word_length(s: Seq<char>) -> int
    decreases s.len(),
{
    if s.len() == 0 || is_space(s[0]) {
        0
    } else {
        1 + word_length(s.drop_first())
    }
}

/// `word_length` lies within the text.
pub proof fn lemma_word_length(s: Seq<char>)
    ensures
        0 <= word_length(s) <= s.len(),
        s.len() > 0 && !is_space(s[0]) ==> word_length(s) > 0,
    decreases s.len(),
{
    if s.len() > 0 && !is_space(s[0]) {
        lemma_word_length(s.drop_first());
    }
}

/// `left_trimmed` never grows the text, and leaves no leading white space.
pub proof fn lemma_left_trimmed(s: Seq<char>)
    ensures
        left_trimmed(s).len() <= s.len(),
        left_trimmed(s).len() > 0 ==> !is_space(left_trimmed(s)[0]),
    decreases s.len(),
{
    if s.len() > 0 && is_space(s[0]) {
        lemma_left_trimmed(s.drop_first());
    }
}

/// What is left at the end of trimmed text.
pub proof fn lemma_right_trimmed(s: Seq<char>)
    ensures
        right_trimmed(s).len() <= s.len(),
        right_trimmed(s) == s.take(right_trimmed(s).len() as int),
        right_trimmed(s).len() > 0 ==> !is_space(right_trimmed(s).last()),
    decreases s.len(),
{
    if s.len() > 0 && is_space(s.last()) {
        lemma_right_trimmed(s.drop_last());
        let n = right_trimmed(s).len() as int;
        assert(s.drop_last().take(n) =~= s.take(n));
    } else {
        assert(s.take(s.len() as int) =~= s);
    }
}

/// Trimming keeps everything up to a character that is no white space.
pub proof fn lemma_right_trimmed_keeps(s: Seq<char>, i: int)
    requires
        0 <= i < s.len(),
        !is_space(s[i]),
    ensures
        right_trimmed(s).len() > i,
    decreases s.len(),
{
    if is_space(s.last()) {
        lemma_right_trimmed_keeps(s.drop_last(), i);
    }
}

/// Text that trimming leaves as it is begins and ends without white space.
pub proof fn lemma_trimmed_ends(s: Seq<char>)
    requires
        trimmed(s) == s,
    ensures
        s.len() > 0 ==> !is_space(s[0]) && !is_space(s.last()),
{
    lemma_left_trimmed(s);
    lemma_right_trimmed(left_trimmed(s));
    if s.len() > 0 && is_space(s[0]) {
        lemma_left_trimmed(s.drop_first());
    }
}

/// Trimmed text has no white space at its ends, so that trimming it again changes nothing.
pub proof fn lemma_trimmed_twice(s: Seq<char>)
    ensures
        trimmed(trimmed(s)) == trimmed(s),
{
    let left = left_trimmed(s);
    lemma_left_trimmed(s);
    lemma_right_trimmed(left);
    let t = trimmed(s);
    if t.len() > 0 {
        assert(t[0] == left[0]);
    }
}

/// The words of `s`: its maximal runs without white space.
pub open spec fn words_of(s: Seq<char>) -> Seq<Seq<char>>
    decreases s.len(),
    via words_of_decreases
{
    let t = left_trimmed(s);
    if t.len() == 0 {
        Seq::empty()
    } else {
        seq![t.take(word_length(t))] + words_of(t.skip(word_length(t)))
    }
}

#[via_fn]
proof fn words_of_decreases(s: Seq<char>) {
    lemma_left_trimmed(s);
    lemma_word_length(left_trimmed(s));
}

/// The first position from `from` on that is white space, or the length.
pub fn word_end(chars: &[char], from: usize) -> (r: usize)
    requires
        from <= chars@.len(),
    ensures
        from <= r <= chars@.len(),
        r - from == word_length(chars@.skip(from as int)),
{
    let mut i: usize = from;
    while i < chars.len() && !space(chars[i])
        invariant
            from <= i <= chars@.len(),
            word_length(chars@.skip(from as int)) == i - from + word_length(chars@.skip(i as int)),
        decreases chars.len() - i,
    {
        assert(chars@.skip(i as int).drop_first() =~= chars@.skip(i as int + 1));
        i += 1;
    }
    i
}

/// The words of `s`.
pub fn words(s: &str) -> (r: Vec<String>)
    ensures
        views(r@) == words_of(s@),
{
    let cs = chars_of(s);
    let mut out: Vec<String> = Vec::new();
    let mut pos: usize = 0;
    assert(s@.skip(0) =~= s@);
    assert(views(out@) + words_of(s@) =~= words_of(s@));
    loop
        invariant
            cs@ == s@,
            pos <= cs@.len(),
            views(out@) + words_of(s@.skip(pos as int)) == words_of(s@),
        decreases cs.len() - pos,
    {
        let a = skip_space(cs.as_slice(), pos);
        if a >= cs.len() {
            assert(views(out@) + Seq::<Seq<char>>::empty() =~= views(out@));
            return out;
        }
        let b = word_end(cs.as_slice(), a);
        let word = string_range(cs.as_slice(), a, b);
        let ghost before = out@;
        out.push(word);
        proof {
            let t = s@.skip(a as int);
            lemma_word_length(t);
            lemma_views_push(before, word);
            assert(t.take(b - a) =~= word@);
            assert(t.skip(b - a) =~= s@.skip(b as int));
            assert(views(out@) + words_of(s@.skip(b as int)) =~= views(before) + (seq![word@]
                + words_of(s@.skip(b as int))));
        }
        pos = b;
    }
}

// ---------------------------------------------------------------------------------------------
// Lines.

/// `s` without one trailing carriage return.
pub open spec fn without_cr(s: Seq<char>) -> Seq<char> {
    if s.len() > 0 && s.last() == '\r' {
        s.drop_last()
    } else {
        s
    }
}

/// The lines of `s`: what stands before each line feed, less one carriage return, and the rest
/// if there is any.
pub open spec fn lines_of(s: Seq<char>) -> Seq<Seq<char>>
    decreases s.len(),
{
    let i = index_of(s, '\n');
    if s.len() == 0 {
        Seq::empty()
    } else if i < 0 || i >= s.len() {
        seq![s]
    } else {
        seq![without_cr(s.take(i))] + lines_of(s.skip(i + 1))
    }
}

/// The lines of `s`.
pub fn lines(s: &str) -> (r: Vec<String>)
    ensures
        views(r@) == lines_of(s@),
{
    let cs = chars_of(s);
    let mut out: Vec<String> = Vec::new();
    let mut pos: usize = 0;
    assert(s@.skip(0) =~= s@);
    assert(views(out@) + lines_of(s@) =~= lines_of(s@));
    while pos < cs.len()
        invariant
            cs@ == s@,
            pos <= cs@.len(),
            views(out@) + lines_of(s@.skip(pos as int)) == lines_of(s@),
        decreases cs.len() - pos,
    {
        let i = find_char(cs.as_slice(), pos, '\n');
        let ghost rest = s@.skip(pos as int);
        let ghost before = out@;
        proof {
            lemma_index_of(rest, '\n');
        }
        if i >= cs.len() {
            let line = string_range(cs.as_slice(), pos, i);
            out.push(line);
            proof {
                lemma_views_push(before, line);
                assert(rest =~= line@);
                assert(views(out@) =~= views(before) + seq![rest]);
            }
            return out;
        }
        let end: usize = if i > pos && cs[i - 1] == '\r' {
            i - 1
        } else {
            i
        };
        let line = string_range(cs.as_slice(), pos, end);
        out.push(line);
        proof {
            lemma_views_push(before, line);
            assert(rest.take(i - pos) =~= cs@.subrange(pos as int, i as int));
            assert(without_cr(rest.take(i - pos)) =~= line@);
            assert(rest.skip(i - pos + 1) =~= s@.skip(i + 1));
            assert(views(out@) + lines_of(s@.skip(i + 1)) =~= views(before) + (seq![line@]
                + lines_of(s@.skip(i + 1))));
        }
        pos = i + 1;
    }
    proof {
        assert(s@.skip(pos as int) =~= Seq::<char>::empty());
        assert(views(out@) + Seq::<Seq<char>>::empty() =~= views(out@));
    }
    out
}

// ---------------------------------------------------------------------------------------------
// Replacing.

/// `s` with every occurrence of `from`, read from the left without overlap, replaced by `to`.
/// An empty `from` replaces nothing.
pub open spec fn replaced(s: Seq<char>, from: Seq<char>, to: Seq<char>) -> Seq<char>
    decreases s.len(),
{
    if s.len() == 0 {
        s
    } else if from.len() > 0 && begins(s, from) {
        to + replaced(s.skip(from.len() as int), from, to)
    } else {
        seq![s[0]] + replaced(s.drop_first(), from, to)
    }
}

/// `s` with every occurrence of `from` replaced by `to`.
pub fn replace(s: &str, from: &str, to: &str) -> (r: String)
    requires
        from@.len() > 0,
    ensures
        r@ == replaced(s@, from@, to@),
{
    let cs = chars_of(s);
    let cf = chars_of(from);
    let mut out = String::new();
    let mut pos: usize = 0;
    assert(s@.skip(0) =~= s@);
    assert(out@ + replaced(s@, from@, to@) =~= replaced(s@, from@, to@));
    while pos < cs.len()
        invariant
            cs@ == s@,
            cf@ == from@,
            from@.len() > 0,
            pos <= cs@.len(),
            out@ + replaced(s@.skip(pos as int), from@, to@) == replaced(s@, from@, to@),
        decreases cs.len() - pos,
    {
        let ghost rest = s@.skip(pos as int);
        let ghost before = out@;
        if stands_at(cs.as_slice(), cf.as_slice(), pos) {
            out.append(to);
            proof {
                assert(rest.subrange(0, from@.len() as int) =~= cs@.subrange(
                    pos as int,
                    pos + from@.len(),
                ));
                assert(rest.skip(from@.len() as int) =~= s@.skip(pos + from@.len()));
                let tail = replaced(s@.skip(pos + from@.len()), from@, to@);
                assert(before + (to@ + tail) =~= out@ + tail);
            }
            pos = pos + cf.len();
        } else {
            out.push(cs[pos]);
            proof {
                if begins(rest, from@) {
                    assert(rest.subrange(0, from@.len() as int) =~= cs@.subrange(
                        pos as int,
                        pos + from@.len(),
                    ));
                }
                assert(rest.drop_first() =~= s@.skip(pos + 1));
                let tail = replaced(s@.skip(pos + 1), from@, to@);
                assert(before + (seq![rest[0]] + tail) =~= out@ + tail);
            }
            pos = pos + 1;
        }
    }
    proof {
        assert(s@.skip(pos as int) =~= Seq::<char>::empty());
        assert(out@ + Seq::<char>::empty() =~= out@);
    }
    out
}

/// `s` with every character `from` replaced by the character `to`.
pub open spec fn swapped(s: Seq<char>, from: char, to: char) -> Seq<char> {
    s.map_values(|c: char| if c == from { to } else { c })
}

/// `s` with every character `from` replaced by the character `to`.
pub fn swap_char(s: &str, from: char, to: char) -> (r: String)
    ensures
        r@ == swapped(s@, from, to),
{
    let cs = chars_of(s);
    let mut out = String::new();
    let mut i: usize = 0;
    while i < cs.len()
        invariant
            cs@ == s@,
            i <= cs@.len(),
            out@ == swapped(s@, from, to).take(i as int),
        decreases cs.len() - i,
    {
        let c = cs[i];
        out.push(if c == from { to } else { c });
        assert(out@ =~= swapped(s@, from, to).take(i as int + 1));
        i += 1;
    }
    assert(out@ =~= swapped(s@, from, to));
    out
}

/// The lower-case form of an ASCII letter; any other character is its own.
pub open spec fn lower_char(c: char) -> char {
    if 'A' <= c <= 'Z' {
        (c as u32 + 32) as char
    } else {
        c
    }
}

/// `s` with its ASCII letters in lower case.
pub open spec fn lowered(s: Seq<char>) -> Seq<char> {
    s.map_values(|c: char| lower_char(c))
}

/// The lower-case form of an ASCII letter; any other character is its own.
pub fn to_lower_char(c: char) -> (r: char)
    ensures
        r == lower_char(c),
{
    if 'A' <= c && c <= 'Z' {
        let b: u8 = c as u8;
        assert(b == c as u32);
        (b + 32) as char
    } else {
        c
    }
}

/// `s` with its ASCII letters in lower case.
pub fn to_lower(s: &str) -> (r: String)
    ensures
        r@ == lowered(s@),
{
    let cs = chars_of(s);
    let mut out = String::new();
    let mut i: usize = 0;
    while i < cs.len()
        invariant
            cs@ == s@,
            i <= cs@.len(),
            out@ == lowered(s@).take(i as int),
        decreases cs.len() - i,
    {
        out.push(to_lower_char(cs[i]));
        assert(out@ =~= lowered(s@).take(i as int + 1));
        i += 1;
    }
    assert(out@ =~= lowered(s@));
    out
}

/// Whether two texts are equal but for the case of ASCII letters.
pub fn same_ignoring_case(a: &str, b: &str) -> (r: bool)
    ensures
        r == (lowered(a@) == lowered(b@)),
{
    same(to_lower(a).as_str(), to_lower(b).as_str())
}

// ---------------------------------------------------------------------------------------------
// Decimal numbers.

/// The digit for a number below ten.
pub open spec fn digit(d: int) -> char {
    ('0' as u32 + d) as char
}

/// The decimal digits of `n`, without leading zeros.
pub open spec fn decimal(n: nat) -> Seq<char>
    decreases n,
{
    if n < 10 {
        seq![digit(n as int)]
    } else {
        decimal(n / 10).push(digit((n % 10) as int))
    }
}

/// The decimal form of an integer.
pub open spec fn signed_decimal(n: int) -> Seq<char> {
    if n < 0 {
        seq!['-'] + decimal((-n) as nat)
    } else {
        decimal(n as nat)
    }
}

/// The decimal form of `n`.
pub fn decimal_string(n: u64) -> (r: String)
    ensures
        r@ == decimal(n as nat),
    decreases n,
{
    let d: u8 = (n % 10) as u8;
    let c: char = (48u8 + d) as char;
    assert(c == digit((n % 10) as int));
    if n < 10 {
        let mut out = String::new();
        out.push(c);
        assert(out@ =~= seq![c]);
        out
    } else {
        let mut out = decimal_string(n / 10);
        out.push(c);
        out
    }
}

/// The decimal form of `n`.
pub fn signed_decimal_string(n: i64) -> (r: String)
    ensures
        r@ == signed_decimal(n as int),
{
    if n < 0 {
        let m: u64 = if n == i64::MIN {
            9_223_372_036_854_775_808
        } else {
            (-n) as u64
        };
        let mut out = String::new();
        out.push('-');
        assert(out@ =~= seq!['-']);
        out.append(decimal_string(m).as_str());
        out
    } else {
        decimal_string(n as u64)
    }
}

/// `c` is a decimal digit.
pub open spec fn is_digit(c: char) -> bool {
    '0' <= c <= '9'
}

/// Every character of `s` is a decimal digit.
pub open spec fn all_digits(s: Seq<char>) -> bool {
    forall|i: int| 0 <= i < s.len() ==> is_digit(#[trigger] s[i])
}

/// The number that a row of decimal digits stands for.
pub open spec fn digits_value(s: Seq<char>) -> nat
    decreases s.len(),
{
    if s.len() == 0 {
        0
    } else {
        (digits_value(s.drop_last()) * 10 + (s.last() as u32 - '0' as u32)) as nat
    }
}

/// The number that `s` spells in decimal, with an optional leading plus sign.
pub open spec fn parsed(s: Seq<char>) -> Option<nat> {
    let t = if s.len() > 0 && s[0] == '+' {
        s.drop_first()
    } else {
        s
    };
    if t.len() > 0 && all_digits(t) {
        Some(digits_value(t))
    } else {
        None
    }
}

/// A longer row of digits stands for no smaller number.
pub proof fn lemma_digits_value_grows(s: Seq<char>, i: int)
    requires
        all_digits(s),
        0 <= i <= s.len(),
    ensures
        digits_value(s.take(i)) <= digits_value(s),
    decreases s.len() - i,
{
    if i < s.len() {
        lemma_digits_value_grows(s, i + 1);
        assert(s.take(i + 1).drop_last() =~= s.take(i));
        assert(s.take(i + 1).last() == s[i]);
        assert(is_digit(s[i]));
    } else {
        assert(s.take(i) =~= s);
    }
}

/// The number that `s` spells in decimal, if it is at most `max`.
#[verifier::rlimit(50)]
#[verifier::spinoff_prover]
pub fn parse_number(s: &str, max: u64) -> (r: Option<u64>)
    ensures
        r == match parsed(s@) {
            Some(n) => if n <= max {
                Some(n as u64)
            } else {
                None
            },
            None => None,
        },
{
    let cs = chars_of(s);
    let start: usize = if cs.len() > 0 && cs[0] == '+' {
        1
    } else {
        0
    };
    let ghost t = cs@.skip(start as int);
    proof {
        if start == 0 {
            assert(t =~= s@);
        } else {
            assert(t =~= s@.drop_first());
        }
    }
    if start >= cs.len() {
        return None;
    }
    let mut i: usize = start;
    let mut value: u64 = 0;
    let mut fits: bool = true;
    assert(t.take(0) =~= Seq::<char>::empty());
    while i < cs.len()
        invariant
            cs@ == s@,
            start <= i <= cs@.len(),
            t == cs@.skip(start as int),
            t == if s@.len() > 0 && s@[0] == '+' {
                s@.drop_first()
            } else {
                s@
            },
            forall|k: int| 0 <= k < i - start ==> is_digit(#[trigger] t[k]),
            fits ==> value == digits_value(t.take(i - start)) && value <= max,
            !fits ==> digits_value(t.take(i - start)) > max,
        decreases cs.len() - i,
    {
        let c = cs[i];
        assert(t[i - start] == c);
        if c < '0' || '9' < c {
            assert(!is_digit(t[i - start]));
            return None;
        }
        let d: u64 = (c as u8 - 48u8) as u64;
        assert(d == c as u32 - '0' as u32);
        proof {
            assert(t.take(i - start + 1).drop_last() =~= t.take(i - start));
            assert(t.take(i - start + 1).last() == c);
        }
        if fits {
            if value > (max - if d <= max { d } else { max }) / 10 || d > max {
                fits = false;
            } else {
                value = value * 10 + d;
            }
        }
        i += 1;
    }
    assert(t.take(t.len() as int) =~= t);
    if fits {
        Some(value)
    } else {
        None
    }
}

/// The integer that `s` spells in decimal, with an optional sign.
pub open spec fn signed_parsed(s: Seq<char>) -> Option<int> {
    if s.len() > 0 && s[0] == '-' {
        if s.len() > 1 && all_digits(s.drop_first()) {
            Some(-(digits_value(s.drop_first()) as int))
        } else {
            None
        }
    } else {
        match parsed(s) {
            Some(n) => Some(n as int),
            None => None,
        }
    }
}

/// The integer that `s` spells in decimal, if it fits.
pub fn parse_signed(s: &str) -> (r: Option<i64>)
    ensures
        r == match signed_parsed(s@) {
            Some(n) => if i64::MIN <= n <= i64::MAX {
                Some(n as i64)
            } else {
                None
            },
            None => None,
        },
{
    let cs = chars_of(s);
    if cs.len() > 0 && cs[0] == '-' {
        if cs.len() > 1 && cs[1] == '+' {
            assert(s@.drop_first()[0] == '+');
            assert(!is_digit(s@.drop_first()[0]));
            return None;
        }
        let rest = string_range(cs.as_slice(), 1, cs.len());
        assert(rest@ =~= s@.drop_first());
        match parse_number(rest.as_str(), 9_223_372_036_854_775_808) {
            Some(n) => if n == 9_223_372_036_854_775_808 {
                Some(i64::MIN)
            } else {
                Some(-(n as i64))
            },
            None => None,
        }
    } else {
        match parse_number(s, 9_223_372_036_854_775_807) {
            Some(n) => Some(n as i64),
            None => None,
        }
    }
}

/// The bytes of a text.
pub fn bytes_of(s: &str) -> (r: Vec<u8>)
    ensures
        r@ == vstd::utf8::encode_utf8(s@),
{
    vstd::slice::slice_to_vec(s.as_bytes())
}

/// The contents of a list of string slices.
pub open spec fn slices(list: Seq<&str>) -> Seq<Seq<char>> {
    list.map_values(|s: &str| s@)
}

/// The given strings as a list of their own.
pub fn owned(list: Vec<&str>) -> (r: Vec<String>)
    ensures
        views(r@) == slices(list@),
{
    let mut out: Vec<String> = Vec::new();
    let mut i: usize = 0;
    while i < list.len()
        invariant
            0 <= i <= list@.len(),
            views(out@) == slices(list@).take(i as int),
        decreases list.len() - i,
    {
        let ghost before = out@;
        let s = list[i].to_owned();
        out.push(s);
        proof {
            lemma_views_push(before, s);
            assert(views(out@) =~= slices(list@).take(i as int + 1));
        }
        i += 1;
    }
    assert(views(out@) =~= slices(list@));
    out
}

/// The same list once more.
pub fn copy_list(list: &Vec<String>) -> (r: Vec<String>)
    ensures
        views(r@) == views(list@),
{
    let mut out: Vec<String> = Vec::new();
    let mut i: usize = 0;
    while i < list.len()
        invariant
            0 <= i <= list@.len(),
            views(out@) == views(list@).take(i as int),
        decreases list.len() - i,
    {
        let ghost before = out@;
        let s = list[i].as_str().to_owned();
        out.push(s);
        proof {
            lemma_views_push(before, s);
            assert(views(out@) =~= views(list@).take(i as int + 1));
        }
        i += 1;
    }
    assert(views(out@) =~= views(list@));
    out
}

/// An optional list by its contents.
pub open spec fn list_view(o: Option<Vec<String>>) -> Option<Seq<Seq<char>>> {
    match o {
        Some(list) => Some(views(list@)),
        None => None,
    }
}

/// Whether some string of the list begins with `p`.
pub open spec fn any_begins(list: Seq<Seq<char>>, p: Seq<char>) -> bool {
    exists|i: int| 0 <= i < list.len() && begins(#[trigger] list[i], p)
}

/// Whether some string of the list begins with `p`.
pub fn some_starts_with(list: &Vec<String>, p: &str) -> (r: bool)
    ensures
        r == any_begins(views(list@), p@),
{
    let mut i: usize = 0;
    while i < list.len()
        invariant
            0 <= i <= list@.len(),
            forall|k: int| 0 <= k < i ==> !begins(#[trigger] views(list@)[k], p@),
        decreases list.len() - i,
    {
        if starts_with(list[i].as_str(), p) {
            assert(begins(views(list@)[i as int], p@));
            return true;
        }
        i += 1;
    }
    false
}

// ---------------------------------------------------------------------------------------------
// Order.

/// `a` comes before `b` in the order of their characters.
pub open spec fn precedes(a: Seq<char>, b: Seq<char>) -> bool
    decreases a.len(),
{
    if b.len() == 0 {
        false
    } else if a.len() == 0 {
        true
    } else if a[0] == b[0] {
        precedes(a.drop_first(), b.drop_first())
    } else {
        a[0] < b[0]
    }
}

/// Whether `a` comes before `b` in the order of their characters.
pub fn is_before(a: &str, b: &str) -> (r: bool)
    ensures
        r == precedes(a@, b@),
{
    let ca = chars_of(a);
    let cb = chars_of(b);
    let mut i: usize = 0;
    assert(ca@.skip(0) =~= a@);
    assert(cb@.skip(0) =~= b@);
    while i < ca.len() && i < cb.len() && ca[i] == cb[i]
        invariant
            0 <= i <= ca@.len(),
            0 <= i <= cb@.len(),
            precedes(a@, b@) == precedes(ca@.skip(i as int), cb@.skip(i as int)),
        decreases ca.len() - i,
    {
        proof {
            assert(ca@.skip(i as int).drop_first() =~= ca@.skip(i as int + 1));
            assert(cb@.skip(i as int).drop_first() =~= cb@.skip(i as int + 1));
        }
        i += 1;
    }
    if i >= cb.len() {
        false
    } else if i >= ca.len() {
        true
    } else {
        ca[i] < cb[i]
    }
}

/// The order of texts is strict and total.
pub proof fn lemma_order(a: Seq<char>, b: Seq<char>)
    ensures
        !(precedes(a, b) && precedes(b, a)),
        precedes(a, b) || precedes(b, a) || a == b,
        !precedes(a, a),
    decreases a.len(),
{
    if a.len() > 0 && b.len() > 0 && a[0] == b[0] {
        lemma_order(a.drop_first(), b.drop_first());
        if a.drop_first() == b.drop_first() {
            assert(a =~= seq![a[0]] + a.drop_first());
            assert(b =~= seq![b[0]] + b.drop_first());
        }
    } else if a.len() == 0 && b.len() == 0 {
        assert(a =~= b);
    }
    if a.len() > 0 {
        lemma_order(a.drop_first(), a.drop_first());
    }
}

/// The order of texts is transitive.
pub proof fn lemma_order_transitive(a: Seq<char>, b: Seq<char>, c: Seq<char>)
    requires
        precedes(a, b),
        precedes(b, c),
    ensures
        precedes(a, c),
    decreases a.len(),
{
    if a.len() > 0 && b.len() > 0 && c.len() > 0 && a[0] == b[0] && b[0] == c[0] {
        lemma_order_transitive(a.drop_first(), b.drop_first(), c.drop_first());
    }
}

/// The texts come in order, each once.
pub open spec fn strictly_sorted(list: Seq<Seq<char>>) -> bool {
    forall|i: int, j: int| 0 <= i < j < list.len() ==> precedes(#[trigger] list[i], #[trigger] list[j])
}

/// Whether `s` spells a number in decimal, of any size.
pub fn is_number(s: &str) -> (r: bool)
    ensures
        r == (parsed(s@) is Some),
{
    let cs = chars_of(s);
    let start: usize = if cs.len() > 0 && cs[0] == '+' {
        1
    } else {
        0
    };
    let ghost t = cs@.skip(start as int);
    proof {
        if start == 0 {
            assert(t =~= s@);
        } else {
            assert(t =~= s@.drop_first());
        }
    }
    let mut i: usize = start;
    while i < cs.len()
        invariant
            start <= i <= cs@.len(),
            t == cs@.skip(start as int),
            t == if s@.len() > 0 && s@[0] == '+' {
                s@.drop_first()
            } else {
                s@
            },
            forall|k: int| 0 <= k < i - start ==> is_digit(#[trigger] t[k]),
        decreases cs.len() - i,
    {
        assert(t[i - start] == cs@[i as int]);
        if cs[i] < '0' || '9' < cs[i] {
            assert(!is_digit(t[i - start]));
            assert(!all_digits(t));
            return false;
        }
        i += 1;
    }
    start < cs.len()
}

/// Why a text spells no integer of 64 bits.
pub open spec fn integer_refusal(s: Seq<char>) -> Option<Seq<char>> {
    if s.len() == 0 {
        Some("cannot parse integer from empty string"@)
    } else {
        match signed_parsed(s) {
            None => Some("invalid digit found in string"@),
            Some(n) => if n > i64::MAX {
                Some("number too large to fit in target type"@)
            } else if n < i64::MIN {
                Some("number too small to fit in target type"@)
            } else {
                None
            },
        }
    }
}

/// Why a text spells no integer of 64 bits.
pub fn explain_integer(s: &str) -> (r: String)
    requires
        integer_refusal(s@) is Some,
    ensures
        Some(r@) == integer_refusal(s@),
{
    if is_empty(s) {
        return "cannot parse integer from empty string".to_owned();
    }
    let cs = chars_of(s);
    if cs[0] == '-' {
        if cs.len() > 1 && cs[1] == '+' {
            assert(s@.drop_first()[0] == '+');
            assert(!is_digit(s@.drop_first()[0]));
            return "invalid digit found in string".to_owned();
        }
        let rest = string_range(cs.as_slice(), 1, cs.len());
        assert(rest@ =~= s@.drop_first());
        if is_number(rest.as_str()) {
            "number too small to fit in target type".to_owned()
        } else {
            "invalid digit found in string".to_owned()
        }
    } else if is_number(s) {
        "number too large to fit in target type".to_owned()
    } else {
        "invalid digit found in string".to_owned()
    }
}

// ---------------------------------------------------------------------------------------------
// Pieces around a text.

/// Where `p` first stands in `s`, at or behind `from`.
pub open spec fn found_at(s: Seq<char>, p: Seq<char>, from: int) -> Option<int>
    decreases s.len() - from + 1,
{
    if from < 0 || from + p.len() > s.len() {
        None
    } else if occurs_at(s, p, from) {
        Some(from)
    } else {
        found_at(s, p, from + 1)
    }
}

/// What stands before and what behind the first place where `p` stands in `s`.
pub open spec fn split_around(s: Seq<char>, p: Seq<char>) -> Option<(Seq<char>, Seq<char>)> {
    match found_at(s, p, 0) {
        Some(i) => Some((s.take(i), s.skip(i + p.len()))),
        None => None,
    }
}

/// What stands before and what behind the first place where `p` stands in `s`.
pub fn split_once_text(s: &str, p: &str) -> (r: Option<(String, String)>)
    ensures
        pair_view(r) == split_around(s@, p@),
{
    let cs = chars_of(s);
    let ps = chars_of(p);
    let n: usize = cs.len();
    let m: usize = ps.len();
    if m > n {
        return None;
    }
    let last: usize = n - m;
    let mut i: usize = 0;
    while i <= last
        invariant
            cs@ == s@,
            ps@ == p@,
            n == cs@.len(),
            m == ps@.len(),
            m <= n,
            last == n - m,
            0 <= i <= last + 1,
            found_at(s@, p@, 0) == found_at(s@, p@, i as int),
        decreases last + 1 - i,
    {
        if stands_at(cs.as_slice(), ps.as_slice(), i) {
            let before = string_range(cs.as_slice(), 0, i);
            let after = string_range(cs.as_slice(), i + m, n);
            assert(before@ =~= s@.take(i as int));
            assert(after@ =~= s@.skip(i + m));
            return Some((before, after));
        }
        if i == last {
            assert(found_at(s@, p@, i + 1) is None);
            return None;
        }
        i += 1;
    }
    None
}

/// `s` without the given characters at its end.
pub open spec fn without_trailing(s: Seq<char>, a: char, b: char) -> Seq<char>
    decreases s.len(),
{
    if s.len() > 0 && (s.last() == a || s.last() == b) {
        without_trailing(s.drop_last(), a, b)
    } else {
        s
    }
}

/// `s` without the given characters at its start.
pub open spec fn without_leading(s: Seq<char>, a: char, b: char) -> Seq<char>
    decreases s.len(),
{
    if s.len() > 0 && (s[0] == a || s[0] == b) {
        without_leading(s.skip(1), a, b)
    } else {
        s
    }
}

/// `s` without the given characters at its end.
pub fn trim_end_of(s: &str, a: char, b: char) -> (r: String)
    ensures
        r@ == without_trailing(s@, a, b),
{
    let cs = chars_of(s);
    let mut end: usize = cs.len();
    assert(s@.take(end as int) =~= s@);
    while end > 0 && (cs[end - 1] == a || cs[end - 1] == b)
        invariant
            cs@ == s@,
            0 <= end <= cs@.len(),
            without_trailing(s@, a, b) == without_trailing(s@.take(end as int), a, b),
        decreases end,
    {
        assert(s@.take(end as int).drop_last() =~= s@.take(end - 1));
        end -= 1;
    }
    assert(cs@.subrange(0, end as int) =~= s@.take(end as int));
    string_range(cs.as_slice(), 0, end)
}

/// `s` without the given characters at its start.
pub fn trim_start_of(s: &str, a: char, b: char) -> (r: String)
    ensures
        r@ == without_leading(s@, a, b),
{
    let cs = chars_of(s);
    let n: usize = cs.len();
    let mut start: usize = 0;
    assert(s@.skip(0) =~= s@);
    while start < n && (cs[start] == a || cs[start] == b)
        invariant
            cs@ == s@,
            n == cs@.len(),
            0 <= start <= n,
            without_leading(s@, a, b) == without_leading(s@.skip(start as int), a, b),
        decreases n - start,
    {
        assert(s@.skip(start as int)[0] == s@[start as int]);
        assert(s@.skip(start as int).skip(1) =~= s@.skip(start + 1));
        start += 1;
    }
    proof {
        if start < n {
            assert(s@.skip(start as int)[0] == s@[start as int]);
        }
        assert(cs@.subrange(start as int, n as int) =~= s@.skip(start as int));
    }
    string_range(cs.as_slice(), start, n)
}

/// A control character.
pub open spec fn is_control(c: char) -> bool {
    c <= '\u{1f}' || '\u{7f}' <= c <= '\u{9f}'
}

/// The first characters of `s` that are no control characters, as many as `maximum` says.
pub open spec fn printable(s: Seq<char>, maximum: int) -> Seq<char> {
    let kept = s.filter(|c: char| !is_control(c));
    if kept.len() > maximum {
        kept.take(maximum)
    } else {
        kept
    }
}

/// The first characters of `s` that are no control characters, as many as `maximum` says.
pub fn printable_prefix(s: &str, maximum: usize) -> (r: String)
    ensures
        r@ == printable(s@, maximum as int),
{
    let ghost plain = |c: char| !is_control(c);
    let cs = chars_of(s);
    let n: usize = cs.len();
    let mut kept: Vec<char> = Vec::new();
    let mut i: usize = 0;
    assert(s@.take(0).filter(plain) =~= Seq::<char>::empty());
    while i < n
        invariant
            cs@ == s@,
            n == cs@.len(),
            plain == (|c: char| !is_control(c)),
            0 <= i <= n,
            kept@ == s@.take(i as int).filter(plain),
        decreases n - i,
    {
        let c = cs[i];
        proof {
            assert(s@.take(i + 1).drop_last() =~= s@.take(i as int));
            assert(s@.take(i + 1).last() == c);
            reveal(Seq::filter);
        }
        if !(c <= '\u{1f}' || ('\u{7f}' <= c && c <= '\u{9f}')) {
            kept.push(c);
        }
        i += 1;
    }
    assert(s@.take(n as int) =~= s@);
    let end: usize = if kept.len() > maximum {
        maximum
    } else {
        kept.len()
    };
    assert(kept@.subrange(0, end as int) =~= printable(s@, maximum as int));
    string_range(kept.as_slice(), 0, end)
}

/// `s` cut to so many characters.
pub open spec fn shortened(s: Seq<char>, maximum: int) -> Seq<char> {
    if s.len() > maximum {
        s.take(maximum)
    } else {
        s
    }
}

/// `s` cut to so many characters.
pub fn shorten(s: &str, maximum: usize) -> (r: String)
    ensures
        r@ == shortened(s@, maximum as int),
{
    let cs = chars_of(s);
    let end: usize = if cs.len() > maximum {
        maximum
    } else {
        cs.len()
    };
    assert(cs@.subrange(0, end as int) =~= shortened(s@, maximum as int));
    string_range(cs.as_slice(), 0, end)
}

// ---------------------------------------------------------------------------------------------
// Laws.

/// A number in decimal reads back as the number.
pub proof fn law_decimal_reads_back(n: nat)
    ensures
        decimal(n).len() > 0,
        all_digits(decimal(n)),
        parsed(decimal(n)) == Some(n),
    decreases n,
{
    let s = decimal(n);
    if n >= 10 {
        law_decimal_reads_back(n / 10);
        assert(s.drop_last() =~= decimal(n / 10));
        assert forall|i: int| 0 <= i < s.len() implies is_digit(#[trigger] s[i]) by {
            if i < s.len() - 1 {
                assert(s[i] == decimal(n / 10)[i]);
            }
        }
        assert(digits_value(decimal(n / 10)) == n / 10) by {
            assert(is_digit(decimal(n / 10)[0]));
        }
    } else {
        assert(s.drop_last() =~= Seq::<char>::empty());
        assert(digits_value(s.drop_last()) == 0);
    }
    assert(s.last() == digit((n % 10) as int));
    assert(s.last() as u32 - '0' as u32 == n % 10);
    assert(digits_value(s) == digits_value(s.drop_last()) * 10 + n % 10);
    assert(is_digit(s[0]));
}

/// Text begins with another exactly where it is that text and a rest, and ends with another exactly
/// where it is a rest and that text; what is left without it is that rest.
pub proof fn law_prefixes_and_suffixes(p: Seq<char>, rest: Seq<char>, s: Seq<char>)
    ensures
        begins(p + rest, p),
        ends(rest + p, p),
        without_prefix(p + rest, p) == Some(rest),
        without_suffix(rest + p, p) == Some(rest),
        begins(s, p) ==> s == p + without_prefix(s, p)->0,
        ends(s, p) ==> s == without_suffix(s, p)->0 + p,
        !begins(s, p) ==> s != p + rest && without_prefix(s, p) is None,
        !ends(s, p) ==> s != rest + p && without_suffix(s, p) is None,
        contains(rest + p + s, p),
{
    let a = p + rest;
    let b = rest + p;
    assert(a.subrange(0, p.len() as int) =~= p);
    assert(a.skip(p.len() as int) =~= rest);
    assert(b.subrange(rest.len() as int, b.len() as int) =~= p);
    assert(b.take(rest.len() as int) =~= rest);
    if begins(s, p) {
        assert(s =~= p + s.skip(p.len() as int)) by {
            assert(s.subrange(0, p.len() as int) =~= p);
            assert forall|k: int| 0 <= k < p.len() implies s[k] == p[k] by {
                assert(s.subrange(0, p.len() as int)[k] == s[k]);
            }
        }
    }
    if ends(s, p) {
        let n = s.len() - p.len();
        assert(s =~= s.take(n) + p) by {
            assert forall|k: int| 0 <= k < p.len() implies s[n + k] == p[k] by {
                assert(s.subrange(n, n + p.len())[k] == s[n + k]);
            }
        }
    }
    let c = rest + p + s;
    assert(c.subrange(rest.len() as int, (rest.len() + p.len()) as int) =~= p);
    assert(occurs_at(c, p, rest.len() as int));
}

/// Text is cut at its first or at its last separator: the two sides and the separator between them
/// are the text, and the side towards which was looked has no separator.
pub proof fn law_text_is_cut_at_a_separator(s: Seq<char>, c: char)
    ensures
        match split_first(s, c) {
            Some((a, b)) => s == a.push(c) + b && !a.contains(c),
            None => !s.contains(c),
        },
        match split_last(s, c) {
            Some((a, b)) => s == a.push(c) + b && !b.contains(c),
            None => !s.contains(c),
        },
{
    lemma_index_of(s, c);
    let i = index_of(s, c);
    if i < s.len() {
        assert(s =~= s.take(i).push(c) + s.skip(i + 1));
        assert forall|k: int| 0 <= k < i implies s.take(i)[k] != c by {}
    }
    lemma_after_last(s, c);
    let j = after_last(s, c);
    if j > 0 {
        assert(s =~= s.take(j - 1).push(c) + s.skip(j));
        assert forall|k: int| 0 <= k < s.len() - j implies s.skip(j)[k] != c by {
            assert(s[j + k] != c);
        }
    } else {
        assert forall|k: int| 0 <= k < s.len() implies s[k] != c by {}
    }
}

proof fn lemma_after_last(s: Seq<char>, c: char)
    ensures
        0 <= after_last(s, c) <= s.len(),
        after_last(s, c) > 0 ==> s[after_last(s, c) - 1] == c,
        forall|k: int| after_last(s, c) <= k < s.len() ==> s[k] != c,
    decreases s.len(),
{
    if s.len() > 0 && s.last() != c {
        lemma_after_last(s.drop_last(), c);
        assert forall|k: int| after_last(s, c) <= k < s.len() implies s[k] != c by {
            if k < s.len() - 1 {
                assert(s.drop_last()[k] == s[k]);
            }
        }
    }
}

/// The pieces between separators hold none, and joined by the separator they are the text again.
pub proof fn law_pieces_join_back(s: Seq<char>, c: char)
    ensures
        split_on(s, c).len() > 0,
        join_with(split_on(s, c), seq![c]) == s,
        forall|i: int| 0 <= i < split_on(s, c).len() ==> !(#[trigger] split_on(s, c)[i]).contains(c),
    decreases s.len(),
{
    lemma_index_of(s, c);
    let i = index_of(s, c);
    let all = split_on(s, c);
    if i < s.len() {
        let rest = s.skip(i + 1);
        law_pieces_join_back(rest, c);
        let pieces = split_on(rest, c);
        lemma_join_first(s.take(i), pieces, seq![c]);
        assert(s =~= s.take(i) + seq![c] + rest);
        assert forall|k: int| 0 <= k < all.len() implies !(#[trigger] all[k]).contains(c) by {
            if k == 0 {
                assert forall|m: int| 0 <= m < i implies s.take(i)[m] != c by {}
            } else {
                assert(all[k] == pieces[k - 1]);
            }
        }
    } else {
        assert(all[0] == s);
    }
}

proof fn lemma_join_first(first: Seq<char>, rest: Seq<Seq<char>>, sep: Seq<char>)
    requires
        rest.len() > 0,
    ensures
        join_with(seq![first] + rest, sep) == first + sep + join_with(rest, sep),
    decreases rest.len(),
{
    let all = seq![first] + rest;
    if rest.len() == 1 {
        assert(all.drop_last() =~= seq![first]);
        assert(join_with(seq![first], sep) == first);
        assert(all.last() == rest[0]);
    } else {
        assert(all.drop_last() =~= seq![first] + rest.drop_last());
        lemma_join_first(first, rest.drop_last(), sep);
        assert(all.last() == rest.last());
        assert(join_with(all, sep) =~= first + sep + join_with(rest, sep));
    }
}

/// Trimming takes white space away from both ends, all of it and nothing else.
pub proof fn law_trimming_takes_white_space(s: Seq<char>)
    ensures
        exists|a: int, b: int|
            0 <= a <= b <= s.len() && trimmed(s) == #[trigger] s.subrange(a, b) && (forall|k: int|
                0 <= k < a || b <= k < s.len() ==> is_space(#[trigger] s[k])),
        trimmed(s).len() > 0 ==> !is_space(trimmed(s)[0]) && !is_space(trimmed(s).last()),
        is_blank(s) <==> forall|k: int| 0 <= k < s.len() ==> is_space(#[trigger] s[k]),
        is_space(' ') && is_space('\t') && is_space('\n') && is_space('\r'),
        forall|c: char| '!' <= c <= '~' ==> !is_space(c),
{
    lemma_left_is_suffix(s);
    let t = left_trimmed(s);
    let a = s.len() - t.len();
    lemma_right_is_prefix(t);
    let r = right_trimmed(t);
    let b = a + r.len();
    assert(s.subrange(a, b) =~= r);
    assert forall|k: int| 0 <= k < a || b <= k < s.len() implies is_space(#[trigger] s[k]) by {
        if k >= b {
            assert(t[k - a] == s[k]);
        }
    }
    lemma_left_trimmed(s);
    if r.len() > 0 {
        assert(r[0] == t[0]);
    }
    if forall|k: int| 0 <= k < s.len() ==> is_space(#[trigger] s[k]) {
        if r.len() > 0 {
            assert(r[0] == s[a]);
        }
    }
    if r.len() == 0 {
        assert forall|k: int| 0 <= k < s.len() implies is_space(#[trigger] s[k]) by {}
    }
}

proof fn lemma_left_is_suffix(s: Seq<char>)
    ensures
        left_trimmed(s).len() <= s.len(),
        left_trimmed(s) == s.skip(s.len() - left_trimmed(s).len()),
        forall|k: int| 0 <= k < s.len() - left_trimmed(s).len() ==> is_space(#[trigger] s[k]),
    decreases s.len(),
{
    if s.len() > 0 && is_space(s[0]) {
        let rest = s.drop_first();
        lemma_left_is_suffix(rest);
        let t = left_trimmed(s);
        assert(s.skip(s.len() - t.len()) =~= rest.skip(rest.len() - t.len()));
        assert forall|k: int| 0 <= k < s.len() - t.len() implies is_space(#[trigger] s[k]) by {
            if k > 0 {
                assert(rest[k - 1] == s[k]);
            }
        }
    } else {
        assert(s.skip(0) =~= s);
    }
}

proof fn lemma_right_is_prefix(s: Seq<char>)
    ensures
        right_trimmed(s).len() <= s.len(),
        right_trimmed(s) == s.take(right_trimmed(s).len() as int),
        right_trimmed(s).len() > 0 ==> !is_space(right_trimmed(s).last()),
        forall|k: int| right_trimmed(s).len() <= k < s.len() ==> is_space(#[trigger] s[k]),
    decreases s.len(),
{
    lemma_right_trimmed(s);
    if s.len() > 0 && is_space(s.last()) {
        let rest = s.drop_last();
        lemma_right_is_prefix(rest);
        assert forall|k: int| right_trimmed(s).len() <= k < s.len() implies is_space(
            #[trigger] s[k],
        ) by {
            if k < rest.len() {
                assert(rest[k] == s[k]);
            }
        }
    }
}

/// Text is read line by line: what stands before a line feed is a line, less one carriage return,
/// and what stands behind it is read on. Text that does not end in a line feed ends in a line.
pub proof fn law_lines_end_at_line_feeds(line: Seq<char>, rest: Seq<char>)
    requires
        !line.contains('\n'),
    ensures
        lines_of(line.push('\n') + rest) == seq![
            if line.len() > 0 && line.last() == '\r' {
                line.drop_last()
            } else {
                line
            },
        ] + lines_of(rest),
        line.len() > 0 ==> lines_of(line) == seq![line],
        lines_of(Seq::empty()) == Seq::<Seq<char>>::empty(),
{
    let s = line.push('\n') + rest;
    let n = line.len() as int;
    assert forall|k: int| 0 <= k < n implies line[k] != '\n' by {
        assert(line.contains(line[k]));
    }
    assert(s[n] == '\n');
    lemma_index_of_unique(s, '\n', n);
    assert(s.take(n) =~= line);
    assert(s.skip(n + 1) =~= rest);
    lemma_index_of_unique(line, '\n', n);
}

/// Text is read word by word: a run without white space is a word, and white space before it does
/// not matter.
pub proof fn law_words_stand_between_white_space(gap: Seq<char>, word: Seq<char>, rest: Seq<char>)
    requires
        forall|k: int| 0 <= k < gap.len() ==> is_space(#[trigger] gap[k]),
        word.len() > 0,
        forall|k: int| 0 <= k < word.len() ==> !is_space(#[trigger] word[k]),
        rest.len() > 0 ==> is_space(rest[0]),
    ensures
        words_of(gap + word + rest) == seq![word] + words_of(rest),
        words_of(gap) == Seq::<Seq<char>>::empty(),
{
    let s = gap + word + rest;
    lemma_gap(gap, word + rest);
    lemma_gap(gap, Seq::empty());
    assert(gap + Seq::<char>::empty() =~= gap);
    assert(s =~= gap + (word + rest));
    let t = word + rest;
    assert(t[0] == word[0]);
    lemma_word(word, rest);
    assert(t.take(word.len() as int) =~= word);
    assert(t.skip(word.len() as int) =~= rest);
}

proof fn lemma_gap(gap: Seq<char>, rest: Seq<char>)
    requires
        forall|k: int| 0 <= k < gap.len() ==> is_space(#[trigger] gap[k]),
    ensures
        left_trimmed(gap + rest) == left_trimmed(rest),
    decreases gap.len(),
{
    let s = gap + rest;
    if gap.len() == 0 {
        assert(s =~= rest);
    } else {
        assert(is_space(gap[0]));
        assert(s.drop_first() =~= gap.drop_first() + rest);
        lemma_gap(gap.drop_first(), rest);
    }
}

proof fn lemma_word(word: Seq<char>, rest: Seq<char>)
    requires
        forall|k: int| 0 <= k < word.len() ==> !is_space(#[trigger] word[k]),
        rest.len() > 0 ==> is_space(rest[0]),
    ensures
        word_length(word + rest) == word.len(),
    decreases word.len(),
{
    let s = word + rest;
    if word.len() == 0 {
        assert(s =~= rest);
    } else {
        assert(!is_space(word[0]));
        assert(s.drop_first() =~= word.drop_first() + rest);
        lemma_word(word.drop_first(), rest);
    }
}

/// Replacing changes nothing in text without an occurrence, and an occurrence with nothing of
/// another before its end becomes the replacement, which is not looked at again.
pub proof fn law_occurrences_are_replaced(
    before: Seq<char>,
    from: Seq<char>,
    to: Seq<char>,
    rest: Seq<char>,
)
    requires
        from.len() > 0,
        forall|i: int| 0 <= i < before.len() ==> !occurs_at(before + from + rest, from, i),
    ensures
        replaced(before + from + rest, from, to) == before + to + replaced(rest, from, to),
        !contains(rest, from) ==> replaced(rest, from, to) == rest,
    decreases before.len(),
{
    let s = before + from + rest;
    if before.len() == 0 {
        assert(s.subrange(0, from.len() as int) =~= from);
        assert(s.skip(from.len() as int) =~= rest);
        assert(before + to + replaced(rest, from, to) =~= to + replaced(rest, from, to));
    } else {
        let shorter = before.drop_first();
        assert(!occurs_at(s, from, 0));
        assert(s.drop_first() =~= shorter + from + rest);
        assert forall|i: int| 0 <= i < shorter.len() implies !occurs_at(
            shorter + from + rest,
            from,
            i,
        ) by {
            let t = shorter + from + rest;
            assert(!occurs_at(s, from, i + 1));
            assert(t.subrange(i, i + from.len()) =~= s.subrange(i + 1, i + 1 + from.len()));
        }
        law_occurrences_are_replaced(shorter, from, to, rest);
        assert(before =~= seq![s[0]] + shorter);
        assert(replaced(s, from, to) =~= before + to + replaced(rest, from, to));
    }
    if !contains(rest, from) {
        lemma_nothing_replaced(rest, from, to);
    }
}

proof fn lemma_nothing_replaced(s: Seq<char>, from: Seq<char>, to: Seq<char>)
    requires
        !contains(s, from),
    ensures
        replaced(s, from, to) == s,
    decreases s.len(),
{
    if s.len() > 0 {
        assert(!occurs_at(s, from, 0));
        let rest = s.drop_first();
        assert(!contains(rest, from)) by {
            if contains(rest, from) {
                let i = choose|i: int| occurs_at(rest, from, i);
                assert(rest.subrange(i, i + from.len()) =~= s.subrange(i + 1, i + 1 + from.len()));
                assert(occurs_at(s, from, i + 1));
            }
        }
        lemma_nothing_replaced(rest, from, to);
        assert(seq![s[0]] + rest =~= s);
    }
}

/// Letters from A to Z become small, each for itself, and every other character stays.
pub proof fn law_only_letters_become_small(s: Seq<char>, i: int)
    requires
        0 <= i < s.len(),
    ensures
        lowered(s).len() == s.len(),
        'A' <= s[i] <= 'Z' ==> lowered(s)[i] as u32 == s[i] as u32 - 'A' as u32 + 'a' as u32,
        !('A' <= s[i] <= 'Z') ==> lowered(s)[i] == s[i],
        lowered(lowered(s)) == lowered(s),
{
    assert forall|k: int| 0 <= k < s.len() implies lowered(lowered(s))[k] == lowered(s)[k] by {
        let c = s[k];
        if 'A' <= c <= 'Z' {
            assert((c as u32 + 32) as char as u32 == c as u32 + 32);
        }
    }
    assert(lowered(lowered(s)) =~= lowered(s));
}

/// A whole number in decimal reads back as the number, with its sign. What is no row of digits behind
/// an optional sign is no number.
pub proof fn law_signed_decimal_reads_back(n: int, s: Seq<char>)
    ensures
        signed_parsed(signed_decimal(n)) == Some(n),
        n >= 0 ==> parsed(seq!['+'] + decimal(n as nat)) == Some(n as nat),
        parsed(s) is Some ==> s.len() > 0 && forall|k: int|
            1 <= k < s.len() ==> '0' <= #[trigger] s[k] <= '9',
        parsed(s) is Some && '0' <= s[0] <= '9' ==> parsed(seq!['0'] + s) == parsed(s),
{
    if n < 0 {
        law_decimal_reads_back((-n) as nat);
        let d = decimal((-n) as nat);
        let t = signed_decimal(n);
        assert(t.drop_first() =~= d);
        assert(is_digit(d[0]));
        assert(parsed(d) == Some(digits_value(d)));
    } else {
        law_decimal_reads_back(n as nat);
        let d = decimal(n as nat);
        assert(is_digit(d[0]));
        assert((seq!['+'] + d).drop_first() =~= d);
        assert(parsed(d) == Some(digits_value(d)));
    }
    if parsed(s) is Some {
        assert forall|k: int| 1 <= k < s.len() implies '0' <= #[trigger] s[k] <= '9' by {
            if s[0] == '+' {
                assert(s.drop_first()[k - 1] == s[k]);
                assert(is_digit(s.drop_first()[k - 1]));
            } else {
                assert(is_digit(s[k]));
            }
        }
        if '0' <= s[0] <= '9' {
            lemma_leading_zero(s);
            let z = seq!['0'] + s;
            assert forall|k: int| 0 <= k < z.len() implies is_digit(#[trigger] z[k]) by {
                if k > 0 {
                    assert(z[k] == s[k - 1]);
                    assert(is_digit(s[k - 1]));
                }
            }
        }
    }
}

proof fn lemma_leading_zero(s: Seq<char>)
    ensures
        digits_value(seq!['0'] + s) == digits_value(s),
    decreases s.len(),
{
    let z = seq!['0'] + s;
    if s.len() == 0 {
        assert(z.drop_last() =~= Seq::<char>::empty());
        assert(digits_value(z.drop_last()) == 0);
        assert(z.last() == '0');
    } else {
        assert(z.drop_last() =~= seq!['0'] + s.drop_last());
        assert(z.last() == s.last());
        lemma_leading_zero(s.drop_last());
    }
}

/// The longest beginning that fits is a beginning, it fits, and no longer one does.
pub proof fn law_the_longest_beginning_fits(s: Seq<char>, maximum: nat, n: int)
    requires
        0 <= n <= s.len(),
    ensures
        begins(s, fitting(s, maximum)),
        byte_len(fitting(s, maximum)) <= maximum || fitting(s, maximum).len() == 0,
        byte_len(s.take(n)) <= maximum ==> n <= fitting(s, maximum).len(),
    decreases s.len(),
{
    if s.len() == 0 || byte_len(s) <= maximum {
        assert(s.subrange(0, s.len() as int) =~= s);
    } else {
        let rest = s.drop_last();
        if n < s.len() {
            assert(rest.take(n) =~= s.take(n));
            law_the_longest_beginning_fits(rest, maximum, n);
        } else {
            assert(s.take(n) =~= s);
            law_the_longest_beginning_fits(rest, maximum, 0);
        }
        let f = fitting(s, maximum);
        assert(s.subrange(0, f.len() as int) =~= rest.subrange(0, f.len() as int));
    }
}

/// Printable text holds no control character, is no longer than it may be, and is what is left of
/// the text without control characters, from its beginning on.
pub proof fn law_printable_text_has_no_controls(s: Seq<char>, maximum: int)
    requires
        maximum >= 0,
    ensures
        printable(s, maximum).len() <= maximum,
        forall|i: int|
            0 <= i < printable(s, maximum).len() ==> ' ' <= #[trigger] printable(s, maximum)[i]
                && printable(s, maximum)[i] != '\u{7f}' && !('\u{80}' <= printable(s, maximum)[i]
                <= '\u{9f}'),
        (forall|i: int| 0 <= i < s.len() ==> ' ' <= #[trigger] s[i] <= '~') && s.len() <= maximum
            ==> printable(s, maximum) == s,
        shortened(s, maximum).len() <= maximum,
        begins(s, shortened(s, maximum)),
        s.len() <= maximum ==> shortened(s, maximum) == s,
        s.len() > maximum ==> shortened(s, maximum).len() == maximum,
{
    let keep = |c: char| !is_control(c);
    let kept = s.filter(keep);
    assert forall|i: int| 0 <= i < printable(s, maximum).len() implies ' ' <= #[trigger] printable(
        s,
        maximum,
    )[i] && printable(s, maximum)[i] != '\u{7f}' && !('\u{80}' <= printable(s, maximum)[i]
        <= '\u{9f}') by {
        assert(printable(s, maximum)[i] == kept[i]);
        s.lemma_filter_pred(keep, i);
        assert(keep(kept[i]));
    }
    if forall|i: int| 0 <= i < s.len() ==> ' ' <= #[trigger] s[i] <= '~' {
        lemma_all_kept(s);
    }
    assert(s.subrange(0, s.len() as int) =~= s);
    if s.len() > maximum {
        assert(s.take(maximum) =~= s.subrange(0, maximum));
    }
}

proof fn lemma_all_kept(s: Seq<char>)
    requires
        forall|i: int| 0 <= i < s.len() ==> ' ' <= #[trigger] s[i] <= '~',
    ensures
        s.filter(|c: char| !is_control(c)) == s,
    decreases s.len(),
{
    reveal(Seq::filter);
    if s.len() > 0 {
        let rest = s.drop_last();
        assert forall|i: int| 0 <= i < rest.len() implies ' ' <= #[trigger] rest[i] <= '~' by {
            assert(rest[i] == s[i]);
        }
        lemma_all_kept(rest);
        assert(' ' <= s[s.len() - 1] <= '~');
        assert(rest.push(s.last()) =~= s);
    }
}

/// The pieces of two texts with a separator between them are the pieces of the one and then those of
/// the other.
pub proof fn law_pieces_of_joined_text(a: Seq<char>, c: char, b: Seq<char>)
    ensures
        split_on(a.push(c) + b, c) == split_on(a, c) + split_on(b, c),
    decreases a.len(),
{
    let s = a.push(c) + b;
    lemma_index_of(a, c);
    let i = index_of(a, c);
    assert(s[a.len() as int] == c);
    assert forall|k: int| 0 <= k < i implies s[k] != c by {
        assert(s[k] == a[k]);
    }
    assert(s[i] == c);
    lemma_index_of_unique(s, c, i);
    assert(s.take(i) =~= a.take(i));
    if i < a.len() {
        let rest = a.skip(i + 1);
        law_pieces_of_joined_text(rest, c, b);
        assert(s.skip(i + 1) =~= rest.push(c) + b);
        assert(split_on(s, c) =~= split_on(a, c) + split_on(b, c));
    } else {
        assert(a.take(i) =~= a);
        assert(s.skip(i + 1) =~= b);
    }
}

/// The order of texts is one: of two texts either both are the same or exactly one comes before the
/// other, and what comes before a text comes before all that follow it.
pub proof fn law_texts_are_ordered(a: Seq<char>, b: Seq<char>, c: Seq<char>)
    ensures
        !precedes(a, a),
        a != b ==> precedes(a, b) != precedes(b, a),
        precedes(a, b) && precedes(b, c) ==> precedes(a, c),
    decreases a.len(),
{
    if a.len() > 0 {
        let rest = a.drop_first();
        law_texts_are_ordered(rest, rest, rest);
        if b.len() > 0 {
            law_texts_are_ordered(rest, b.drop_first(), rest);
            if c.len() > 0 {
                law_texts_are_ordered(rest, b.drop_first(), c.drop_first());
            }
        }
    } else {
        assert(a =~= Seq::empty());
    }
    if b.len() == 0 {
        assert(b =~= Seq::empty());
    }
    if a.len() > 0 && b.len() > 0 && a[0] == b[0] && a.drop_first() == b.drop_first() {
        assert(a =~= seq![a[0]] + a.drop_first());
        assert(b =~= seq![b[0]] + b.drop_first());
    }
}

} // verus!
