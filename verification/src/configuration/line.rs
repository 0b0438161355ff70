//! Setting values in files that hold one value on each line.

use crate::configuration::values::{replacement_for_current, replacement_of, scalar, scalar_text};
use crate::json::{fields_view, Json, JsonView};
use crate::process::{lossy, lossy_text};
use crate::text;
use vstd::prelude::*;

verus! {

/// The text of a file, with line feeds for line ends.
pub open spec fn file_text(bytes: Seq<u8>) -> Seq<char> {
    text::replaced(lossy(bytes), "\r\n"@, "\n"@)
}

/// The lines as the bytes of a file, with a line feed at the end where the file had one.
pub open spec fn finished(lines: Seq<Seq<char>>, trailing_newline: bool) -> Seq<u8> {
    let out = text::join_with(lines, "\n"@);
    vstd::utf8::encode_utf8(
        if trailing_newline && !text::ends(out, "\n"@) {
            out.push('\n')
        } else {
            out
        },
    )
}

/// The lines as the bytes of a file.
pub fn finish_lines(lines: &Vec<String>, trailing_newline: bool) -> (r: Vec<u8>)
    ensures
        r@ == finished(text::views(lines@), trailing_newline),
{
    let mut output = text::join(lines.as_slice(), "\n");
    if trailing_newline && !text::ends_with(output.as_str(), "\n") {
        output.push('\n');
    }
    text::bytes_of(output.as_str())
}

fn read_lines(bytes: &[u8]) -> (r: (Vec<String>, bool))
    ensures
        text::views(r.0@) == text::lines_of(file_text(bytes@)),
        r.1 == text::ends(file_text(bytes@), "\n"@),
{
    proof {
        reveal_strlit("\r\n");
    }
    let content = text::replace(lossy_text(bytes).as_str(), "\r\n", "\n");
    let trailing = text::ends_with(content.as_str(), "\n");
    (text::lines(content.as_str()), trailing)
}

// ---------------------------------------------------------------------------------------------
// Lines found by how they begin.

/// Some line begins with the text.
pub open spec fn any_begins(lines: Seq<Seq<char>>, needle: Seq<char>) -> bool {
    exists|i: int| 0 <= i < lines.len() && text::begins(#[trigger] lines[i], needle)
}

/// Every line that begins with the text is replaced; without such a line the replacement is
/// added.
pub open spec fn file_edit(
    lines: Seq<Seq<char>>,
    needle: Seq<char>,
    replacement: Seq<char>,
) -> Seq<Seq<char>> {
    if any_begins(lines, needle) {
        lines.map_values(
            |line: Seq<char>|
                if text::begins(line, needle) {
                    replacement
                } else {
                    line
                },
        )
    } else {
        lines.push(replacement)
    }
}

/// Every edit in turn.
pub open spec fn file_edits(lines: Seq<Seq<char>>, find: Seq<(Seq<char>, JsonView)>) -> Seq<
    Seq<char>,
>
    decreases find.len(),
{
    if find.len() == 0 {
        lines
    } else {
        file_edit(file_edits(lines, find.drop_last()), find.last().0, scalar(find.last().1))
    }
}

fn edit_file_lines(lines: &mut Vec<String>, needle: &str, replacement: &str)
    ensures
        text::views(final(lines)@) == file_edit(text::views(old(lines)@), needle@, replacement@),
{
    let ghost start = text::views(lines@);
    let mut replaced = false;
    let mut i: usize = 0;
    while i < lines.len()
        invariant
            0 <= i <= lines@.len(),
            lines@.len() == start.len(),
            replaced <==> exists|k: int| 0 <= k < i && text::begins(#[trigger] start[k], needle@),
            forall|k: int|
                0 <= k < i ==> (#[trigger] lines@[k])@ == if text::begins(start[k], needle@) {
                    replacement@
                } else {
                    start[k]
                },
            forall|k: int| i <= k < lines@.len() ==> (#[trigger] lines@[k])@ == start[k],
        decreases lines.len() - i,
    {
        assert(lines@[i as int]@ == start[i as int]);
        if text::starts_with(lines[i].as_str(), needle) {
            lines.set(i, replacement.to_owned());
            replaced = true;
        }
        i += 1;
    }
    if !replaced {
        let ghost before = lines@;
        let added = replacement.to_owned();
        lines.push(added);
        proof {
            text::lemma_views_push(before, added);
            assert(text::views(before) =~= start);
        }
    } else {
        assert(text::views(lines@) =~= file_edit(start, needle@, replacement@));
    }
}

/// A file of which the lines that begin with the given texts are replaced.
pub fn apply_file_parser(bytes: &[u8], find: &Vec<(String, Json)>) -> (r: Vec<u8>)
    ensures
        r@ == finished(
            file_edits(text::lines_of(file_text(bytes@)), fields_view(find@)),
            text::ends(file_text(bytes@), "\n"@),
        ),
{
    let (mut lines, trailing) = read_lines(bytes);
    let ghost all = fields_view(find@);
    let ghost start = text::views(lines@);
    let mut i: usize = 0;
    assert(all.take(0) =~= Seq::<(Seq<char>, JsonView)>::empty());
    while i < find.len()
        invariant
            all == fields_view(find@),
            0 <= i <= find@.len(),
            text::views(lines@) == file_edits(start, all.take(i as int)),
        decreases find.len() - i,
    {
        proof {
            assert(all.take(i as int + 1).drop_last() =~= all.take(i as int));
            assert(all.take(i as int + 1).last() == (find@[i as int].0@, find@[i as int].1@));
        }
        let replacement = scalar_text(&find[i].1);
        edit_file_lines(&mut lines, find[i].0.as_str(), replacement.as_str());
        i += 1;
    }
    assert(all.take(all.len() as int) =~= all);
    finish_lines(&lines, trailing)
}

// ---------------------------------------------------------------------------------------------
// Properties.

/// A character between a key and its value.
pub open spec fn is_separator(c: char) -> bool {
    c == '=' || c == ':' || text::is_space(c)
}

fn separator(c: char) -> (r: bool)
    ensures
        r == is_separator(c),
{
    c == '=' || c == ':' || text::space(c)
}

/// The number of characters before the first separator.
pub open spec fn key_length(s: Seq<char>) -> int
    decreases s.len(),
{
    if s.len() == 0 || is_separator(s[0]) {
        0
    } else {
        1 + key_length(s.drop_first())
    }
}

/// What follows the separators at the start.
pub open spec fn behind_separators(s: Seq<char>) -> Seq<char>
    decreases s.len(),
{
    if s.len() > 0 && is_separator(s[0]) {
        behind_separators(s.drop_first())
    } else {
        s
    }
}

/// The key and the value of a line; a blank line and a comment have none.
pub open spec fn property(line: Seq<char>) -> Option<(Seq<char>, Seq<char>)> {
    let t = text::left_trimmed(line);
    if t.len() == 0 || t[0] == '#' || t[0] == '!' {
        None
    } else {
        Some((t.take(key_length(t)), behind_separators(t.skip(key_length(t)))))
    }
}

proof fn lemma_key_length(s: Seq<char>)
    ensures
        0 <= key_length(s) <= s.len(),
    decreases s.len(),
{
    if s.len() > 0 && !is_separator(s[0]) {
        lemma_key_length(s.drop_first());
    }
}

/// The key and the value of a line; a blank line and a comment have none.
pub fn properties_key(line: &str) -> (r: Option<(String, String)>)
    ensures
        text::pair_view(r) == property(line@),
{
    let cs = text::chars_of(line);
    let a = text::skip_space(cs.as_slice(), 0);
    assert(cs@.skip(0) =~= line@);
    if a >= cs.len() || cs[a] == '#' || cs[a] == '!' {
        return None;
    }
    let ghost t = cs@.skip(a as int);
    let mut b: usize = a;
    while b < cs.len() && !separator(cs[b])
        invariant
            a <= b <= cs@.len(),
            t == cs@.skip(a as int),
            key_length(t) == b - a + key_length(cs@.skip(b as int)),
        decreases cs.len() - b,
    {
        assert(cs@.skip(b as int).drop_first() =~= cs@.skip(b as int + 1));
        b += 1;
    }
    let mut c: usize = b;
    assert(t.skip(b - a) =~= cs@.skip(b as int));
    while c < cs.len() && separator(cs[c])
        invariant
            b <= c <= cs@.len(),
            behind_separators(cs@.skip(b as int)) == behind_separators(cs@.skip(c as int)),
        decreases cs.len() - c,
    {
        assert(cs@.skip(c as int).drop_first() =~= cs@.skip(c as int + 1));
        c += 1;
    }
    let key = text::string_range(cs.as_slice(), a, b);
    let value = text::string_range(cs.as_slice(), c, cs.len());
    assert(key@ =~= t.take(b - a));
    assert(value@ =~= cs@.skip(c as int));
    Some((key, value))
}

/// A key and a value as a line.
pub open spec fn entry_line(key: Seq<char>, value: JsonView) -> Seq<char> {
    key + "="@ + scalar(value)
}

fn make_entry(key: &str, value: &Json) -> (r: String)
    ensures
        r@ == entry_line(key@, value@),
{
    let shown = scalar_text(value);
    text::concat3(key, "=", shown.as_str())
}

/// The line has the key.
pub open spec fn has_key(line: Seq<char>, key: Seq<char>) -> bool {
    property(line) is Some && (property(line)->0).0 == key
}

/// Some line has the key.
pub open spec fn any_key(lines: Seq<Seq<char>>, key: Seq<char>) -> bool {
    exists|i: int| 0 <= i < lines.len() && has_key(#[trigger] lines[i], key)
}

/// The line with its value replaced, if it has the key.
pub open spec fn property_line(line: Seq<char>, key: Seq<char>, replacement: JsonView) -> Seq<char> {
    if has_key(line, key) {
        match replacement_of(replacement, text::trimmed((property(line)->0).1)) {
            Some(v) => entry_line(key, v),
            None => line,
        }
    } else {
        line
    }
}

/// Every line with the key gets its value replaced; without such a line the key is added, unless
/// the replacement depends on the current value.
pub open spec fn properties_edit(lines: Seq<Seq<char>>, key: Seq<char>, replacement: JsonView) -> Seq<
    Seq<char>,
> {
    if any_key(lines, key) || replacement is Object {
        lines.map_values(|line: Seq<char>| property_line(line, key, replacement))
    } else {
        lines.push(entry_line(key, replacement))
    }
}

/// Every edit in turn.
pub open spec fn properties_edits(lines: Seq<Seq<char>>, find: Seq<(Seq<char>, JsonView)>) -> Seq<
    Seq<char>,
>
    decreases find.len(),
{
    if find.len() == 0 {
        lines
    } else {
        properties_edit(properties_edits(lines, find.drop_last()), find.last().0, find.last().1)
    }
}

fn edit_properties_lines(lines: &mut Vec<String>, key: &str, replacement: &Json)
    ensures
        text::views(final(lines)@) == properties_edit(
            text::views(old(lines)@),
            key@,
            replacement@,
        ),
{
    let ghost start = text::views(lines@);
    let mut replaced = false;
    let mut i: usize = 0;
    while i < lines.len()
        invariant
            0 <= i <= lines@.len(),
            lines@.len() == start.len(),
            replaced <==> exists|k: int| 0 <= k < i && has_key(#[trigger] start[k], key@),
            forall|k: int|
                0 <= k < i ==> (#[trigger] lines@[k])@ == property_line(
                    start[k],
                    key@,
                    replacement@,
                ),
            forall|k: int| i <= k < lines@.len() ==> (#[trigger] lines@[k])@ == start[k],
        decreases lines.len() - i,
    {
        assert(lines@[i as int]@ == start[i as int]);
        if let Some((line_key, value)) = properties_key(lines[i].as_str()) {
            if text::same(line_key.as_str(), key) {
                let current = text::trim(value.as_str());
                if let Some(new) = replacement_for_current(replacement, current.as_str()) {
                    lines.set(i, make_entry(key, &new));
                }
                replaced = true;
            }
        }
        i += 1;
    }
    if !replaced && !replacement.is_object() {
        let ghost before = lines@;
        let added = make_entry(key, replacement);
        lines.push(added);
        proof {
            text::lemma_views_push(before, added);
            assert(text::views(before) =~= start);
        }
    } else {
        assert(text::views(lines@) =~= properties_edit(start, key@, replacement@));
    }
}

/// A properties file with every value set.
pub fn apply_properties_parser(bytes: &[u8], find: &Vec<(String, Json)>) -> (r: Vec<u8>)
    ensures
        r@ == finished(
            properties_edits(text::lines_of(file_text(bytes@)), fields_view(find@)),
            text::ends(file_text(bytes@), "\n"@),
        ),
{
    let (mut lines, trailing) = read_lines(bytes);
    let ghost all = fields_view(find@);
    let ghost start = text::views(lines@);
    let mut i: usize = 0;
    assert(all.take(0) =~= Seq::<(Seq<char>, JsonView)>::empty());
    while i < find.len()
        invariant
            all == fields_view(find@),
            0 <= i <= find@.len(),
            text::views(lines@) == properties_edits(start, all.take(i as int)),
        decreases find.len() - i,
    {
        proof {
            assert(all.take(i as int + 1).drop_last() =~= all.take(i as int));
            assert(all.take(i as int + 1).last() == (find@[i as int].0@, find@[i as int].1@));
        }
        edit_properties_lines(&mut lines, find[i].0.as_str(), &find[i].1);
        i += 1;
    }
    assert(all.take(all.len() as int) =~= all);
    finish_lines(&lines, trailing)
}

// ---------------------------------------------------------------------------------------------
// Sections.

/// A line that opens a section.
pub open spec fn is_header(line: Seq<char>) -> bool {
    let t = text::trimmed(line);
    t.len() >= 2 && t[0] == '[' && t.last() == ']'
}

/// The section that a header opens.
pub open spec fn header_name(line: Seq<char>) -> Seq<char> {
    let t = text::trimmed(line);
    t.subrange(1, t.len() - 1)
}

/// The section that a header opens; none for another line.
fn section_name(line: &str) -> (r: Option<String>)
    ensures
        text::opt_view(r) == if is_header(line@) {
            Some(header_name(line@))
        } else {
            None
        },
{
    let t = text::trim(line);
    let cs = text::chars_of(t.as_str());
    let n = cs.len();
    if n >= 2 && cs[0] == '[' && cs[n - 1] == ']' {
        Some(text::string_range(cs.as_slice(), 1, n - 1))
    } else {
        None
    }
}

/// The section that a line stands in: what the last header before it opened, or none.
pub open spec fn section_at(lines: Seq<Seq<char>>, i: int) -> Seq<char>
    decreases i,
{
    if i <= 0 {
        Seq::empty()
    } else if is_header(lines[i - 1]) {
        header_name(lines[i - 1])
    } else {
        section_at(lines, i - 1)
    }
}

/// The number of characters before the first equals sign or colon.
pub open spec fn assignment_at(s: Seq<char>) -> int
    decreases s.len(),
{
    if s.len() == 0 || s[0] == '=' || s[0] == ':' {
        0
    } else {
        1 + assignment_at(s.drop_first())
    }
}

/// The two sides of the first equals sign or colon of a line, without the white space around the
/// line.
pub open spec fn assignment(line: Seq<char>) -> Option<(Seq<char>, Seq<char>)> {
    let t = text::trimmed(line);
    let i = assignment_at(t);
    if i < t.len() {
        Some((t.take(i), t.skip(i + 1)))
    } else {
        None
    }
}

fn split_assignment(line: &str) -> (r: Option<(String, String)>)
    ensures
        text::pair_view(r) == assignment(line@),
{
    let t = text::trim(line);
    let cs = text::chars_of(t.as_str());
    let mut i: usize = 0;
    assert(cs@.skip(0) =~= cs@);
    while i < cs.len() && cs[i] != '=' && cs[i] != ':'
        invariant
            0 <= i <= cs@.len(),
            assignment_at(cs@) == i + assignment_at(cs@.skip(i as int)),
        decreases cs.len() - i,
    {
        assert(cs@.skip(i as int).drop_first() =~= cs@.skip(i as int + 1));
        i += 1;
    }
    if i < cs.len() {
        let a = text::string_range(cs.as_slice(), 0, i);
        let b = text::string_range(cs.as_slice(), i + 1, cs.len());
        assert(a@ =~= cs@.take(i as int));
        assert(b@ =~= cs@.skip(i as int + 1));
        Some((a, b))
    } else {
        None
    }
}

/// The line sets the key in the section.
pub open spec fn sets_key(lines: Seq<Seq<char>>, i: int, section: Seq<char>, key: Seq<char>) -> bool {
    &&& !is_header(lines[i])
    &&& section_at(lines, i) == section
    &&& assignment(lines[i]) is Some
    &&& text::trimmed((assignment(lines[i])->0).0) == key
}

/// Some line sets the key in the section.
pub open spec fn any_sets(lines: Seq<Seq<char>>, section: Seq<char>, key: Seq<char>) -> bool {
    exists|i: int| 0 <= i < lines.len() && #[trigger] sets_key(lines, i, section, key)
}

/// The line with its value replaced, if it sets the key in the section.
pub open spec fn ini_line(
    lines: Seq<Seq<char>>,
    i: int,
    section: Seq<char>,
    key: Seq<char>,
    replacement: JsonView,
) -> Seq<char> {
    if sets_key(lines, i, section, key) {
        match replacement_of(replacement, text::trimmed((assignment(lines[i])->0).1)) {
            Some(v) => entry_line(key, v),
            None => lines[i],
        }
    } else {
        lines[i]
    }
}

/// The first header from a line on, or the end.
pub open spec fn next_header(lines: Seq<Seq<char>>, from: int) -> int
    decreases lines.len() - from,
{
    if from >= lines.len() || is_header(lines[from]) {
        from
    } else {
        next_header(lines, from + 1)
    }
}

/// The first line that is, but for white space around it, the given text; or the end.
pub open spec fn line_reading(lines: Seq<Seq<char>>, wanted: Seq<char>, from: int) -> int
    decreases lines.len() - from,
{
    if from >= lines.len() || text::trimmed(lines[from]) == wanted {
        from
    } else {
        line_reading(lines, wanted, from + 1)
    }
}

/// The lines with an entry added at the end of its section; the section is added where there is
/// none.
pub open spec fn ini_added(lines: Seq<Seq<char>>, section: Seq<char>, entry: Seq<char>) -> Seq<
    Seq<char>,
> {
    let header = "["@ + section + "]"@;
    let start = line_reading(lines, header, 0);
    if section.len() == 0 {
        lines.insert(next_header(lines, 0), entry)
    } else if start < lines.len() {
        lines.insert(next_header(lines, start + 1), entry)
    } else if lines.len() > 0 && lines.last().len() > 0 {
        lines.push(Seq::empty()).push(header).push(entry)
    } else {
        lines.push(header).push(entry)
    }
}

/// The section and the key that a path names.
pub open spec fn ini_place(path: Seq<char>) -> (Seq<char>, Seq<char>) {
    match text::split_first(path, '.') {
        Some(p) => p,
        None => (Seq::empty(), path),
    }
}

/// Every line that sets the key gets its value replaced; without such a line the key is added to
/// its section, unless the replacement depends on the current value.
pub open spec fn ini_edit(lines: Seq<Seq<char>>, path: Seq<char>, replacement: JsonView) -> Seq<
    Seq<char>,
> {
    let (section, key) = ini_place(path);
    if any_sets(lines, section, key) || replacement is Object {
        Seq::new(lines.len(), |i: int| ini_line(lines, i, section, key, replacement))
    } else {
        ini_added(lines, section, entry_line(key, replacement))
    }
}

/// Every edit in turn.
pub open spec fn ini_edits(lines: Seq<Seq<char>>, find: Seq<(Seq<char>, JsonView)>) -> Seq<
    Seq<char>,
>
    decreases find.len(),
{
    if find.len() == 0 {
        lines
    } else {
        ini_edit(ini_edits(lines, find.drop_last()), find.last().0, find.last().1)
    }
}

fn find_header(lines: &Vec<String>, from: usize) -> (r: usize)
    requires
        from <= lines@.len(),
    ensures
        r == next_header(text::views(lines@), from as int),
        from <= r <= lines@.len(),
{
    let ghost all = text::views(lines@);
    let mut i: usize = from;
    while i < lines.len()
        invariant
            all == text::views(lines@),
            from <= i <= lines@.len(),
            next_header(all, from as int) == next_header(all, i as int),
        decreases lines.len() - i,
    {
        assert(all[i as int] == lines@[i as int]@);
        if section_name(lines[i].as_str()).is_some() {
            return i;
        }
        i += 1;
    }
    i
}

fn find_line(lines: &Vec<String>, wanted: &str) -> (r: usize)
    ensures
        r == line_reading(text::views(lines@), wanted@, 0),
        r <= lines@.len(),
{
    let ghost all = text::views(lines@);
    let mut i: usize = 0;
    while i < lines.len()
        invariant
            all == text::views(lines@),
            0 <= i <= lines@.len(),
            line_reading(all, wanted@, 0) == line_reading(all, wanted@, i as int),
        decreases lines.len() - i,
    {
        assert(all[i as int] == lines@[i as int]@);
        let line = text::trim(lines[i].as_str());
        if text::same(line.as_str(), wanted) {
            return i;
        }
        i += 1;
    }
    i
}

fn push_line(lines: &mut Vec<String>, line: String)
    ensures
        text::views(final(lines)@) == text::views(old(lines)@).push(line@),
{
    lines.push(line);
    proof {
        text::lemma_views_push(old(lines)@, line);
    }
}

fn insert_line(lines: &mut Vec<String>, at: usize, line: String)
    requires
        at <= old(lines)@.len(),
    ensures
        text::views(final(lines)@) == text::views(old(lines)@).insert(at as int, line@),
{
    lines.insert(at, line);
    assert(text::views(lines@) =~= text::views(old(lines)@).insert(at as int, line@));
}

fn add_ini_entry(lines: &mut Vec<String>, section: &str, entry: String)
    ensures
        text::views(final(lines)@) == ini_added(text::views(old(lines)@), section@, entry@),
{
    if text::is_empty(section) {
        let at = find_header(lines, 0);
        insert_line(lines, at, entry);
        return ;
    }
    let header = text::concat3("[", section, "]");
    let start = find_line(lines, header.as_str());
    if start < lines.len() {
        let at = find_header(lines, start + 1);
        insert_line(lines, at, entry);
    } else {
        let n = lines.len();
        if n > 0 && !text::is_empty(lines[n - 1].as_str()) {
            assert(text::views(lines@).last() == lines@[n - 1]@);
            let empty = String::new();
            assert(empty@ =~= Seq::<char>::empty());
            push_line(lines, empty);
        } else if n > 0 {
            assert(text::views(lines@).last() == lines@[n - 1]@);
        }
        push_line(lines, header);
        push_line(lines, entry);
    }
}

fn edit_ini_lines(lines: &mut Vec<String>, path: &str, replacement: &Json)
    ensures
        text::views(final(lines)@) == ini_edit(text::views(old(lines)@), path@, replacement@),
{
    let (wanted_section, wanted_key) = match text::split_once(path, '.') {
        Some(p) => p,
        None => {
            let none = String::new();
            assert(none@ =~= Seq::<char>::empty());
            (none, path.to_owned())
        },
    };
    let ghost place = ini_place(path@);
    let ghost start = text::views(lines@);
    assert(place == (wanted_section@, wanted_key@));
    let mut section = String::new();
    assert(section@ =~= Seq::<char>::empty());
    let mut replaced = false;
    let mut i: usize = 0;
    while i < lines.len()
        invariant
            0 <= i <= lines@.len(),
            lines@.len() == start.len(),
            place == (wanted_section@, wanted_key@),
            section@ == section_at(start, i as int),
            replaced <==> exists|k: int|
                0 <= k < i && #[trigger] sets_key(start, k, place.0, place.1),
            forall|k: int|
                0 <= k < i ==> (#[trigger] lines@[k])@ == ini_line(
                    start,
                    k,
                    place.0,
                    place.1,
                    replacement@,
                ),
            forall|k: int| i <= k < lines@.len() ==> (#[trigger] lines@[k])@ == start[k],
        decreases lines.len() - i,
    {
        assert(lines@[i as int]@ == start[i as int]);
        let ghost before = lines@;
        match section_name(lines[i].as_str()) {
            Some(name) => {
                section = name;
            },
            None => {
                if text::same(section.as_str(), wanted_section.as_str()) {
                    if let Some((key, current)) = split_assignment(lines[i].as_str()) {
                        let key = text::trim(key.as_str());
                        if text::same(key.as_str(), wanted_key.as_str()) {
                            assert(sets_key(start, i as int, place.0, place.1));
                            let current = text::trim(current.as_str());
                            if let Some(new) = replacement_for_current(
                                replacement,
                                current.as_str(),
                            ) {
                                lines.set(i, make_entry(wanted_key.as_str(), &new));
                            }
                            replaced = true;
                        }
                    }
                }
            },
        }
        assert(lines@[i as int]@ == ini_line(start, i as int, place.0, place.1, replacement@));
        i += 1;
    }
    if !replaced && !replacement.is_object() {
        assert(text::views(lines@) =~= start) by {
            assert forall|k: int| 0 <= k < start.len() implies lines@[k]@ == start[k] by {
                assert(!sets_key(start, k, place.0, place.1));
            }
        }
        let entry = make_entry(wanted_key.as_str(), replacement);
        add_ini_entry(lines, wanted_section.as_str(), entry);
    } else {
        assert(text::views(lines@) =~= ini_edit(start, path@, replacement@));
    }
}

/// An INI file with every value set.
pub fn apply_ini_parser(bytes: &[u8], find: &Vec<(String, Json)>) -> (r: Vec<u8>)
    ensures
        r@ == finished(
            ini_edits(text::lines_of(file_text(bytes@)), fields_view(find@)),
            text::ends(file_text(bytes@), "\n"@),
        ),
{
    let (mut lines, trailing) = read_lines(bytes);
    let ghost all = fields_view(find@);
    let ghost start = text::views(lines@);
    let mut i: usize = 0;
    assert(all.take(0) =~= Seq::<(Seq<char>, JsonView)>::empty());
    while i < find.len()
        invariant
            all == fields_view(find@),
            0 <= i <= find@.len(),
            text::views(lines@) == ini_edits(start, all.take(i as int)),
        decreases find.len() - i,
    {
        proof {
            assert(all.take(i as int + 1).drop_last() =~= all.take(i as int));
            assert(all.take(i as int + 1).last() == (find@[i as int].0@, find@[i as int].1@));
        }
        edit_ini_lines(&mut lines, find[i].0.as_str(), &find[i].1);
        i += 1;
    }
    assert(all.take(all.len() as int) =~= all);
    finish_lines(&lines, trailing)
}

// ---------------------------------------------------------------------------------------------
// Laws.

/// Setting a key in a properties file leaves every line without that key as it was, in its place.
pub proof fn law_properties_leave_other_lines(
    lines: Seq<Seq<char>>,
    key: Seq<char>,
    replacement: JsonView,
    i: int,
)
    requires
        0 <= i < lines.len(),
        !has_key(lines[i], key),
    ensures
        i < properties_edit(lines, key, replacement).len(),
        properties_edit(lines, key, replacement)[i] == lines[i],
{
}

/// Setting a value that the file already assigns in an INI file keeps the number of lines, every
/// header and every line that does not set the key in its section.
pub proof fn law_ini_leaves_other_lines(
    lines: Seq<Seq<char>>,
    path: Seq<char>,
    replacement: JsonView,
    i: int,
)
    requires
        any_sets(lines, ini_place(path).0, ini_place(path).1),
        0 <= i < lines.len(),
        !sets_key(lines, i, ini_place(path).0, ini_place(path).1),
    ensures
        ini_edit(lines, path, replacement).len() == lines.len(),
        ini_edit(lines, path, replacement)[i] == lines[i],
{
}

/// A key that can stand before an equals sign and be read again.
pub open spec fn is_plain_key(key: Seq<char>) -> bool {
    &&& text::trimmed(key) == key
    &&& !key.contains('=')
    &&& !key.contains(':')
    &&& key.len() > 0 ==> key[0] != '['
}

proof fn lemma_assignment_at(s: Seq<char>, i: int)
    requires
        0 <= i < s.len(),
        s[i] == '=' || s[i] == ':',
        forall|k: int| 0 <= k < i ==> s[k] != '=' && s[k] != ':',
    ensures
        assignment_at(s) == i,
    decreases i,
{
    if i > 0 {
        lemma_assignment_at(s.drop_first(), i - 1);
    }
}

proof fn lemma_entry(key: Seq<char>, sign: char, value: Seq<char>)
    requires
        is_plain_key(key),
        sign == '=' || sign == ':',
    ensures
        ({
            let line = key.push(sign) + value;
            &&& !is_header(line)
            &&& assignment(line) is Some
            &&& (assignment(line)->0).0 == key
            &&& text::trimmed((assignment(line)->0).0) == key
            &&& (assignment(line)->0).1 == text::right_trimmed(value)
        }),
{
    let line = key.push(sign) + value;
    let n = key.len() as int;
    text::lemma_trimmed_ends(key);
    assert(line[n] == sign);
    assert(!text::is_space(sign));
    assert(!text::is_space(line[0]));
    assert(text::left_trimmed(line) == line);
    text::lemma_right_trimmed(line);
    text::lemma_right_trimmed_keeps(line, n);
    let t = text::trimmed(line);
    assert forall|k: int| 0 <= k < n implies t[k] != '=' && t[k] != ':' by {
        assert(t[k] == key[k]);
        assert(key.contains(key[k]));
    }
    assert(t[n] == sign);
    lemma_assignment_at(t, n);
    assert(t.take(n) =~= key);
    lemma_trimmed_tail(key.push(sign), value);
    assert(t.skip(n + 1) =~= text::right_trimmed(value));
    assert(t[0] == line[0]);
}

proof fn lemma_trimmed_tail(head: Seq<char>, tail: Seq<char>)
    requires
        head.len() > 0,
        !text::is_space(head.last()),
    ensures
        text::right_trimmed(head + tail) == head + text::right_trimmed(tail),
    decreases tail.len(),
{
    let s = head + tail;
    if tail.len() == 0 {
        assert(s =~= head);
        assert(head + text::right_trimmed(tail) =~= head);
    } else if text::is_space(tail.last()) {
        assert(s.drop_last() =~= head + tail.drop_last());
        lemma_trimmed_tail(head, tail.drop_last());
    }
}

/// A line of a key, an equals sign or a colon, and a value assigns that value to that key, but for
/// white space at the end; and it opens no section.
pub proof fn law_assignments_are_read(key: Seq<char>, value: Seq<char>)
    requires
        is_plain_key(key),
        text::trimmed(value) == value,
    ensures
        assignment(key + "="@ + value) == Some((key, value)),
        assignment(key + ":"@ + value) == Some((key, value)),
        !is_header(key + "="@ + value),
{
    reveal_strlit("=");
    reveal_strlit(":");
    assert(key + "="@ + value =~= key.push('=') + value);
    assert(key + ":"@ + value =~= key.push(':') + value);
    lemma_entry(key, '=', value);
    lemma_entry(key, ':', value);
    text::lemma_trimmed_ends(value);
    if value.len() > 0 {
        assert(text::right_trimmed(value) == value);
    }
}

proof fn lemma_header(section: Seq<char>)
    ensures
        ({
            let h = "["@ + section + "]"@;
            &&& text::trimmed(h) == h
            &&& is_header(h)
            &&& header_name(h) == section
        }),
{
    reveal_strlit("[");
    reveal_strlit("]");
    let h = "["@ + section + "]"@;
    assert(h[0] == '[' && h.last() == ']');
    assert(!text::is_space('[') && !text::is_space(']'));
    assert(text::trimmed(h) == h);
    assert(header_name(h) =~= section);
}

proof fn lemma_section_same(a: Seq<Seq<char>>, b: Seq<Seq<char>>, i: int)
    requires
        0 <= i <= a.len(),
        i <= b.len(),
        forall|k: int|
            0 <= k < i ==> #[trigger] a[k] == b[k] || !is_header(a[k]) && !is_header(b[k]),
    ensures
        section_at(a, i) == section_at(b, i),
    decreases i,
{
    if i > 0 {
        lemma_section_same(a, b, i - 1);
        assert(a[i - 1] == b[i - 1] || !is_header(a[i - 1]) && !is_header(b[i - 1]));
    }
}

proof fn lemma_section_inserted(lines: Seq<Seq<char>>, at: int, entry: Seq<char>, i: int)
    requires
        0 <= at <= i <= lines.len(),
        !is_header(entry),
    ensures
        section_at(lines.insert(at, entry), i + 1) == section_at(lines, i),
    decreases i,
{
    let out = lines.insert(at, entry);
    if i > at {
        lemma_section_inserted(lines, at, entry, i - 1);
        assert(out[i] == lines[i - 1]);
    } else {
        assert(out[i] == entry);
        lemma_section_same(out, lines, i);
    }
}

proof fn lemma_section_of(lines: Seq<Seq<char>>, h: int, i: int)
    requires
        0 <= h < i <= lines.len(),
        is_header(lines[h]),
        forall|k: int| h < k < i ==> !is_header(#[trigger] lines[k]),
    ensures
        section_at(lines, i) == header_name(lines[h]),
    decreases i,
{
    if i - 1 > h {
        assert(!is_header(lines[i - 1]));
        lemma_section_of(lines, h, i - 1);
    }
}

proof fn lemma_no_section(lines: Seq<Seq<char>>, i: int)
    requires
        0 <= i <= lines.len(),
        forall|k: int| 0 <= k < i ==> !is_header(#[trigger] lines[k]),
    ensures
        section_at(lines, i) == Seq::<char>::empty(),
    decreases i,
{
    if i > 0 {
        assert(!is_header(lines[i - 1]));
        lemma_no_section(lines, i - 1);
    }
}

/// A line belongs to the section whose name stands in brackets on the last such line before it, and
/// to none where no line before it is of that kind.
pub proof fn law_lines_belong_to_the_last_header(
    lines: Seq<Seq<char>>,
    section: Seq<char>,
    h: int,
    i: int,
)
    requires
        0 <= i <= lines.len(),
        -1 <= h < i,
        h >= 0 ==> text::trimmed(lines[h]) == "["@ + section + "]"@,
        h < 0 ==> section.len() == 0,
        forall|k: int|
            h < k < i ==> {
                let t = text::trimmed(#[trigger] lines[k]);
                t.len() < 2 || t[0] != '[' || t[t.len() - 1] != ']'
            },
    ensures
        section_at(lines, i) == section,
{
    reveal_strlit("[");
    reveal_strlit("]");
    assert forall|k: int| h < k < i implies !is_header(#[trigger] lines[k]) by {}
    if h < 0 {
        lemma_no_section(lines, i);
        assert(section =~= Seq::<char>::empty());
    } else {
        lemma_header(section);
        let t = text::trimmed(lines[h]);
        assert(is_header(lines[h]));
        assert(header_name(lines[h]) =~= section);
        lemma_section_of(lines, h, i);
    }
}

proof fn lemma_next_header(lines: Seq<Seq<char>>, from: int)
    requires
        0 <= from <= lines.len(),
    ensures
        from <= next_header(lines, from) <= lines.len(),
        forall|k: int| from <= k < next_header(lines, from) ==> !is_header(#[trigger] lines[k]),
    decreases lines.len() - from,
{
    if from < lines.len() && !is_header(lines[from]) {
        lemma_next_header(lines, from + 1);
    }
}

proof fn lemma_line_reading(lines: Seq<Seq<char>>, wanted: Seq<char>, from: int)
    requires
        0 <= from <= lines.len(),
    ensures
        from <= line_reading(lines, wanted, from) <= lines.len(),
        line_reading(lines, wanted, from) < lines.len() ==> text::trimmed(
            lines[line_reading(lines, wanted, from)],
        ) == wanted,
    decreases lines.len() - from,
{
    if from < lines.len() && text::trimmed(lines[from]) != wanted {
        lemma_line_reading(lines, wanted, from + 1);
    }
}

/// What was there before is still there, in its order and in its section: `n` lines were put in at
/// one place. Only lines that set the key may read otherwise.
pub open spec fn keeps_lines(
    lines: Seq<Seq<char>>,
    out: Seq<Seq<char>>,
    at: int,
    n: int,
    section: Seq<char>,
    key: Seq<char>,
) -> bool {
    &&& 0 <= at <= lines.len()
    &&& out.len() == lines.len() + n
    &&& forall|i: int|
        0 <= i < at ==> (#[trigger] out[i] == lines[i] || sets_key(lines, i, section, key))
            && section_at(out, i) == section_at(lines, i)
    &&& forall|i: int|
        at <= i < lines.len() ==> (#[trigger] out[i + n] == lines[i] || sets_key(
            lines,
            i,
            section,
            key,
        )) && section_at(out, i + n) == section_at(lines, i)
}

/// Where the added entry of `ini_added` stands, and that nothing else changes.
proof fn lemma_ini_added(lines: Seq<Seq<char>>, section: Seq<char>, key: Seq<char>, entry: Seq<char>)
    requires
        !is_header(entry),
        assignment(entry) is Some,
        text::trimmed((assignment(entry)->0).0) == key,
        !any_sets(lines, section, key),
    ensures
        ({
            let out = ini_added(lines, section, entry);
            &&& exists|i: int|
                0 <= i < out.len() && #[trigger] sets_key(out, i, section, key) && out[i] == entry
            &&& forall|i: int|
                0 <= i < out.len() && #[trigger] sets_key(out, i, section, key) ==> out[i] == entry
            &&& exists|at: int, n: int|
                0 < n <= 3 && #[trigger] keeps_lines(lines, out, at, n, section, key)
        }),
{
    let header = "["@ + section + "]"@;
    let start = line_reading(lines, header, 0);
    let out = ini_added(lines, section, entry);
    lemma_header(section);
    lemma_line_reading(lines, header, 0);
    if section.len() == 0 || start < lines.len() {
        let from = if section.len() == 0 {
            0
        } else {
            start + 1
        };
        let at = next_header(lines, from);
        lemma_next_header(lines, from);
        assert(out == lines.insert(at, entry));
        lemma_section_same(out, lines, at);
        if section.len() == 0 {
            lemma_no_section(lines, at);
            assert(section =~= Seq::<char>::empty());
        } else {
            assert(is_header(lines[start]));
            assert(header_name(lines[start]) == section);
            lemma_section_of(lines, start, at);
        }
        assert(section_at(out, at) == section);
        assert(out[at] == entry);
        assert(sets_key(out, at, section, key));
        assert forall|i: int|
            0 <= i < at implies #[trigger] out[i] == lines[i] && section_at(out, i) == section_at(
            lines,
            i,
        ) by {
            lemma_section_same(out, lines, i);
        }
        assert forall|i: int|
            at <= i < lines.len() implies #[trigger] out[i + 1] == lines[i] && section_at(
            out,
            i + 1,
        ) == section_at(lines, i) by {
            lemma_section_inserted(lines, at, entry, i);
        }
        assert(keeps_lines(lines, out, at, 1, section, key));
        assert forall|i: int|
            0 <= i < out.len() && #[trigger] sets_key(out, i, section, key) implies out[i]
            == entry by {
            if i < at {
                assert(sets_key(lines, i, section, key));
            } else if i > at {
                assert(out[i - 1 + 1] == lines[i - 1]);
                assert(sets_key(lines, i - 1, section, key));
            }
        }
    } else {
        let n = lines.len() as int;
        let m = out.len() as int;
        assert(out[m - 1] == entry && out[m - 2] == header);
        lemma_section_of(out, m - 2, m - 1);
        assert(sets_key(out, m - 1, section, key));
        assert forall|i: int|
            0 <= i < n implies #[trigger] out[i] == lines[i] && section_at(out, i) == section_at(
            lines,
            i,
        ) by {
            lemma_section_same(out, lines, i);
        }
        assert(keeps_lines(lines, out, n, m - n, section, key));
        let blank = Seq::<char>::empty();
        assert forall|i: int|
            0 <= i < out.len() && #[trigger] sets_key(out, i, section, key) implies out[i]
            == entry by {
            if i < n {
                assert(sets_key(lines, i, section, key));
            } else if i == n && m == n + 3 {
                assert(out[i] == blank);
                assert(text::trimmed(blank).len() == 0);
            }
        }
    }
}

/// A path of a section and a key, with a dot between them, names these; one without a dot names a key
/// outside of all sections.
pub proof fn law_ini_paths_name_a_section(section: Seq<char>, key: Seq<char>)
    requires
        !section.contains('.'),
    ensures
        ini_place(section + "."@ + key) == (section, key),
        ini_place(section) == (Seq::<char>::empty(), section),
{
    reveal_strlit(".");
    let path = section + "."@ + key;
    let n = section.len() as int;
    assert forall|k: int| 0 <= k < n implies section[k] != '.' by {
        assert(section.contains(section[k]));
    }
    assert(path[n] == '.');
    text::lemma_index_of_unique(path, '.', n);
    assert(path.take(n) =~= section);
    assert(path.skip(n + 1) =~= key);
    text::lemma_index_of_unique(section, '.', n);
}

/// What is set in an INI file is found there. After a value that does not depend on the current one
/// was set, some line sets the key in its section, every line that does reads the key, an equals
/// sign and the value, and every other line is still there, in its order and in its section. Setting
/// it once more changes nothing.
pub proof fn law_ini_values_are_set(
    lines: Seq<Seq<char>>,
    path: Seq<char>,
    replacement: JsonView,
    section: Seq<char>,
    key: Seq<char>,
)
    requires
        path == section + "."@ + key && !section.contains('.') || path == key && section.len() == 0
            && !key.contains('.'),
        is_plain_key(key),
        !(replacement is Object),
    ensures
        ({
            let out = ini_edit(lines, path, replacement);
            &&& exists|i: int| 0 <= i < out.len() && #[trigger] sets_key(out, i, section, key)
            &&& forall|i: int|
                0 <= i < out.len() && #[trigger] sets_key(out, i, section, key) ==> out[i] == key
                    + "="@ + scalar(replacement)
            &&& exists|at: int, n: int|
                0 <= n <= 3 && #[trigger] keeps_lines(lines, out, at, n, section, key)
            &&& ini_edit(out, path, replacement) == out
        }),
{
    if path == section + "."@ + key && !section.contains('.') {
        law_ini_paths_name_a_section(section, key);
    } else {
        law_ini_paths_name_a_section(key, key);
        assert(section =~= Seq::<char>::empty());
    }
    let value = scalar(replacement);
    let entry = key + "="@ + value;
    reveal_strlit("=");
    assert(entry =~= key.push('=') + value);
    lemma_entry(key, '=', value);
    let out = ini_edit(lines, path, replacement);
    if any_sets(lines, section, key) {
        assert forall|i: int| 0 <= i < lines.len() implies section_at(out, i) == section_at(
            lines,
            i,
        ) && (#[trigger] out[i] == lines[i] || sets_key(lines, i, section, key) && out[i]
            == entry) by {
            assert forall|k: int| 0 <= k < i implies #[trigger] out[k] == lines[k] || !is_header(
                out[k],
            ) && !is_header(lines[k]) by {}
            lemma_section_same(out, lines, i);
        }
        let j = choose|j: int|
            0 <= j < lines.len() && #[trigger] sets_key(lines, j, section, key);
        assert(out[j] == entry);
        assert(sets_key(out, j, section, key));
        assert forall|i: int|
            0 <= i < out.len() && #[trigger] sets_key(out, i, section, key) implies out[i]
            == entry by {
            if out[i] == lines[i] {
                assert(sets_key(lines, i, section, key));
            }
        }
        assert(keeps_lines(lines, out, lines.len() as int, 0, section, key));
    } else {
        lemma_ini_added(lines, section, key, entry);
        assert(out == ini_added(lines, section, entry));
        let j = choose|j: int|
            0 <= j < out.len() && #[trigger] sets_key(out, j, section, key) && out[j] == entry;
        assert(sets_key(out, j, section, key));
        let (at, n) = choose|at: int, n: int|
            0 < n <= 3 && #[trigger] keeps_lines(lines, out, at, n, section, key);
        assert(keeps_lines(lines, out, at, n, section, key));
    }
    assert(any_sets(out, section, key));
    assert forall|i: int| 0 <= i < out.len() implies ini_line(out, i, section, key, replacement)
        == out[i] by {
        if sets_key(out, i, section, key) {
            assert(out[i] == entry);
        }
    }
    assert(ini_edit(out, path, replacement) =~= out);
}

/// A value that depends on the current one adds no line, and changes a line exactly where the line
/// has the key and its current value is one that is named: then it reads the key, an equals sign and
/// the value that is given for it.
pub proof fn law_conditional_values_only_replace(
    lines: Seq<Seq<char>>,
    path: Seq<char>,
    options: Seq<(Seq<char>, JsonView)>,
    i: int,
)
    requires
        0 <= i < lines.len(),
    ensures
        ({
            let key = path;
            let out = properties_edit(lines, key, JsonView::Object(options));
            &&& out.len() == lines.len()
            &&& match property(lines[i]) {
                Some(p) => {
                    let chosen = crate::json::field_in(options, text::trimmed(p.1));
                    if p.0 == key && chosen is Some {
                        out[i] == key + "="@ + scalar(chosen->0)
                    } else {
                        out[i] == lines[i]
                    }
                },
                None => out[i] == lines[i],
            }
        }),
        ({
            let (section, key) = ini_place(path);
            let out = ini_edit(lines, path, JsonView::Object(options));
            let p = assignment(lines[i]);
            &&& out.len() == lines.len()
            &&& if sets_key(lines, i, section, key) && crate::json::field_in(
                options,
                text::trimmed((p->0).1),
            ) is Some {
                out[i] == key + "="@ + scalar(
                    crate::json::field_in(options, text::trimmed((p->0).1))->0,
                )
            } else {
                out[i] == lines[i]
            }
        }),
{
}

proof fn lemma_key_ends(s: Seq<char>, i: int)
    requires
        0 <= i <= s.len(),
        i < s.len() ==> is_separator(s[i]),
        forall|k: int| 0 <= k < i ==> !is_separator(s[k]),
    ensures
        key_length(s) == i,
    decreases i,
{
    if i > 0 {
        lemma_key_ends(s.drop_first(), i - 1);
    }
}

/// A key that can stand in a properties file and be read again.
pub open spec fn is_property_key(key: Seq<char>) -> bool {
    &&& key.len() > 0
    &&& key[0] != '#'
    &&& key[0] != '!'
    &&& forall|k: int| 0 <= k < key.len() ==> !is_separator(#[trigger] key[k])
}

/// A line of a properties file is a key up to an equals sign, a colon or white space, and the value
/// behind all of these. A line that begins with a number sign or an exclamation mark is a comment,
/// and white space before either does not matter.
pub proof fn law_properties_are_read(indent: Seq<char>, key: Seq<char>, value: Seq<char>)
    requires
        is_property_key(key),
        value.len() > 0 ==> !is_separator(value[0]),
        forall|k: int| 0 <= k < indent.len() ==> text::is_space(#[trigger] indent[k]),
    ensures
        property(indent + (key + "="@ + value)) == Some((key, value)),
        property(indent + (key + ": "@ + value)) == Some((key, value)),
        property(indent + (key + " = "@ + value)) == Some((key, value)),
        property(indent + ("#"@ + value)) is None,
        property(indent + ("!"@ + value)) is None,
        property(indent) is None,
{
    reveal_strlit("=");
    reveal_strlit(": ");
    reveal_strlit(" = ");
    reveal_strlit("#");
    reveal_strlit("!");
    assert(text::is_space(' '));
    let none = Seq::<char>::empty();
    lemma_indent(indent, key + "="@ + value);
    lemma_indent(indent, key + ": "@ + value);
    lemma_indent(indent, key + " = "@ + value);
    lemma_indent(indent, "#"@ + value);
    lemma_indent(indent, "!"@ + value);
    lemma_indent(indent, none);
    assert(indent + none =~= indent);
    assert(!text::is_space(key[0])) by {
        assert(!is_separator(key[0]));
    }
    lemma_property(key, "="@, value);
    lemma_property(key, ": "@, value);
    lemma_property(key, " = "@, value);
}

proof fn lemma_indent(indent: Seq<char>, rest: Seq<char>)
    requires
        forall|k: int| 0 <= k < indent.len() ==> text::is_space(#[trigger] indent[k]),
    ensures
        text::left_trimmed(indent + rest) == text::left_trimmed(rest),
    decreases indent.len(),
{
    let s = indent + rest;
    if indent.len() == 0 {
        assert(s =~= rest);
    } else {
        assert(text::is_space(indent[0]));
        assert(s[0] == indent[0]);
        assert(s.drop_first() =~= indent.drop_first() + rest);
        lemma_indent(indent.drop_first(), rest);
    }
}

proof fn lemma_property(key: Seq<char>, sign: Seq<char>, value: Seq<char>)
    requires
        is_property_key(key),
        sign.len() > 0,
        forall|k: int| 0 <= k < sign.len() ==> is_separator(#[trigger] sign[k]),
        value.len() > 0 ==> !is_separator(value[0]),
    ensures
        property(key + sign + value) == Some((key, value)),
{
    let line = key + sign + value;
    let n = key.len() as int;
    assert(!is_separator(key[0]));
    assert(line[0] == key[0]);
    assert(text::left_trimmed(line) == line);
    assert forall|k: int| 0 <= k < n implies !is_separator(line[k]) by {
        assert(line[k] == key[k]);
    }
    assert(line[n] == sign[0]);
    lemma_key_ends(line, n);
    assert(line.take(n) =~= key);
    assert(line.skip(n) =~= sign + value);
    lemma_behind(sign, value);
}

proof fn lemma_behind(sign: Seq<char>, value: Seq<char>)
    requires
        forall|k: int| 0 <= k < sign.len() ==> is_separator(#[trigger] sign[k]),
        value.len() > 0 ==> !is_separator(value[0]),
    ensures
        behind_separators(sign + value) == value,
    decreases sign.len(),
{
    let s = sign + value;
    if sign.len() == 0 {
        assert(s =~= value);
    } else {
        assert(is_separator(sign[0]));
        assert(s.drop_first() =~= sign.drop_first() + value);
        lemma_behind(sign.drop_first(), value);
    }
}

proof fn lemma_property_key(key: Seq<char>, value: Seq<char>)
    requires
        is_property_key(key),
    ensures
        has_key(key + "="@ + value, key),
{
    reveal_strlit("=");
    let line = key + "="@ + value;
    let n = key.len() as int;
    assert(!is_separator(key[0]));
    assert(line[0] == key[0]);
    assert(text::left_trimmed(line) == line);
    assert forall|k: int| 0 <= k < n implies !is_separator(line[k]) by {
        assert(line[k] == key[k]);
    }
    assert(line[n] == '=');
    lemma_key_ends(line, n);
    assert(line.take(n) =~= key);
}

/// What is set in a properties file is found there. After a value that does not depend on the
/// current one was set, some line has the key, every line that does reads the key, an equals sign
/// and the value, and every other line is where it was. At most one line is added, and only where
/// none had the key. Setting it once more changes nothing.
pub proof fn law_properties_are_set(lines: Seq<Seq<char>>, key: Seq<char>, replacement: JsonView)
    requires
        is_property_key(key),
        !(replacement is Object),
    ensures
        ({
            let out = properties_edit(lines, key, replacement);
            &&& exists|i: int| 0 <= i < out.len() && has_key(#[trigger] out[i], key)
            &&& forall|i: int|
                0 <= i < out.len() && has_key(#[trigger] out[i], key) ==> out[i] == key + "="@
                    + scalar(replacement)
            &&& forall|i: int|
                0 <= i < lines.len() && !has_key(#[trigger] lines[i], key) ==> out[i] == lines[i]
            &&& out.len() == lines.len() + (if exists|i: int|
                0 <= i < lines.len() && has_key(#[trigger] lines[i], key) {
                0int
            } else {
                1int
            })
            &&& properties_edit(out, key, replacement) == out
        }),
{
    let value = scalar(replacement);
    let entry = key + "="@ + value;
    let out = properties_edit(lines, key, replacement);
    lemma_property_key(key, value);
    if any_key(lines, key) {
        let j = choose|j: int| 0 <= j < lines.len() && has_key(#[trigger] lines[j], key);
        assert(out[j] == entry);
        assert(has_key(out[j], key));
    } else {
        assert(out[lines.len() as int] == entry);
        assert(has_key(out[lines.len() as int], key));
        assert forall|i: int| 0 <= i < out.len() && has_key(#[trigger] out[i], key) implies out[i]
            == entry by {
            if i < lines.len() {
                assert(out[i] == lines[i]);
            }
        }
    }
    assert(any_key(out, key));
    assert(properties_edit(out, key, replacement) =~= out);
}

/// What is put in place of lines that begin with a text stands in the file afterwards: every line
/// that begins so reads as the replacement, every other is where it was, and one line is added
/// exactly where none began so.
pub proof fn law_found_lines_are_replaced(
    lines: Seq<Seq<char>>,
    needle: Seq<char>,
    replacement: Seq<char>,
)
    ensures
        ({
            let out = file_edit(lines, needle, replacement);
            let found = exists|i: int| 0 <= i < lines.len() && text::begins(
                #[trigger] lines[i],
                needle,
            );
            &&& out.contains(replacement)
            &&& forall|i: int|
                0 <= i < lines.len() ==> #[trigger] out[i] == if text::begins(lines[i], needle) {
                    replacement
                } else {
                    lines[i]
                }
            &&& found ==> out.len() == lines.len()
            &&& !found ==> out.len() == lines.len() + 1 && out.last() == replacement
            &&& text::begins(replacement, needle) ==> file_edit(out, needle, replacement) == out
        }),
{
    let out = file_edit(lines, needle, replacement);
    if any_begins(lines, needle) {
        let j = choose|j: int| 0 <= j < lines.len() && text::begins(#[trigger] lines[j], needle);
        assert(out[j] == replacement);
    } else {
        assert(out[lines.len() as int] == replacement);
        assert forall|i: int| 0 <= i < lines.len() implies #[trigger] out[i] == if text::begins(
            lines[i],
            needle,
        ) {
            replacement
        } else {
            lines[i]
        } by {
            assert(!text::begins(lines[i], needle));
        }
    }
    if text::begins(replacement, needle) {
        let k = choose|k: int| 0 <= k < out.len() && out[k] == replacement;
        assert(text::begins(out[k], needle));
        assert(file_edit(out, needle, replacement) =~= out);
    }
}

/// The values are set one after the other, in the order in which they are given: what comes last is
/// set last, in whatever the others made of the file.
pub proof fn law_edits_follow_each_other(
    lines: Seq<Seq<char>>,
    first: Seq<(Seq<char>, JsonView)>,
    then: Seq<(Seq<char>, JsonView)>,
)
    ensures
        properties_edits(lines, first + then) == properties_edits(
            properties_edits(lines, first),
            then,
        ),
        ini_edits(lines, first + then) == ini_edits(ini_edits(lines, first), then),
        file_edits(lines, first + then) == file_edits(file_edits(lines, first), then),
        first.len() == 1 ==> properties_edits(lines, first) == properties_edit(
            lines,
            first[0].0,
            first[0].1,
        ),
        first.len() == 1 ==> ini_edits(lines, first) == ini_edit(lines, first[0].0, first[0].1),
        first.len() == 1 ==> file_edits(lines, first) == file_edit(
            lines,
            first[0].0,
            scalar(first[0].1),
        ),
        first.len() == 0 ==> properties_edits(lines, first) == lines && ini_edits(lines, first)
            == lines && file_edits(lines, first) == lines,
    decreases then.len(),
{
    let all = first + then;
    if then.len() == 0 {
        assert(all =~= first);
    } else {
        assert(all.drop_last() =~= first + then.drop_last());
        assert(all.last() == then.last());
        law_edits_follow_each_other(lines, first, then.drop_last());
    }
    if first.len() == 1 {
        assert(first.drop_last() =~= Seq::<(Seq<char>, JsonView)>::empty());
        assert(properties_edits(lines, first.drop_last()) == lines);
        assert(ini_edits(lines, first.drop_last()) == lines);
        assert(file_edits(lines, first.drop_last()) == lines);
    }
}

/// Lines that are written are read again as the same lines, and the file ends in a line feed exactly
/// where it did.
pub proof fn law_written_lines_read_back(lines: Seq<Seq<char>>, trailing_newline: bool)
    requires
        lines.len() > 0,
        lines.last().len() > 0,
        forall|i: int|
            0 <= i < lines.len() ==> !(#[trigger] lines[i]).contains('\n') && (lines[i].len() > 0
                ==> lines[i].last() != '\r'),
    ensures
        exists|out: Seq<char>|
            finished(lines, trailing_newline) == #[trigger] vstd::utf8::encode_utf8(out)
                && text::lines_of(out) == lines && text::ends(out, "\n"@) == trailing_newline,
{
    reveal_strlit("\n");
    let joined = text::join_with(lines, "\n"@);
    lemma_joined_lines(lines);
    let last = lines.last();
    assert(last.last() != '\n') by {
        assert(lines[lines.len() - 1] == last);
        if last.last() == '\n' {
            assert(last.contains(last[last.len() - 1]));
        }
    }
    assert(joined.last() == last.last());
    assert(!text::ends(joined, "\n"@)) by {
        if text::ends(joined, "\n"@) {
            assert(joined.subrange(joined.len() - 1, joined.len() as int)[0] == joined.last());
        }
    }
    if trailing_newline {
        let out = joined.push('\n');
        assert(out.subrange(out.len() - 1, out.len() as int) =~= "\n"@);
        assert(finished(lines, trailing_newline) == vstd::utf8::encode_utf8(out));
    } else {
        assert(finished(lines, trailing_newline) == vstd::utf8::encode_utf8(joined));
    }
}

proof fn lemma_joined_lines(lines: Seq<Seq<char>>)
    requires
        lines.len() > 0,
        lines.last().len() > 0,
        forall|i: int|
            0 <= i < lines.len() ==> !(#[trigger] lines[i]).contains('\n') && (lines[i].len() > 0
                ==> lines[i].last() != '\r'),
    ensures
        text::lines_of(text::join_with(lines, "\n"@)) == lines,
        text::lines_of(text::join_with(lines, "\n"@).push('\n')) == lines,
        text::join_with(lines, "\n"@).len() > 0,
        text::join_with(lines, "\n"@).last() == lines.last().last(),
    decreases lines.len(),
{
    reveal_strlit("\n");
    let first = lines[0];
    if lines.len() == 1 {
        text::law_lines_end_at_line_feeds(first, Seq::empty());
        assert(first.push('\n') + Seq::<char>::empty() =~= first.push('\n'));
        assert(seq![first] =~= lines);
        assert(seq![first] + Seq::<Seq<char>>::empty() =~= lines);
    } else {
        let rest = lines.drop_first();
        assert forall|i: int| 0 <= i < rest.len() implies !(#[trigger] rest[i]).contains('\n') && (
        rest[i].len() > 0 ==> rest[i].last() != '\r') by {
            assert(rest[i] == lines[i + 1]);
        }
        lemma_joined_lines(rest);
        let tail = text::join_with(rest, "\n"@);
        lemma_join_from_first(lines);
        let whole = text::join_with(lines, "\n"@);
        assert(whole =~= first.push('\n') + tail);
        text::law_lines_end_at_line_feeds(first, tail);
        text::law_lines_end_at_line_feeds(first, tail.push('\n'));
        assert(whole.push('\n') =~= first.push('\n') + tail.push('\n'));
        assert(seq![first] + rest =~= lines);
    }
}

proof fn lemma_join_from_first(lines: Seq<Seq<char>>)
    requires
        lines.len() > 1,
    ensures
        text::join_with(lines, "\n"@) == lines[0] + "\n"@ + text::join_with(
            lines.drop_first(),
            "\n"@,
        ),
    decreases lines.len(),
{
    let rest = lines.drop_first();
    let sep = "\n"@;
    if lines.len() == 2 {
        assert(lines.drop_last() =~= seq![lines[0]]);
        assert(text::join_with(seq![lines[0]], sep) == lines[0]);
        assert(text::join_with(rest, sep) == lines[1]);
    } else {
        let front = lines.drop_last();
        lemma_join_from_first(front);
        assert(front.drop_first() =~= rest.drop_last());
        assert(text::join_with(lines, sep) =~= lines[0] + sep + text::join_with(rest, sep));
    }
}

} // verus!
