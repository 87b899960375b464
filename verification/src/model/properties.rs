//! Connections from the properties files of Java clients.

use vstd::prelude::*;

use crate::model::profile::{mechanism_name, ConnectionProfile, ProfileView, SaslMechanism, Security, SecurityView};
use crate::path::{extension, extension_of};
use crate::text::{
    all_white, ascii_lowered, ascii_uppered, char_views, chars_of, clone_option, find_from, joined3, lines, lines_from, lines_of, lower_chars,
    occurs_at, option_view, place_from, place_from_is_first, same_text, string_of, trim, trim_chars, trim_start,
    is_white, trim_start_chars, trimming_takes_off_white_space_alone, upper_chars, without_return,
};
use crate::text_map::TextMap;

verus! {

/// Where a connection's trusted certificates come from.
#[derive(Debug, PartialEq, Eq)]
pub enum TrustStore {
    Pem(String),
    Jks {
        path: String,
    },
    Pkcs12 {
        path: String,
        password: Option<String>,
    },
}

/// A trust store with its strings as characters.
pub enum TrustStoreView {
    Pem(Seq<char>),
    Jks {
        path: Seq<char>,
    },
    Pkcs12 {
        path: Seq<char>,
        password: Option<Seq<char>>,
    },
}

impl View for TrustStore {
    type V = TrustStoreView;

    open spec fn view(&self) -> TrustStoreView {
        match self {
            TrustStore::Pem(path) => TrustStoreView::Pem(path@),
            TrustStore::Jks { path } => TrustStoreView::Jks { path: path@ },
            TrustStore::Pkcs12 { path, password } => TrustStoreView::Pkcs12 {
                path: path@,
                password: option_view(*password),
            },
        }
    }
}

#[derive(Debug, PartialEq, Eq)]
pub struct ImportedConnection {
    pub profile: ConnectionProfile,
    pub password: Option<String>,
    pub trust_store: Option<TrustStore>,
}

/// An imported connection with its strings as characters.
pub struct ImportedView {
    pub profile: ProfileView,
    pub password: Option<Seq<char>>,
    pub trust_store: Option<TrustStoreView>,
}

impl View for ImportedConnection {
    type V = ImportedView;

    open spec fn view(&self) -> ImportedView {
        ImportedView {
            profile: self.profile@,
            password: option_view(self.password),
            trust_store: match self.trust_store {
                Some(store) => Some(store@),
                None => None,
            },
        }
    }
}

// ---- the file format ----

/// Whether a line says nothing: it is blank or a comment.
pub open spec fn is_blank_or_comment(line: Seq<char>) -> bool {
    line.len() == 0 || line[0] == '#' || line[0] == '!'
}

/// Whether the next line belongs to this one: it ends in a single backslash.
pub open spec fn continues(line: Seq<char>) -> bool {
    let n = line.len() as int;
    n > 0 && line[n - 1] == '\\' && !(n > 1 && line[n - 2] == '\\')
}

/// What a line adds to the text before it.
pub open spec fn added_piece(before: Seq<char>, line: Seq<char>) -> Seq<char> {
    let piece = if continues(line) { line.drop_last() } else { line };
    before + (if before.len() == 0 { piece } else { trim_start(piece) })
}

/// The entries that lines hold from a position on, after the text of the lines
/// that are to be continued. An entry that is never finished does not count.
pub open spec fn entries_from(rows: Seq<Seq<char>>, i: int, before: Seq<char>) -> Seq<Seq<char>>
    decreases rows.len() - i,
{
    if i >= rows.len() {
        Seq::empty()
    } else {
        let line = trim_start(rows[i]);
        if before.len() == 0 && is_blank_or_comment(line) {
            entries_from(rows, i + 1, before)
        } else if continues(line) {
            entries_from(rows, i + 1, added_piece(before, line))
        } else {
            seq![added_piece(before, line)] + entries_from(rows, i + 1, Seq::empty())
        }
    }
}

/// A value without its escapes, from a position on: a backslash stands for the
/// character after it, or for a line feed or a tab.
pub open spec fn unescaped_from(value: Seq<char>, i: int) -> Seq<char>
    decreases value.len() - i,
{
    if i >= value.len() {
        Seq::empty()
    } else if value[i] != '\\' {
        seq![value[i]] + unescaped_from(value, i + 1)
    } else if i + 1 >= value.len() {
        Seq::empty()
    } else {
        seq![escaped_char(value[i + 1])] + unescaped_from(value, i + 2)
    }
}

/// What a character stands for behind a backslash.
pub open spec fn escaped_char(c: char) -> char {
    if c == 'n' {
        '\n'
    } else if c == 't' {
        '\t'
    } else {
        c
    }
}

/// Where the key of an entry ends: at the first equals sign or colon.
pub open spec fn key_end(entry: Seq<char>) -> int {
    let a = place_from(entry, '=', 0);
    let b = place_from(entry, ':', 0);
    if a <= b {
        a
    } else {
        b
    }
}

/// The key and the value of an entry, where it has both and the key is not empty.
pub open spec fn key_and_value(entry: Seq<char>) -> Option<(Seq<char>, Seq<char>)> {
    let end = key_end(entry);
    let key = trim(entry.take(end));
    if end < entry.len() && key.len() > 0 {
        Some((key, unescaped_from(trim(entry.skip(end + 1)), 0)))
    } else {
        None
    }
}

/// What the first entries say; a later one wins.
pub open spec fn properties_of(entries: Seq<Seq<char>>) -> Map<Seq<char>, Seq<char>>
    decreases entries.len(),
{
    if entries.len() == 0 {
        Map::empty()
    } else {
        let before = properties_of(entries.drop_last());
        match key_and_value(entries.last()) {
            Some((key, value)) => before.insert(key, value),
            None => before,
        }
    }
}

/// What a properties file says.
pub open spec fn parsed_properties(text: Seq<char>) -> Map<Seq<char>, Seq<char>> {
    properties_of(entries_from(lines(text), 0, Seq::empty()))
}

/// A map with its values as characters.
pub open spec fn texts_of(map: Map<Seq<char>, String>) -> Map<Seq<char>, Seq<char>> {
    map.map_values(|value: String| value@)
}

fn unescape(value: &[char]) -> (out: Vec<char>)
    ensures
        out@ == unescaped_from(value@, 0),
{
    let mut out: Vec<char> = Vec::new();
    let mut i: usize = 0;
    assert(out@ + unescaped_from(value@, 0) =~= unescaped_from(value@, 0));
    while i < value.len()
        invariant
            i <= value@.len(),
            out@ + unescaped_from(value@, i as int) == unescaped_from(value@, 0),
        decreases value.len() - i,
    {
        let ghost before = out@;
        let ghost from = i as int;
        if value[i] != '\\' {
            out.push(value[i]);
            i = i + 1;
        } else if i + 1 >= value.len() {
            i = i + 1;
        } else {
            let c = value[i + 1];
            out.push(if c == 'n' { '\n' } else if c == 't' { '\t' } else { c });
            i = i + 2;
        }
        assert(out@ + unescaped_from(value@, i as int) =~= before + unescaped_from(value@, from));
    }
    assert(out@ =~= unescaped_from(value@, 0));
    out
}

fn line_continues(line: &[char]) -> (continued: bool)
    ensures
        continued == continues(line@),
{
    let n: usize = line.len();
    n > 0 && line[n - 1] == '\\' && !(n > 1 && line[n - 2] == '\\')
}

fn add_piece(before: Vec<char>, line: &[char], continued: bool) -> (text: Vec<char>)
    requires
        continued == continues(line@),
    ensures
        text@ == added_piece(before@, line@),
{
    let end: usize = if continued { line.len() - 1 } else { line.len() };
    let piece = vstd::slice::slice_subrange(line, 0, end);
    assert(continued ==> piece@ =~= line@.drop_last());
    assert(!continued ==> piece@ =~= line@);
    let mut text = before;
    if text.len() == 0 {
        let ghost empty = text@;
        text.extend_from_slice(piece);
        assert(text@ =~= empty + piece@);
    } else {
        let kept = trim_start_chars(piece);
        text.extend_from_slice(&kept);
    }
    text
}

/// The key and the value of an entry.
fn split_entry(entry: &[char]) -> (split: Option<(String, String)>)
    ensures
        match split {
            Some((key, value)) => key_and_value(entry@) == Some((key@, value@)),
            None => key_and_value(entry@) is None,
        },
{
    let a: usize = find_from(entry, '=', 0);
    let b: usize = find_from(entry, ':', 0);
    let end: usize = if a <= b { a } else { b };
    if end == entry.len() {
        return None;
    }
    let key = trim_chars(vstd::slice::slice_subrange(entry, 0, end));
    assert(entry@.subrange(0, end as int) =~= entry@.take(end as int));
    if key.len() == 0 {
        return None;
    }
    let value = trim_chars(vstd::slice::slice_subrange(entry, end + 1, entry.len()));
    assert(entry@.subrange(end + 1, entry@.len() as int) =~= entry@.skip(end + 1));
    Some((string_of(&key), string_of(&unescape(&value))))
}

/// Reads a properties file: comments, continued lines and escapes are resolved, and
/// of two entries with one key the later one counts.
pub fn parse_properties(text: &str) -> (map: TextMap<String>)
    ensures
        map.wf(),
        texts_of(map@) == parsed_properties(text@),
{
    let chars = chars_of(text);
    let rows = lines_of(&chars);
    let ghost all = lines(text@);
    let ghost mut done: Seq<Seq<char>> = Seq::empty();
    let mut map: TextMap<String> = TextMap::new();
    let mut pending: Vec<char> = Vec::new();
    let mut i: usize = 0;
    proof {
        assert(texts_of(map@) =~= properties_of(done));
        assert(pending@ =~= Seq::<char>::empty());
        assert(done + entries_from(all, 0, pending@) =~= entries_from(all, 0, Seq::empty()));
    }
    while i < rows.len()
        invariant
            i <= rows@.len(),
            all == lines(text@),
            char_views(rows@) == all,
            map.wf(),
            texts_of(map@) == properties_of(done),
            done + entries_from(all, i as int, pending@) == entries_from(all, 0, Seq::empty()),
        decreases rows.len() - i,
    {
        assert(char_views(rows@)[i as int] == rows@[i as int]@);
        let line = trim_start_chars(&rows[i]);
        let blank: bool = line.len() == 0 || line[0] == '#' || line[0] == '!';
        if pending.len() == 0 && blank {
            i = i + 1;
            continue;
        }
        let continued: bool = line_continues(&line);
        let ghost before = pending@;
        let mut taken: Vec<char> = Vec::new();
        std::mem::swap(&mut taken, &mut pending);
        let entry = add_piece(taken, &line, continued);
        if continued {
            pending = entry;
            i = i + 1;
            continue;
        }
        proof {
            assert(pending@ =~= Seq::<char>::empty());
            assert((done + seq![entry@]) + entries_from(all, i + 1, Seq::empty())
                =~= done + (seq![entry@] + entries_from(all, i + 1, Seq::empty())));
            assert((done + seq![entry@]).drop_last() =~= done);
        }
        let ghost map_before = map@;
        match split_entry(&entry) {
            Some((key, value)) => {
                map.insert(key, value);
                proof {
                    assert(texts_of(map@) =~= texts_of(map_before).insert(key@, value@));
                }
            },
            None => {},
        }
        proof {
            done = done + seq![entry@];
        }
        i = i + 1;
    }
    assert(done + entries_from(all, i as int, pending@) =~= done);
    map
}

/// A comment or a blank line at the start of a file says nothing.
pub proof fn comments_say_nothing(rows: Seq<Seq<char>>)
    requires
        rows.len() > 0,
        is_blank_or_comment(trim_start(rows[0])),
    ensures
        entries_from(rows, 0, Seq::empty()) == entries_from(rows.skip(1), 0, Seq::empty()),
{
    skipping_a_row(rows, 1, Seq::empty());
}

proof fn skipping_a_row(rows: Seq<Seq<char>>, i: int, before: Seq<char>)
    requires
        1 <= i <= rows.len(),
    ensures
        entries_from(rows, i, before) == entries_from(rows.skip(1), i - 1, before),
    decreases rows.len() - i,
{
    if i < rows.len() {
        let line = trim_start(rows[i]);
        assert(rows.skip(1)[i - 1] == rows[i]);
        if before.len() == 0 && is_blank_or_comment(line) {
            skipping_a_row(rows, i + 1, before);
        } else if continues(line) {
            skipping_a_row(rows, i + 1, added_piece(before, line));
        } else {
            skipping_a_row(rows, i + 1, Seq::empty());
        }
    }
}

/// The entry of a key at the end of a file wins over what the file said before.
pub proof fn the_last_entry_wins(entries: Seq<Seq<char>>, entry: Seq<char>, key: Seq<char>, value: Seq<char>)
    requires
        key_and_value(entry) == Some((key, value)),
    ensures
        properties_of(entries.push(entry)) == properties_of(entries).insert(key, value),
{
    assert(entries.push(entry).drop_last() =~= entries);
}

proof fn places_behind(a: Seq<char>, b: Seq<char>, c: char, j: int)
    requires
        0 <= j <= b.len(),
    ensures
        place_from(a + b, c, a.len() + j) == a.len() + place_from(b, c, j),
    decreases b.len() - j,
{
    if j < b.len() {
        assert((a + b)[a.len() + j] == b[j]);
        places_behind(a, b, c, j + 1);
    }
}

proof fn places_before(a: Seq<char>, b: Seq<char>, c: char, i: int)
    requires
        0 <= i < a.len(),
        a.last() == c,
    ensures
        place_from(a + b, c, i) == place_from(a, c, i),
        i <= place_from(a, c, i) < a.len(),
    decreases a.len() - i,
{
    assert((a + b)[i] == a[i]);
    if a[i] != c {
        places_before(a, b, c, i + 1);
    }
}

proof fn lines_behind(a: Seq<char>, b: Seq<char>, j: int)
    requires
        0 <= j <= b.len(),
    ensures
        lines_from(a + b, a.len() + j) == lines_from(b, j),
    decreases b.len() - j,
{
    if j < b.len() {
        places_behind(a, b, '\n', j);
        place_from_is_first(b, '\n', j);
        let end = place_from(b, '\n', j);
        assert((a + b).skip(a.len() + j) =~= b.skip(j));
        if end < b.len() {
            assert((a + b).subrange(a.len() + j, a.len() + end) =~= b.subrange(j, end));
            lines_behind(a, b, end + 1);
        }
    }
}

proof fn lines_before(a: Seq<char>, b: Seq<char>, i: int)
    requires
        0 <= i <= a.len(),
        a.len() > 0,
        a.last() == '\n',
    ensures
        lines_from(a + b, i) == lines_from(a, i) + lines(b),
    decreases a.len() - i,
{
    if i < a.len() {
        places_before(a, b, '\n', i);
        let end = place_from(a, '\n', i);
        lines_before(a, b, end + 1);
        assert((a + b).subrange(i, end) =~= a.subrange(i, end));
        let line = seq![without_return(a.subrange(i, end))];
        assert(line + (lines_from(a, end + 1) + lines(b)) =~= (line + lines_from(a, end + 1)) + lines(b));
    } else {
        lines_behind(a, b, 0);
        assert(lines_from(a, i) + lines(b) =~= lines(b));
    }
}

proof fn entries_behind(first: Seq<Seq<char>>, second: Seq<Seq<char>>, j: int, before: Seq<char>)
    requires
        0 <= j <= second.len(),
    ensures
        entries_from(first + second, first.len() + j, before) == entries_from(second, j, before),
    decreases second.len() - j,
{
    if j < second.len() {
        let line = trim_start(second[j]);
        assert((first + second)[first.len() + j] == second[j]);
        if before.len() == 0 && is_blank_or_comment(line) {
            entries_behind(first, second, j + 1, before);
        } else if continues(line) {
            entries_behind(first, second, j + 1, added_piece(before, line));
        } else {
            entries_behind(first, second, j + 1, Seq::empty());
        }
    }
}

proof fn entries_before(first: Seq<Seq<char>>, second: Seq<Seq<char>>, i: int, before: Seq<char>)
    requires
        0 <= i <= first.len(),
        i == first.len() ==> before.len() == 0,
        first.len() > 0 ==> !continues(trim_start(first.last())),
    ensures
        entries_from(first + second, i, before) == entries_from(first, i, before) + entries_from(
            second,
            0,
            Seq::empty(),
        ),
    decreases first.len() - i,
{
    let rest = entries_from(second, 0, Seq::empty());
    if i < first.len() {
        let line = trim_start(first[i]);
        assert((first + second)[i] == first[i]);
        if before.len() == 0 && is_blank_or_comment(line) {
            entries_before(first, second, i + 1, before);
        } else if continues(line) {
            entries_before(first, second, i + 1, added_piece(before, line));
        } else {
            entries_before(first, second, i + 1, Seq::empty());
            let entry = seq![added_piece(before, line)];
            let more = entries_from(first, i + 1, Seq::empty());
            assert(entry + (more + rest) =~= (entry + more) + rest);
        }
    } else {
        assert(before =~= Seq::empty());
        entries_behind(first, second, 0, before);
        assert(entries_from(first, i, before) + rest =~= rest);
    }
}

proof fn later_entries_win(first: Seq<Seq<char>>, second: Seq<Seq<char>>)
    ensures
        properties_of(first + second) == properties_of(first).union_prefer_right(properties_of(second)),
    decreases second.len(),
{
    if second.len() == 0 {
        assert(first + second =~= first);
        assert(properties_of(first).union_prefer_right(properties_of(second)) =~= properties_of(first));
    } else {
        later_entries_win(first, second.drop_last());
        assert((first + second).drop_last() =~= first + second.drop_last());
        assert((first + second).last() == second.last());
        assert(properties_of(first + second) =~= properties_of(first).union_prefer_right(properties_of(second)));
    }
}

/// One file behind another says what the two say, and where both name a key, what the
/// second says of it. The first has to end in a whole line that is not to be continued.
pub proof fn a_file_behind_another_wins(first: Seq<char>, second: Seq<char>)
    requires
        first.len() > 0 ==> first.last() == '\n' && !continues(trim_start(lines(first).last())),
    ensures
        parsed_properties(first + second) == parsed_properties(first).union_prefer_right(parsed_properties(second)),
{
    if first.len() == 0 {
        assert(first + second =~= second);
        assert(parsed_properties(first) =~= Map::empty());
        assert(Map::empty().union_prefer_right(parsed_properties(second)) =~= parsed_properties(second));
    } else {
        lines_before(first, second, 0);
        assert(lines(first).len() > 0);
        entries_before(lines(first), lines(second), 0, Seq::empty());
        later_entries_win(
            entries_from(lines(first), 0, Seq::empty()),
            entries_from(lines(second), 0, Seq::empty()),
        );
    }
}

// ---- from properties to a connection ----

/// The first place of a part from a position on.
pub open spec fn part_from(s: Seq<char>, part: Seq<char>, i: int) -> Option<int>
    decreases s.len() + 1 - i,
{
    if i + part.len() > s.len() {
        None
    } else if occurs_at(s, part, i) {
        Some(i)
    } else {
        part_from(s, part, i + 1)
    }
}

/// Where an unquoted value ends: at a space or a semicolon.
pub open spec fn word_end(s: Seq<char>) -> int {
    let a = place_from(s, ' ', 0);
    let b = place_from(s, ';', 0);
    if a <= b {
        a
    } else {
        b
    }
}

/// The value of an option in a JAAS configuration. A value in quotes ends at the
/// closing quote, and has none without it.
pub open spec fn jaas_option(config: Seq<char>, key: Seq<char>) -> Option<Seq<char>> {
    match part_from(config, key.push('='), 0) {
        None => None,
        Some(i) => {
            let rest = config.skip(i + key.len() + 1);
            if rest.len() > 0 && rest[0] == '"' {
                let end = place_from(rest, '"', 1);
                if end < rest.len() {
                    Some(rest.subrange(1, end))
                } else {
                    None
                }
            } else {
                Some(rest.take(word_end(rest)))
            }
        },
    }
}

fn find_part(s: &[char], part: &[char]) -> (place: Option<usize>)
    ensures
        match place {
            Some(i) => part_from(s@, part@, 0) == Some(i as int) && i + part@.len() <= s@.len(),
            None => part_from(s@, part@, 0) is None,
        },
{
    if part.len() > s.len() {
        return None;
    }
    let size: usize = s.len();
    let last: usize = size - part.len();
    let mut i: usize = 0;
    loop
        invariant
            part@.len() <= s@.len() <= usize::MAX,
            last == s@.len() - part@.len(),
            i <= last,
            part_from(s@, part@, 0) == part_from(s@, part@, i as int),
        decreases last - i,
    {
        let mut k: usize = 0;
        while k < part.len() && s[i + k] == part[k]
            invariant
                k <= part@.len() <= s@.len() <= usize::MAX,
                i <= last,
                last == s@.len() - part@.len(),
                forall|j: int| 0 <= j < k ==> s@[i + j] == part@[j],
            decreases part.len() - k,
        {
            k = k + 1;
        }
        if k == part.len() {
            assert(s@.subrange(i as int, i + part@.len()) =~= part@);
            return Some(i);
        }
        assert(s@.subrange(i as int, i + part@.len())[k as int] != part@[k as int]);
        if i == last {
            assert(part_from(s@, part@, i + 1) is None);
            return None;
        }
        i = i + 1;
    }
}

fn jaas_value(config: &str, key: &str) -> (value: Option<String>)
    ensures
        match value {
            Some(v) => jaas_option(config@, key@) == Some(v@),
            None => jaas_option(config@, key@) is None,
        },
{
    let s = chars_of(config);
    let mut wanted = chars_of(key);
    wanted.push('=');
    match find_part(&s, &wanted) {
        None => None,
        Some(i) => {
            let size: usize = s.len();
            let rest = vstd::slice::slice_subrange(&s, i + wanted.len(), size);
            assert(rest@ =~= s@.skip(i + key@.len() + 1));
            if rest.len() > 0 && rest[0] == '"' {
                let end: usize = find_from(rest, '"', 1);
                if end < rest.len() {
                    Some(string_of(vstd::slice::slice_subrange(rest, 1, end)))
                } else {
                    None
                }
            } else {
                let a: usize = find_from(rest, ' ', 0);
                let b: usize = find_from(rest, ';', 0);
                let end: usize = if a <= b { a } else { b };
                assert(rest@.subrange(0, end as int) =~= rest@.take(end as int));
                Some(string_of(vstd::slice::slice_subrange(rest, 0, end)))
            }
        },
    }
}

/// The value of a key.
pub open spec fn value_of(props: Map<Seq<char>, Seq<char>>, key: Seq<char>) -> Option<Seq<char>> {
    if props.contains_key(key) {
        Some(props[key])
    } else {
        None
    }
}

/// The first of two values that there is.
pub open spec fn first_of<A>(a: Option<A>, b: Option<A>) -> Option<A> {
    match a {
        Some(x) => Some(x),
        None => b,
    }
}

/// The brokers that the properties name.
pub open spec fn brokers_of(props: Map<Seq<char>, Seq<char>>) -> Seq<char> {
    match value_of(props, "bootstrap.servers"@) {
        Some(value) => trim(value),
        None => Seq::empty(),
    }
}

/// The protocol that the properties name, in upper case.
pub open spec fn protocol_of(props: Map<Seq<char>, Seq<char>>) -> Seq<char> {
    match value_of(props, "security.protocol"@) {
        Some(value) => ascii_uppered(trim(value)),
        None => "PLAINTEXT"@,
    }
}

/// The mechanism with a name.
pub open spec fn mechanism_named(name: Seq<char>) -> Option<SaslMechanism> {
    if name == "PLAIN"@ {
        Some(SaslMechanism::Plain)
    } else if name == "SCRAM-SHA-256"@ {
        Some(SaslMechanism::ScramSha256)
    } else if name == "SCRAM-SHA-512"@ {
        Some(SaslMechanism::ScramSha512)
    } else {
        None
    }
}

/// A user's name or password: its own property, or an option of the JAAS configuration.
pub open spec fn credential(props: Map<Seq<char>, Seq<char>>, key: Seq<char>, option: Seq<char>) -> Option<Seq<char>> {
    let jaas = match value_of(props, "sasl.jaas.config"@) {
        Some(value) => value,
        None => ""@,
    };
    first_of(value_of(props, key), jaas_option(jaas, option))
}

/// The security that the properties ask for, with the password, or what is wrong.
pub open spec fn security_of(props: Map<Seq<char>, Seq<char>>) -> Result<(SecurityView, Option<Seq<char>>), Seq<char>> {
    let protocol = protocol_of(props);
    if protocol == "PLAINTEXT"@ {
        Ok((SecurityView::Plaintext, None))
    } else if protocol == "SASL_SSL"@ {
        match first_of(value_of(props, "sasl.mechanism"@), value_of(props, "sasl.mechanisms"@)) {
            None => Err("sasl.mechanism is missing"@),
            Some(value) => {
                let name = ascii_uppered(trim(value));
                match mechanism_named(name) {
                    None => Err("sasl.mechanism "@ + name + " is not supported"@),
                    Some(mechanism) => match credential(props, "sasl.username"@, "username"@) {
                        None => Err("SASL username is missing"@),
                        Some(username) => Ok(
                            (
                                SecurityView::SaslSsl { mechanism, username },
                                credential(props, "sasl.password"@, "password"@),
                            ),
                        ),
                    },
                }
            },
        }
    } else {
        Err("security.protocol "@ + protocol + " is not supported"@)
    }
}

/// What a trust store is, by the end of its file's name.
pub open spec fn guessed_kind(path: Seq<char>) -> Seq<char> {
    match extension(path) {
        None => "JKS"@,
        Some(e) => {
            let lowered = ascii_lowered(e);
            if lowered == "pem"@ || lowered == "crt"@ || lowered == "cer"@ {
                "PEM"@
            } else if lowered == "p12"@ || lowered == "pfx"@ {
                "PKCS12"@
            } else {
                "JKS"@
            }
        },
    }
}

/// The trust store that the properties name. A PEM file of its own comes first, and
/// a store without a type is known by its file's name.
pub open spec fn trust_store_of(props: Map<Seq<char>, Seq<char>>) -> Option<TrustStoreView> {
    match value_of(props, "ssl.ca.location"@) {
        Some(path) => Some(TrustStoreView::Pem(path)),
        None => match value_of(props, "ssl.truststore.location"@) {
            None => None,
            Some(path) => {
                let kind = match value_of(props, "ssl.truststore.type"@) {
                    Some(value) => ascii_uppered(trim(value)),
                    None => guessed_kind(path),
                };
                if kind == "PEM"@ {
                    Some(TrustStoreView::Pem(path))
                } else if kind == "PKCS12"@ {
                    Some(
                        TrustStoreView::Pkcs12 {
                            path,
                            password: value_of(props, "ssl.truststore.password"@),
                        },
                    )
                } else {
                    Some(TrustStoreView::Jks { path })
                }
            },
        },
    }
}

/// The connection that properties describe, under a name and an id, or what is wrong
/// with them. A missing broker list is reported before anything else.
pub open spec fn connection_of(
    props: Map<Seq<char>, Seq<char>>,
    name: Seq<char>,
    id: Seq<char>,
) -> Result<ImportedView, Seq<char>> {
    if brokers_of(props).len() == 0 {
        Err("bootstrap.servers is missing"@)
    } else {
        match security_of(props) {
            Err(reason) => Err(reason),
            Ok((security, password)) => Ok(
                ImportedView {
                    profile: ProfileView {
                        id,
                        name,
                        bootstrap_servers: brokers_of(props),
                        security,
                        ca_location: match trust_store_of(props) {
                            Some(TrustStoreView::Pem(path)) => Some(path),
                            _ => None,
                        },
                        password,
                    },
                    password,
                    trust_store: trust_store_of(props),
                },
            ),
        }
    }
}

fn property(props: &TextMap<String>, key: &str) -> (value: Option<String>)
    requires
        props.wf(),
    ensures
        option_view(value) == value_of(texts_of(props@), key@),
{
    match props.get(key) {
        Some(value) => Some(value.clone()),
        None => None,
    }
}

fn upper_trimmed(text: &str) -> (upper: String)
    ensures
        upper@ == ascii_uppered(trim(text@)),
{
    let chars = chars_of(text);
    string_of(&upper_chars(&trim_chars(&chars)))
}

fn mechanism_of(name: &str) -> (mechanism: Option<SaslMechanism>)
    ensures
        mechanism == mechanism_named(name@),
{
    if same_text(name, "PLAIN") {
        Some(SaslMechanism::Plain)
    } else if same_text(name, "SCRAM-SHA-256") {
        Some(SaslMechanism::ScramSha256)
    } else if same_text(name, "SCRAM-SHA-512") {
        Some(SaslMechanism::ScramSha512)
    } else {
        None
    }
}

fn credential_in(props: &TextMap<String>, key: &str, option: &str) -> (value: Option<String>)
    requires
        props.wf(),
    ensures
        option_view(value) == credential(texts_of(props@), key@, option@),
{
    match property(props, key) {
        Some(value) => Some(value),
        None => {
            match property(props, "sasl.jaas.config") {
                Some(jaas) => jaas_value(&jaas, option),
                None => jaas_value("", option),
            }
        },
    }
}

/// The security of a connection with its password, or why there is none.
fn read_security(props: &TextMap<String>) -> (security: Result<(Security, Option<String>), String>)
    requires
        props.wf(),
    ensures
        match security {
            Ok((s, p)) => security_of(texts_of(props@)) == Ok::<_, Seq<char>>((s@, option_view(p))),
            Err(reason) => security_of(texts_of(props@)) == Err::<(SecurityView, Option<Seq<char>>), _>(reason@),
        },
{
    let protocol: String = match property(props, "security.protocol") {
        Some(value) => upper_trimmed(&value),
        None => "PLAINTEXT".to_owned(),
    };
    if same_text(&protocol, "PLAINTEXT") {
        return Ok((Security::Plaintext, None));
    }
    if !same_text(&protocol, "SASL_SSL") {
        return Err(joined3("security.protocol ", &protocol, " is not supported"));
    }
    let named: Option<String> = match property(props, "sasl.mechanism") {
        Some(value) => Some(value),
        None => property(props, "sasl.mechanisms"),
    };
    let name: String = match named {
        Some(value) => upper_trimmed(&value),
        None => {
            return Err("sasl.mechanism is missing".to_owned());
        },
    };
    let mechanism: SaslMechanism = match mechanism_of(&name) {
        Some(mechanism) => mechanism,
        None => {
            return Err(joined3("sasl.mechanism ", &name, " is not supported"));
        },
    };
    match credential_in(props, "sasl.username", "username") {
        Some(username) => Ok((Security::SaslSsl { mechanism, username }, credential_in(props, "sasl.password", "password"))),
        None => Err("SASL username is missing".to_owned()),
    }
}

fn guess_store_type(path: &str) -> (kind: &'static str)
    ensures
        kind@ == guessed_kind(path@),
{
    match extension_of(path) {
        None => "JKS",
        Some(e) => {
            let lowered = string_of(&lower_chars(&e));
            if same_text(&lowered, "pem") || same_text(&lowered, "crt") || same_text(&lowered, "cer") {
                "PEM"
            } else if same_text(&lowered, "p12") || same_text(&lowered, "pfx") {
                "PKCS12"
            } else {
                "JKS"
            }
        },
    }
}

fn read_trust_store(props: &TextMap<String>) -> (store: Option<TrustStore>)
    requires
        props.wf(),
    ensures
        match store {
            Some(s) => trust_store_of(texts_of(props@)) == Some(s@),
            None => trust_store_of(texts_of(props@)) is None,
        },
{
    match property(props, "ssl.ca.location") {
        Some(path) => Some(TrustStore::Pem(path)),
        None => match property(props, "ssl.truststore.location") {
            None => None,
            Some(path) => {
                let kind: String = match property(props, "ssl.truststore.type") {
                    Some(value) => upper_trimmed(&value),
                    None => guess_store_type(&path).to_owned(),
                };
                if same_text(&kind, "PEM") {
                    Some(TrustStore::Pem(path))
                } else if same_text(&kind, "PKCS12") {
                    Some(TrustStore::Pkcs12 { path, password: property(props, "ssl.truststore.password") })
                } else {
                    Some(TrustStore::Jks { path })
                }
            },
        },
    }
}

/// Makes a connection out of a properties file. The connection gets the given name
/// and id.
pub fn import_properties(text: &str, name: &str, id: String) -> (imported: Result<ImportedConnection, String>)
    ensures
        match imported {
            Ok(connection) => connection_of(parsed_properties(text@), name@, id@) == Ok::<_, Seq<char>>(connection@),
            Err(reason) => connection_of(parsed_properties(text@), name@, id@) == Err::<ImportedView, _>(reason@),
        },
{
    let props = parse_properties(text);
    let bootstrap: String = match property(&props, "bootstrap.servers") {
        Some(value) => crate::text::trimmed(&value),
        None => {
            return Err("bootstrap.servers is missing".to_owned());
        },
    };
    if bootstrap.as_str().is_empty() {
        return Err("bootstrap.servers is missing".to_owned());
    }
    match read_security(&props) {
        Err(reason) => Err(reason),
        Ok((security, password)) => {
            let trust_store = read_trust_store(&props);
            let ca_location: Option<String> = match &trust_store {
                Some(TrustStore::Pem(path)) => Some(path.clone()),
                _ => None,
            };
            let connection = ImportedConnection {
                profile: ConnectionProfile {
                    id,
                    name: name.to_owned(),
                    bootstrap_servers: bootstrap,
                    security,
                    ca_location,
                    password: clone_option(&password),
                },
                password,
                trust_store,
            };
            Ok(connection)
        },
    }
}

/// An imported profile keeps the password that came with it, has a password only
/// with SASL, and names a CA file exactly where the trust store is one.
pub proof fn imported_profiles_are_consistent(props: Map<Seq<char>, Seq<char>>, name: Seq<char>, id: Seq<char>)
    requires
        connection_of(props, name, id) is Ok,
    ensures
        ({
            let imported = connection_of(props, name, id)->Ok_0;
            &&& imported.profile.password == imported.password
            &&& imported.profile.bootstrap_servers.len() > 0
            &&& imported.profile.security is Plaintext ==> imported.password is None
            &&& imported.profile.ca_location is Some <==> imported.trust_store matches Some(TrustStoreView::Pem(_))
        }),
{
}

/// The names of the mechanisms differ.
proof fn mechanism_names_differ()
    ensures
        "PLAIN"@ != "SCRAM-SHA-256"@,
        "PLAIN"@ != "SCRAM-SHA-512"@,
        "SCRAM-SHA-256"@ != "SCRAM-SHA-512"@,
{
    reveal_strlit("PLAIN");
    reveal_strlit("SCRAM-SHA-256");
    reveal_strlit("SCRAM-SHA-512");
    assert("PLAIN"@.len() == 5);
    assert("SCRAM-SHA-256"@.len() == 13);
    assert("SCRAM-SHA-512"@.len() == 13);
    assert("SCRAM-SHA-256"@[10] != "SCRAM-SHA-512"@[10]);
}

/// A file that names a mechanism is imported with exactly this one: its Kafka name is what
/// stands in the file, in upper case and without white space around it.
pub proof fn the_named_mechanism_is_imported(props: Map<Seq<char>, Seq<char>>, name: Seq<char>, id: Seq<char>)
    requires
        connection_of(props, name, id) is Ok,
        props.contains_key("sasl.mechanism"@),
    ensures
        connection_of(props, name, id)->Ok_0.profile.security matches SecurityView::SaslSsl { mechanism, .. } ==> {
            let wanted = ascii_uppered(trim(props["sasl.mechanism"@]));
            &&& mechanism_name(mechanism) == wanted
            &&& mechanism is Plain <==> wanted == "PLAIN"@
            &&& mechanism is ScramSha256 <==> wanted == "SCRAM-SHA-256"@
            &&& mechanism is ScramSha512 <==> wanted == "SCRAM-SHA-512"@
        },
{
    mechanism_names_differ();
}

/// Each mechanism is imported under its Kafka name, in any case and with white space around
/// it: the name that a client is configured with is read back.
pub proof fn mechanisms_are_read_back(
    props: Map<Seq<char>, Seq<char>>,
    mechanism: SaslMechanism,
    name: Seq<char>,
    id: Seq<char>,
)
    requires
        props.contains_key("bootstrap.servers"@) && trim(props["bootstrap.servers"@]).len() > 0,
        props.contains_key("security.protocol"@) && ascii_uppered(trim(props["security.protocol"@])) == "SASL_SSL"@,
        props.contains_key("sasl.mechanism"@) && ascii_uppered(trim(props["sasl.mechanism"@])) == mechanism_name(
            mechanism,
        ),
        props.contains_key("sasl.username"@),
    ensures
        connection_of(props, name, id) matches Ok(imported) && imported.profile.security == (SecurityView::SaslSsl {
            mechanism,
            username: props["sasl.username"@],
        }),
{
    mechanism_names_differ();
    reveal_strlit("SASL_SSL");
    reveal_strlit("PLAINTEXT");
    assert("SASL_SSL"@.len() != "PLAINTEXT"@.len());
}

proof fn plain_text_has_no_escapes(value: Seq<char>, i: int)
    requires
        0 <= i <= value.len(),
        !value.contains('\\'),
    ensures
        unescaped_from(value, i) == value.skip(i),
    decreases value.len() - i,
{
    if i < value.len() {
        plain_text_has_no_escapes(value, i + 1);
        assert(value[i] != '\\');
        assert(seq![value[i]] + value.skip(i + 1) =~= value.skip(i));
    } else {
        assert(value.skip(i) =~= Seq::empty());
    }
}

proof fn a_separator_comes_first(key: Seq<char>, c: char, rest: Seq<char>, i: int)
    requires
        0 <= i <= key.len(),
        !key.contains('='),
        !key.contains(':'),
        c == '=' || c == ':',
    ensures
        place_from(key.push(c) + rest, c, i) == key.len(),
        c == '=' ==> place_from(key.push(c) + rest, ':', i) > key.len(),
        c == ':' ==> place_from(key.push(c) + rest, '=', i) > key.len(),
    decreases key.len() - i,
{
    let s = key.push(c) + rest;
    let other = if c == '=' { ':' } else { '=' };
    if i < key.len() {
        assert(s[i] == key[i]);
        a_separator_comes_first(key, c, rest, i + 1);
    } else {
        assert(s[i] == c);
        place_from_is_first(s, other, i + 1);
    }
}

/// An entry is a key and a value with an equals sign or a colon between them: both are read
/// without the white space around them.
pub proof fn an_entry_is_a_key_and_a_value(key: Seq<char>, separator: char, value: Seq<char>)
    requires
        !key.contains('='),
        !key.contains(':'),
        trim(key).len() > 0,
        separator == '=' || separator == ':',
        !value.contains('\\'),
    ensures
        key_and_value(key.push(separator) + value) == Some((trim(key), trim(value))),
{
    let entry = key.push(separator) + value;
    a_separator_comes_first(key, separator, value, 0);
    assert(entry.take(key.len() as int) =~= key);
    assert(entry.skip(key.len() as int + 1) =~= value);
    trimming_takes_off_white_space_alone(value);
    let (before, behind) = choose|before: Seq<char>, behind: Seq<char>|
        #![trigger all_white(before), all_white(behind)]
        all_white(before) && all_white(behind) && value == before + trim(value) + behind;
    assert(!trim(value).contains('\\')) by {
        if trim(value).contains('\\') {
            let k = choose|k: int| 0 <= k < trim(value).len() && trim(value)[k] == '\\';
            assert(value[before.len() + k] == '\\');
        }
    }
    plain_text_has_no_escapes(trim(value), 0);
    assert(trim(value).skip(0) =~= trim(value));
}

/// A value as it is written: a backslash stands before a backslash, and line feeds and tabs
/// are written as letters behind one.
pub open spec fn escaped(value: Seq<char>) -> Seq<char>
    decreases value.len(),
{
    if value.len() == 0 {
        Seq::empty()
    } else {
        let c = value[0];
        let written = if c == '\\' {
            seq!['\\', '\\']
        } else if c == '\n' {
            seq!['\\', 'n']
        } else if c == '\t' {
            seq!['\\', 't']
        } else {
            seq![c]
        };
        written + escaped(value.skip(1))
    }
}

proof fn escapes_behind(before: Seq<char>, rest: Seq<char>, j: int)
    requires
        0 <= j <= rest.len(),
    ensures
        unescaped_from(before + rest, before.len() + j) == unescaped_from(rest, j),
    decreases rest.len() - j,
{
    let all = before + rest;
    if j < rest.len() {
        assert(all[before.len() + j] == rest[j]);
        if rest[j] != '\\' {
            escapes_behind(before, rest, j + 1);
        } else if j + 1 < rest.len() {
            assert(all[before.len() + j + 1] == rest[j + 1]);
            escapes_behind(before, rest, j + 2);
        }
    }
}

/// A value that was written with escapes is read back as it was.
pub proof fn escaped_values_are_read_back(value: Seq<char>)
    ensures
        unescaped_from(escaped(value), 0) == value,
    decreases value.len(),
{
    if value.len() > 0 {
        let c = value[0];
        let rest = escaped(value.skip(1));
        escaped_values_are_read_back(value.skip(1));
        let written = if c == '\\' {
            seq!['\\', '\\']
        } else if c == '\n' {
            seq!['\\', 'n']
        } else if c == '\t' {
            seq!['\\', 't']
        } else {
            seq![c]
        };
        escapes_behind(written, rest, 0);
        let all = written + rest;
        assert(all[0] == written[0]);
        if written.len() == 2 {
            assert(all[1] == written[1]);
        }
        assert(unescaped_from(all, 0) =~= seq![c] + unescaped_from(rest, 0));
        assert(seq![c] + value.skip(1) =~= value);
    }
}

proof fn trimming_leaves_the_end(s: Seq<char>, c: char)
    requires
        trim_start(s).len() > 0,
    ensures
        trim_start(s.push(c)) == trim_start(s).push(c),
    decreases s.len(),
{
    assert(s.push(c)[0] == s[0]);
    if is_white(s[0]) {
        trimming_leaves_the_end(s.skip(1), c);
        assert(s.push(c).skip(1) =~= s.skip(1).push(c));
    }
}

proof fn trimming_a_start_again_changes_nothing(s: Seq<char>)
    ensures
        trim_start(trim_start(s)) == trim_start(s),
    decreases s.len(),
{
    if s.len() > 0 && is_white(s[0]) {
        trimming_a_start_again_changes_nothing(s.skip(1));
    }
}

/// A line that ends in a backslash goes on in the next one: the two are one entry, without the
/// backslash and without the white space that the second line starts with.
pub proof fn a_continued_line_is_one_entry(first: Seq<char>, second: Seq<char>)
    requires
        trim_start(first).len() > 0,
        trim_start(first)[0] != '#' && trim_start(first)[0] != '!',
        first.last() != '\\',
        second.len() == 0 || second.last() != '\\',
    ensures
        entries_from(seq![first.push('\\'), second], 0, Seq::empty()) == seq![trim_start(first) + trim_start(second)],
{
    let rows = seq![first.push('\\'), second];
    let a = trim_start(first);
    let b = trim_start(second);
    trimming_leaves_the_end(first, '\\');
    trim_start_keeps_the_end(first);
    trim_start_keeps_the_end(second);
    trimming_a_start_again_changes_nothing(second);
    let line = trim_start(rows[0]);
    assert(line[0] == a[0]);
    assert(line.drop_last() =~= a);
    assert(added_piece(Seq::empty(), line) =~= a);
    assert(added_piece(a, b) == a + b);
    assert(entries_from(rows, 2, Seq::empty()) =~= Seq::empty());
    assert(entries_from(rows, 1, a) =~= seq![a + b]);
}

proof fn trim_start_keeps_the_end(s: Seq<char>)
    ensures
        trim_start(s).len() > 0 ==> s.len() > 0 && trim_start(s).last() == s.last(),
    decreases s.len(),
{
    if s.len() > 0 && is_white(s[0]) {
        trim_start_keeps_the_end(s.skip(1));
    }
}

proof fn a_part_is_found_first(s: Seq<char>, part: Seq<char>, i: int, n: int)
    requires
        0 <= i <= n,
        occurs_at(s, part, n),
        forall|k: int| i <= k < n ==> !#[trigger] occurs_at(s, part, k),
    ensures
        part_from(s, part, i) == Some(n),
    decreases n - i,
{
    if i < n {
        assert(!occurs_at(s, part, i));
        a_part_is_found_first(s, part, i + 1, n);
    }
}

proof fn a_lone_character_is_found(s: Seq<char>, c: char, i: int, n: int)
    requires
        0 <= i <= n <= s.len(),
        n < s.len() ==> s[n] == c,
        forall|k: int| i <= k < n ==> #[trigger] s[k] != c,
    ensures
        place_from(s, c, i) == n,
    decreases n - i,
{
    if i < n {
        assert(s[i] != c);
        a_lone_character_is_found(s, c, i + 1, n);
    }
}

/// An option of a JAAS configuration with a value in quotes has what stands between the
/// quotes.
pub proof fn a_quoted_option_is_read(
    config: Seq<char>,
    before: Seq<char>,
    key: Seq<char>,
    value: Seq<char>,
    behind: Seq<char>,
)
    requires
        config == before + key + seq!['=', '"'] + value + seq!['"'] + behind,
        !value.contains('"'),
        forall|i: int| 0 <= i < before.len() ==> !#[trigger] occurs_at(config, key.push('='), i),
    ensures
        jaas_option(config, key) == Some(value),
{
    let n = before.len() as int;
    assert(config.subrange(n, n + key.push('=').len()) =~= key.push('='));
    assert(occurs_at(config, key.push('='), n));
    a_part_is_found_first(config, key.push('='), 0, n);
    let rest = config.skip(n + key.len() + 1);
    assert(rest =~= seq!['"'] + value + seq!['"'] + behind);
    assert forall|k: int| 1 <= k < 1 + value.len() implies #[trigger] rest[k] != '"' by {
        assert(rest[k] == value[k - 1]);
    }
    a_lone_character_is_found(rest, '"', 1, 1 + value.len() as int);
    assert(rest.subrange(1, 1 + value.len() as int) =~= value);
}

/// An option without quotes has what stands before the next space or semicolon, or before the
/// end.
pub proof fn a_plain_option_is_read(
    config: Seq<char>,
    before: Seq<char>,
    key: Seq<char>,
    value: Seq<char>,
    behind: Seq<char>,
)
    requires
        config == before + key + seq!['='] + value + behind,
        value.len() > 0 && value[0] != '"',
        !value.contains(' '),
        !value.contains(';'),
        behind.len() > 0 ==> behind[0] == ' ' || behind[0] == ';',
        forall|i: int| 0 <= i < before.len() ==> !#[trigger] occurs_at(config, key.push('='), i),
    ensures
        jaas_option(config, key) == Some(value),
{
    let n = before.len() as int;
    assert(config.subrange(n, n + key.push('=').len()) =~= key.push('='));
    assert(occurs_at(config, key.push('='), n));
    a_part_is_found_first(config, key.push('='), 0, n);
    let rest = config.skip(n + key.len() + 1);
    assert(rest =~= value + behind);
    let end = value.len() as int;
    assert(rest[0] == value[0]);
    assert forall|k: int| 0 <= k < end implies #[trigger] rest[k] != ' ' && rest[k] != ';' by {
        assert(rest[k] == value[k]);
    }
    place_from_is_first(rest, ' ', 0);
    place_from_is_first(rest, ';', 0);
    let a = place_from(rest, ' ', 0);
    let b = place_from(rest, ';', 0);
    assert(a >= end && b >= end);
    if behind.len() > 0 {
        assert(rest[end] == behind[0]);
        if behind[0] == ' ' {
            a_lone_character_is_found(rest, ' ', 0, end);
        } else {
            a_lone_character_is_found(rest, ';', 0, end);
        }
    }
    assert(rest.take(end) =~= value);
}

/// The user and the password are those that the file names for themselves, and only without
/// them those of the JAAS configuration.
pub proof fn named_credentials_are_imported(props: Map<Seq<char>, Seq<char>>, name: Seq<char>, id: Seq<char>)
    requires
        connection_of(props, name, id) is Ok,
    ensures
        ({
            let imported = connection_of(props, name, id)->Ok_0;
            imported.profile.security matches SecurityView::SaslSsl { username, .. } ==> {
                &&& props.contains_key("sasl.username"@) ==> username == props["sasl.username"@]
                &&& !props.contains_key("sasl.username"@) && props.contains_key("sasl.jaas.config"@) ==> Some(username)
                    == jaas_option(props["sasl.jaas.config"@], "username"@)
                &&& props.contains_key("sasl.password"@) ==> imported.password == Some(props["sasl.password"@])
                &&& !props.contains_key("sasl.password"@) && props.contains_key("sasl.jaas.config"@)
                    ==> imported.password == jaas_option(props["sasl.jaas.config"@], "password"@)
            }
        }),
{
}

/// The imported connection leads to the brokers that the file names, under the given name and
/// id, and is encrypted exactly where the file asks for it.
pub proof fn brokers_and_protocol_are_imported(props: Map<Seq<char>, Seq<char>>, name: Seq<char>, id: Seq<char>)
    requires
        connection_of(props, name, id) is Ok,
    ensures
        ({
            let profile = connection_of(props, name, id)->Ok_0.profile;
            &&& profile.id == id
            &&& profile.name == name
            &&& props.contains_key("bootstrap.servers"@) && profile.bootstrap_servers == trim(
                props["bootstrap.servers"@],
            )
            &&& profile.security is SaslSsl <==> props.contains_key("security.protocol"@) && ascii_uppered(
                trim(props["security.protocol"@]),
            ) == "SASL_SSL"@
            &&& profile.security is Plaintext && props.contains_key("security.protocol"@) ==> ascii_uppered(
                trim(props["security.protocol"@]),
            ) == "PLAINTEXT"@
        }),
{
    reveal_strlit("SASL_SSL");
    reveal_strlit("PLAINTEXT");
    assert("SASL_SSL"@.len() != "PLAINTEXT"@.len());
}

/// A file is refused only for what it lacks or what is not supported: brokers, a known
/// protocol, and with SASL a known mechanism and a user.
pub proof fn complete_files_are_imported(props: Map<Seq<char>, Seq<char>>, name: Seq<char>, id: Seq<char>)
    requires
        props.contains_key("bootstrap.servers"@) && trim(props["bootstrap.servers"@]).len() > 0,
        !props.contains_key("security.protocol"@) || ascii_uppered(trim(props["security.protocol"@])) == "PLAINTEXT"@,
    ensures
        connection_of(props, name, id) matches Ok(imported) && imported.profile.security is Plaintext
            && imported.password is None,
{
}

/// A file without brokers is refused, and so is one with a protocol that is not supported.
pub proof fn incomplete_files_are_refused(props: Map<Seq<char>, Seq<char>>, name: Seq<char>, id: Seq<char>)
    ensures
        !props.contains_key("bootstrap.servers"@) || trim(props["bootstrap.servers"@]).len() == 0 ==> connection_of(
            props,
            name,
            id,
        ) is Err,
        props.contains_key("security.protocol"@) && ascii_uppered(trim(props["security.protocol"@])) != "PLAINTEXT"@
            && ascii_uppered(trim(props["security.protocol"@])) != "SASL_SSL"@ ==> connection_of(props, name, id) is Err,
        props.contains_key("security.protocol"@) && ascii_uppered(trim(props["security.protocol"@])) == "SASL_SSL"@
            && !props.contains_key("sasl.mechanism"@) && !props.contains_key("sasl.mechanisms"@) ==> connection_of(
            props,
            name,
            id,
        ) is Err,
        props.contains_key("security.protocol"@) && ascii_uppered(trim(props["security.protocol"@])) == "SASL_SSL"@
            && !props.contains_key("sasl.username"@) && props.contains_key("sasl.jaas.config"@) && jaas_option(
            props["sasl.jaas.config"@],
            "username"@,
        ) is None ==> connection_of(props, name, id) is Err,
{
    reveal_strlit("SASL_SSL");
    reveal_strlit("PLAINTEXT");
    assert("SASL_SSL"@.len() != "PLAINTEXT"@.len());
}

/// A certificate file of its own comes before a trust store, and is what the connection
/// names; a trust store is where the file says, of the type that it says.
pub proof fn named_trust_stores_are_imported(props: Map<Seq<char>, Seq<char>>)
    ensures
        props.contains_key("ssl.ca.location"@) ==> trust_store_of(props) == Some(
            TrustStoreView::Pem(props["ssl.ca.location"@]),
        ),
        !props.contains_key("ssl.ca.location"@) && !props.contains_key("ssl.truststore.location"@) ==> trust_store_of(
            props,
        ) is None,
        !props.contains_key("ssl.ca.location"@) && props.contains_key("ssl.truststore.location"@) ==> {
            let location = props["ssl.truststore.location"@];
            &&& trust_store_of(props) matches Some(store) && match store {
                TrustStoreView::Pem(path) => path == location,
                TrustStoreView::Jks { path } => path == location,
                TrustStoreView::Pkcs12 { path, password } => path == location && (match password {
                    Some(text) => props.contains_key("ssl.truststore.password"@) && text
                        == props["ssl.truststore.password"@],
                    None => !props.contains_key("ssl.truststore.password"@),
                }),
            }
            &&& props.contains_key("ssl.truststore.type"@) ==> {
                let kind = ascii_uppered(trim(props["ssl.truststore.type"@]));
                &&& trust_store_of(props)->0 is Pem <==> kind == "PEM"@
                &&& trust_store_of(props)->0 is Pkcs12 <==> kind == "PKCS12"@
            }
        },
{
    reveal_strlit("PEM");
    reveal_strlit("PKCS12");
    assert("PEM"@.len() != "PKCS12"@.len());
}

/// A trust store without a type is known by the end of its file's name, in any case.
pub proof fn stores_are_known_by_their_extension(props: Map<Seq<char>, Seq<char>>)
    requires
        !props.contains_key("ssl.ca.location"@),
        props.contains_key("ssl.truststore.location"@),
        !props.contains_key("ssl.truststore.type"@),
    ensures
        ({
            let known = extension(props["ssl.truststore.location"@]);
            let store = trust_store_of(props)->0;
            &&& known is None ==> store is Jks
            &&& known matches Some(e) ==> {
                let small = ascii_lowered(e);
                &&& store is Pem <==> small == "pem"@ || small == "crt"@ || small == "cer"@
                &&& store is Pkcs12 <==> small == "p12"@ || small == "pfx"@
            }
        }),
{
    reveal_strlit("PEM");
    reveal_strlit("PKCS12");
    reveal_strlit("JKS");
    reveal_strlit("pem");
    reveal_strlit("crt");
    reveal_strlit("cer");
    reveal_strlit("p12");
    reveal_strlit("pfx");
    assert("PEM"@.len() != "PKCS12"@.len());
    assert("JKS"@.len() != "PKCS12"@.len());
    assert("PEM"@[0] != "JKS"@[0]);
    assert("p12"@[1] != "pem"@[1]);
    assert("pfx"@[1] != "pem"@[1]);
    assert("p12"@[0] != "crt"@[0]);
    assert("p12"@[0] != "cer"@[0]);
    assert("pfx"@[0] != "crt"@[0]);
    assert("pfx"@[0] != "cer"@[0]);
}

/// The plural of the property counts where the singular is missing.
pub proof fn the_mechanisms_count_without_the_mechanism(props: Map<Seq<char>, Seq<char>>, name: Seq<char>, id: Seq<char>)
    requires
        connection_of(props, name, id) is Ok,
        !props.contains_key("sasl.mechanism"@),
    ensures
        connection_of(props, name, id)->Ok_0.profile.security matches SecurityView::SaslSsl { mechanism, .. } ==> {
            &&& props.contains_key("sasl.mechanisms"@)
            &&& mechanism_name(mechanism) == ascii_uppered(trim(props["sasl.mechanisms"@]))
        },
{
    mechanism_names_differ();
}

/// What a file is imported as: a mechanism, a user and a password are those that the file
/// names, and the brokers are its brokers. The connection has the given name and id.
pub proof fn a_file_is_imported_as_it_says(
    text: &str,
    name: &str,
    id: String,
    imported: Result<ImportedConnection, String>,
)
    requires
        call_ensures(import_properties, (text, name, id), imported),
    ensures
        imported matches Ok(connection) ==> {
            let props = parsed_properties(text@);
            &&& connection.profile.id@ == id@
            &&& connection.profile.name@ == name@
            &&& connection.profile.bootstrap_servers@ == trim(props["bootstrap.servers"@])
            &&& option_view(connection.profile.password) == option_view(connection.password)
            &&& connection.profile.security@ matches SecurityView::SaslSsl { mechanism, username } ==> {
                &&& props.contains_key("sasl.mechanism"@) ==> mechanism_name(mechanism) == ascii_uppered(
                    trim(props["sasl.mechanism"@]),
                )
                &&& props.contains_key("sasl.username"@) ==> username == props["sasl.username"@]
                &&& props.contains_key("sasl.password"@) ==> option_view(connection.password) == Some(
                    props["sasl.password"@],
                )
            }
            &&& connection.profile.security@ is Plaintext ==> connection.password is None
        },
{
    let props = parsed_properties(text@);
    if imported is Ok {
        let connection = imported->Ok_0;
        assert(connection_of(props, name@, id@) == Ok::<_, Seq<char>>(connection@));
        brokers_and_protocol_are_imported(props, name@, id@);
        named_credentials_are_imported(props, name@, id@);
        imported_profiles_are_consistent(props, name@, id@);
        if props.contains_key("sasl.mechanism"@) {
            the_named_mechanism_is_imported(props, name@, id@);
        }
        assert(connection@.profile.id == connection.profile.id@);
        assert(connection@.profile.password == option_view(connection.profile.password));
        assert(connection@.password == option_view(connection.password));
    }
}

/// A mechanism is found by its Kafka name, and by no other.
pub proof fn a_mechanism_is_found_by_its_kafka_name(name: Seq<char>)
    ensures
        mechanism_named(name) matches Some(mechanism) ==> mechanism_name(mechanism) == name,
        mechanism_named(name) is None ==> name != "PLAIN"@ && name != "SCRAM-SHA-256"@ && name != "SCRAM-SHA-512"@,
        mechanism_named("PLAIN"@) == Some(SaslMechanism::Plain),
        mechanism_named("SCRAM-SHA-256"@) == Some(SaslMechanism::ScramSha256),
        mechanism_named("SCRAM-SHA-512"@) == Some(SaslMechanism::ScramSha512),
{
    mechanism_names_differ();
}

/// A file that cannot be imported is refused with the entry that is missing, or with the value
/// that is not known.
pub proof fn a_refused_file_is_told_why(text: &str, name: &str, id: String, imported: Result<ImportedConnection, String>)
    requires
        call_ensures(import_properties, (text, name, id), imported),
    ensures
        ({
            let props = parsed_properties(text@);
            let brokers = props.contains_key("bootstrap.servers"@) && trim(props["bootstrap.servers"@]).len() > 0;
            let sasl = props.contains_key("security.protocol"@) && ascii_uppered(trim(props["security.protocol"@]))
                == "SASL_SSL"@;
            &&& !brokers ==> (imported matches Err(reason) && reason@ == "bootstrap.servers is missing"@)
            &&& brokers && sasl && !props.contains_key("sasl.mechanism"@) && !props.contains_key("sasl.mechanisms"@) ==> (
            imported matches Err(reason) && reason@ == "sasl.mechanism is missing"@)
            &&& brokers && sasl && props.contains_key("sasl.mechanism"@) && mechanism_named(
                ascii_uppered(trim(props["sasl.mechanism"@])),
            ) is None ==> (imported matches Err(reason) && reason@ == "sasl.mechanism "@ + ascii_uppered(
                trim(props["sasl.mechanism"@]),
            ) + " is not supported"@)
            &&& brokers && sasl && props.contains_key("sasl.mechanism"@) && mechanism_named(
                ascii_uppered(trim(props["sasl.mechanism"@])),
            ) is Some && credential(props, "sasl.username"@, "username"@) is None ==> (imported matches Err(reason)
                && reason@ == "SASL username is missing"@)
            &&& brokers && !sasl && props.contains_key("security.protocol"@) && ascii_uppered(
                trim(props["security.protocol"@]),
            ) != "PLAINTEXT"@ ==> (imported matches Err(reason) && reason@ == "security.protocol "@ + ascii_uppered(
                trim(props["security.protocol"@]),
            ) + " is not supported"@)
        }),
{
    reveal_strlit("PLAINTEXT");
    reveal_strlit("SASL_SSL");
    assert("PLAINTEXT"@.len() != "SASL_SSL"@.len());
}

} // verus!
