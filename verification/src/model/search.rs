//! Searching messages for a term, whatever the case of its ASCII letters.

use vstd::prelude::*;
use vstd::utf8::encode_utf8;

use crate::model::message::{HeaderView, MessageRecord};

verus! {

/// An ASCII letter in lower case; other bytes stay.
pub open spec fn lower(b: u8) -> u8 {
    if 0x41 <= b <= 0x5a {
        (b + 0x20) as u8
    } else {
        b
    }
}

/// An ASCII letter in upper case; other bytes stay.
pub open spec fn upper(b: u8) -> u8 {
    if 0x61 <= b <= 0x7a {
        (b - 0x20) as u8
    } else {
        b
    }
}

/// Bytes with the ASCII letters in lower case.
pub open spec fn lowered(s: Seq<u8>) -> Seq<u8> {
    s.map_values(|b: u8| lower(b))
}

/// Whether a term stands at a place, whatever the case. The first byte has to be that
/// of the term or its upper case.
pub open spec fn term_at(haystack: Seq<u8>, needle: Seq<u8>, i: int) -> bool {
    &&& 0 <= i
    &&& i + needle.len() <= haystack.len()
    &&& needle.len() > 0 ==> haystack[i] == needle[0] || haystack[i] == upper(needle[0])
    &&& forall|k: int| 0 <= k < needle.len() ==> lower(haystack[i + k]) == lower(#[trigger] needle[k])
}

/// Whether a term stands somewhere.
pub open spec fn holds_term(haystack: Seq<u8>, needle: Seq<u8>) -> bool {
    exists|i: int| #[trigger] term_at(haystack, needle, i)
}

/// `memchr::memchr2`: the first place of either of two bytes, or nothing where
/// neither occurs.
pub assume_specification[ memchr::memchr2 ](needle1: u8, needle2: u8, haystack: &[u8]) -> (place: Option<usize>)
    ensures
        match place {
            Some(i) => {
                &&& i < haystack@.len()
                &&& haystack@[i as int] == needle1 || haystack@[i as int] == needle2
                &&& forall|k: int| 0 <= k < i ==> haystack@[k] != needle1 && haystack@[k] != needle2
            },
            None => forall|k: int| 0 <= k < haystack@.len() ==> haystack@[k] != needle1 && haystack@[k] != needle2,
        },
;

fn to_lower(b: u8) -> (l: u8)
    ensures
        l == lower(b),
{
    if b >= 0x41 && b <= 0x5a {
        b + 0x20
    } else {
        b
    }
}

/// The search term for a query. An empty query gives none, which shows every message.
pub fn needle(query: &str) -> (term: Option<Vec<u8>>)
    ensures
        match term {
            Some(t) => query@.len() > 0 && t@ == lowered(encode_utf8(query@)),
            None => query@.len() == 0,
        },
{
    if query.is_empty() {
        return None;
    }
    let bytes: &[u8] = query.as_bytes();
    let mut term: Vec<u8> = Vec::new();
    let mut i: usize = 0;
    while i < bytes.len()
        invariant
            i <= bytes@.len(),
            term@ == lowered(bytes@).take(i as int),
        decreases bytes.len() - i,
    {
        assert(lowered(bytes@).take(i + 1) =~= term@.push(lower(bytes@[i as int])));
        term.push(to_lower(bytes[i]));
        i = i + 1;
    }
    assert(term@ =~= lowered(bytes@));
    Some(term)
}

/// Whether a term stands in bytes. Only ASCII letters are compared without their case,
/// so the search never allocates. The term is meant to be in lower case.
pub fn contains_ignore_ascii_case(haystack: &[u8], needle: &[u8]) -> (found: bool)
    ensures
        found == holds_term(haystack@, needle@),
{
    if needle.len() == 0 {
        assert(term_at(haystack@, needle@, 0));
        return true;
    }
    if haystack.len() < needle.len() {
        return false;
    }
    let first: u8 = needle[0];
    let first_upper: u8 = if first >= 0x61 && first <= 0x7a { first - 0x20 } else { first };
    let size: usize = haystack.len();
    let last_start: usize = size - needle.len();
    let mut start: usize = 0;
    while start <= last_start
        invariant
            0 < needle@.len() <= haystack@.len(),
            size == haystack@.len(),
            last_start == size - needle@.len(),
            first == needle@[0],
            first_upper == upper(first),
            forall|k: int| 0 <= k < start ==> !#[trigger] term_at(haystack@, needle@, k),
        decreases size - start,
    {
        let window = vstd::slice::slice_subrange(haystack, start, last_start + 1);
        match memchr::memchr2(first, first_upper, window) {
            None => {
                proof {
                    assert forall|k: int| !#[trigger] term_at(haystack@, needle@, k) by {
                        if start <= k <= last_start {
                            assert(window@[k - start] == haystack@[k]);
                        }
                    }
                }
                return false;
            },
            Some(offset) => {
                let at: usize = start + offset;
                assert forall|k: int| start <= k < at implies !#[trigger] term_at(haystack@, needle@, k) by {
                    assert(window@[k - start] == haystack@[k]);
                }
                assert(window@[offset as int] == haystack@[at as int]);
                let mut i: usize = 0;
                while i < needle.len() && to_lower(haystack[at + i]) == to_lower(needle[i])
                    invariant
                        i <= needle@.len(),
                        at + needle@.len() <= haystack@.len() <= usize::MAX,
                        forall|k: int| 0 <= k < i ==> lower(haystack@[at + k]) == lower(#[trigger] needle@[k]),
                    decreases needle.len() - i,
                {
                    i = i + 1;
                }
                if i == needle.len() {
                    assert(term_at(haystack@, needle@, at as int));
                    return true;
                }
                assert(!term_at(haystack@, needle@, at as int)) by {
                    assert(lower(haystack@[at + i]) != lower(needle@[i as int]));
                }
                start = at + 1;
            },
        }
    }
    false
}

/// Whether an optional block holds a term.
pub open spec fn part_holds(part: Option<Seq<u8>>, needle: Seq<u8>) -> bool {
    part matches Some(bytes) && holds_term(bytes, needle)
}

/// Whether a header holds a term, in its name or its value.
pub open spec fn header_holds(header: HeaderView, needle: Seq<u8>) -> bool {
    holds_term(encode_utf8(header.name), needle) || part_holds(header.value, needle)
}

/// Whether the value, the key, or any header of a message holds a term.
pub open spec fn message_holds(record: MessageRecord, needle: Seq<u8>) -> bool {
    ||| part_holds(record.value_bytes(), needle)
    ||| part_holds(record.key_bytes(), needle)
    ||| exists|i: int| 0 <= i < record.header_views().len() && header_holds(#[trigger] record.header_views()[i], needle)
}

fn holds(part: Option<&[u8]>, needle: &[u8]) -> (found: bool)
    ensures
        found == part_holds(crate::model::message::bytes_view(part), needle@),
{
    match part {
        Some(bytes) => contains_ignore_ascii_case(bytes, needle),
        None => false,
    }
}

/// Whether the value, the key, or any header of a message holds a term.
pub fn matches(record: &MessageRecord, needle: &[u8]) -> (found: bool)
    requires
        record.wf(),
    ensures
        found == message_holds(*record, needle@),
{
    if holds(record.value(), needle) || holds(record.key(), needle) {
        return true;
    }
    let headers = record.headers();
    let mut i: usize = 0;
    while i < headers.len()
        invariant
            i <= headers@.len(),
            headers@.len() == record.header_views().len(),
            forall|k: int| 0 <= k < headers@.len() ==> #[trigger] headers@[k].0@ == record.header_views()[k].name,
            forall|k: int|
                0 <= k < headers@.len() ==> crate::model::message::bytes_view((#[trigger] headers@[k]).1)
                    == record.header_views()[k].value,
            forall|k: int| 0 <= k < i ==> !header_holds(#[trigger] record.header_views()[k], needle@),
        decreases headers.len() - i,
    {
        let (name, value) = headers[i];
        if contains_ignore_ascii_case(name.as_bytes(), needle) || holds(value, needle) {
            assert(header_holds(record.header_views()[i as int], needle@));
            return true;
        }
        i = i + 1;
    }
    false
}

/// A search with a query's term does not see the case of ASCII letters: the bytes
/// searched can be in any case, and so can the query.
pub proof fn the_search_ignores_ascii_case(haystack: Seq<u8>, query: Seq<u8>)
    ensures
        holds_term(haystack, lowered(query)) == holds_term(lowered(haystack), lowered(query)),
        holds_term(haystack, lowered(query)) == exists|i: int| #[trigger] folded_at(haystack, query, i),
{
    let needle = lowered(query);
    let low = lowered(haystack);
    assert(forall|b: u8| #[trigger] lower(lower(b)) == lower(b));
    assert(forall|b: u8, c: u8| #![trigger lower(b), upper(c)] lower(b) == c ==> b == c || b == upper(c));
    assert forall|i: int| #[trigger] term_at(haystack, needle, i) implies term_at(low, needle, i) && folded_at(
        haystack,
        query,
        i,
    ) by {
        assert forall|k: int| 0 <= k < needle.len() implies lower(low[i + k]) == lower(#[trigger] needle[k]) by {
            assert(low[i + k] == lower(haystack[i + k]));
        }
        assert forall|k: int| 0 <= k < query.len() implies lower(haystack[i + k]) == lower(#[trigger] query[k]) by {
            assert(needle[k] == lower(query[k]));
        }
        if needle.len() > 0 {
            assert(lower(haystack[i + 0]) == lower(needle[0]));
            assert(needle[0] == lower(query[0]));
            assert(low[i] == lower(haystack[i]));
        }
    }
    assert forall|i: int| #[trigger] term_at(low, needle, i) implies folded_at(haystack, query, i) by {
        assert forall|k: int| 0 <= k < query.len() implies lower(haystack[i + k]) == lower(#[trigger] query[k]) by {
            assert(needle[k] == lower(query[k]));
            assert(low[i + k] == lower(haystack[i + k]));
        }
    }
    assert forall|i: int| #[trigger] folded_at(haystack, query, i) implies term_at(haystack, needle, i) by {
        assert forall|k: int| 0 <= k < needle.len() implies lower(haystack[i + k]) == lower(#[trigger] needle[k]) by {
            assert(needle[k] == lower(query[k]));
            assert(lower(haystack[i + k]) == lower(query[k]));
        }
        if needle.len() > 0 {
            assert(lower(haystack[i + 0]) == lower(query[0]));
            assert(lower(haystack[i]) == needle[0]);
        }
    }
}

/// Whether a query stands at a place when both are in lower case.
pub open spec fn folded_at(haystack: Seq<u8>, query: Seq<u8>, i: int) -> bool {
    &&& 0 <= i
    &&& i + query.len() <= haystack.len()
    &&& forall|k: int| 0 <= k < query.len() ==> lower(haystack[i + k]) == lower(#[trigger] query[k])
}

/// A query is found where it stands in bytes, in any case of its ASCII letters.
pub proof fn a_query_is_found_where_it_stands(before: Seq<u8>, part: Seq<u8>, behind: Seq<u8>, query: Seq<u8>)
    requires
        part.len() == query.len(),
        forall|k: int|
            0 <= k < query.len() ==> #[trigger] part[k] == query[k] || differ_by_case(part[k], query[k]),
    ensures
        holds_term(before + part + behind, lowered(query)),
{
    let all = before + part + behind;
    the_search_ignores_ascii_case(all, query);
    assert forall|k: int| 0 <= k < query.len() implies lower(all[before.len() + k]) == lower(#[trigger] query[k]) by {
        assert(all[before.len() + k] == part[k]);
    }
    assert(folded_at(all, query, before.len() as int));
}

/// Whether two bytes are the same ASCII letter, one small and one capital.
pub open spec fn differ_by_case(a: u8, b: u8) -> bool {
    ||| 'A' as int <= a as int <= 'Z' as int && b == a + 32
    ||| 'A' as int <= b as int <= 'Z' as int && a == b + 32
}

/// What is found stands there: from some place on, each byte is that of the query, or the
/// same letter in the other case.
pub proof fn what_is_found_stands_there(haystack: Seq<u8>, query: Seq<u8>)
    requires
        holds_term(haystack, lowered(query)),
    ensures
        exists|i: int| #[trigger]
            folded_at(haystack, query, i) && 0 <= i <= haystack.len() - query.len() && forall|k: int|
                0 <= k < query.len() ==> haystack[i + k] == #[trigger] query[k] || differ_by_case(
                    haystack[i + k],
                    query[k],
                ),
{
    the_search_ignores_ascii_case(haystack, query);
    let i = choose|i: int| #[trigger] folded_at(haystack, query, i);
    assert forall|k: int| 0 <= k < query.len() implies haystack[i + k] == #[trigger] query[k] || differ_by_case(
        haystack[i + k],
        query[k],
    ) by {
        assert(lower(haystack[i + k]) == lower(query[k]));
    }
}

/// A message is found by a term exactly where the term stands in its value, in its key, or in
/// the name or the value of one of its headers. A part that is not there holds nothing.
pub proof fn a_message_is_found_by_each_of_its_parts(record: MessageRecord, term: Seq<u8>)
    ensures
        record.value_bytes() matches Some(value) ==> (holds_term(value, term) ==> message_holds(record, term)),
        record.key_bytes() matches Some(key) ==> (holds_term(key, term) ==> message_holds(record, term)),
        forall|i: int|
            0 <= i < record.header_views().len() && holds_term(
                encode_utf8((#[trigger] record.header_views()[i]).name),
                term,
            ) ==> message_holds(record, term),
        forall|i: int|
            0 <= i < record.header_views().len() ==> ((#[trigger] record.header_views()[i]).value matches Some(value)
                ==> (holds_term(value, term) ==> message_holds(record, term))),
        record.value_bytes() is None && record.key_bytes() is None && record.header_views().len() == 0
            ==> !message_holds(record, term),
        message_holds(record, term) ==> {
            ||| record.value_bytes() matches Some(value) && holds_term(value, term)
            ||| record.key_bytes() matches Some(key) && holds_term(key, term)
            ||| exists|i: int|
                0 <= i < record.header_views().len() && {
                    let header = #[trigger] record.header_views()[i];
                    ||| holds_term(encode_utf8(header.name), term)
                    ||| header.value matches Some(value) && holds_term(value, term)
                }
        },
{
    assert forall|i: int|
        0 <= i < record.header_views().len() && holds_term(
            encode_utf8((#[trigger] record.header_views()[i]).name),
            term,
        ) implies message_holds(record, term) by {
        assert(header_holds(record.header_views()[i], term));
    }
    assert forall|i: int| 0 <= i < record.header_views().len() implies ((#[trigger] record.header_views()[i]).value matches Some(
        value,
    ) ==> (holds_term(value, term) ==> message_holds(record, term))) by {
        if record.header_views()[i].value is Some && holds_term(record.header_views()[i].value->0, term) {
            assert(header_holds(record.header_views()[i], term));
        }
    }
    if message_holds(record, term) && !part_holds(record.value_bytes(), term) && !part_holds(record.key_bytes(), term) {
        let i = choose|i: int|
            0 <= i < record.header_views().len() && header_holds(#[trigger] record.header_views()[i], term);
        let header = record.header_views()[i];
        assert(header_holds(header, term));
    }
}

/// A query that was typed is found where it stands, whatever the case of its letters; nothing is
/// searched for where nothing is typed.
pub proof fn a_typed_query_is_found(
    query: &str,
    term: Option<Vec<u8>>,
    haystack: &[u8],
    needle_bytes: &[u8],
    before: Seq<u8>,
    part: Seq<u8>,
    behind: Seq<u8>,
    found: bool,
)
    requires
        call_ensures(needle, (query,), term),
        query@.len() > 0,
        haystack@ == before + part + behind,
        part.len() == encode_utf8(query@).len(),
        forall|k: int|
            0 <= k < part.len() ==> #[trigger] part[k] == encode_utf8(query@)[k] || differ_by_case(
                part[k],
                encode_utf8(query@)[k],
            ),
        term is Some ==> needle_bytes@ == term->0@,
        call_ensures(contains_ignore_ascii_case, (haystack, needle_bytes), found),
    ensures
        term is Some,
        found,
{
    a_query_is_found_where_it_stands(before, part, behind, encode_utf8(query@));
}

/// A message is found by its value, by its key and by the names of its headers.
pub proof fn a_message_is_found_by_its_parts(record: &MessageRecord, term: &[u8], found: bool)
    requires
        call_ensures(matches, (record, term), found),
    ensures
        record.value_bytes() matches Some(value) ==> (holds_term(value, term@) ==> found),
        record.key_bytes() matches Some(key) ==> (holds_term(key, term@) ==> found),
        forall|i: int|
            0 <= i < record.header_views().len() && holds_term(
                encode_utf8((#[trigger] record.header_views()[i]).name),
                term@,
            ) ==> found,
        record.value_bytes() is None && record.key_bytes() is None && record.header_views().len() == 0 ==> !found,
{
    a_message_is_found_by_each_of_its_parts(*record, term@);
}

} // verus!
