//! The tokens of JSON text, and JSON in a readable layout.

use std::ops::Range;

use vstd::prelude::*;
use vstd::utf8::{
    encode_utf8, encode_utf8_valid_utf8, is_char_boundary,
    is_char_boundary_start_end_of_seq, length_of_first_scalar, pop_first_scalar, valid_utf8,
};

verus! {

#[derive(Debug, Clone, Copy, PartialEq, Eq, Structural)]
pub enum JsonToken {
    Key,
    Str,
    Number,
    Boolean,
    Null,
    Punctuation,
}

/// A token: where it starts, where it ends, and what it is.
pub struct Token {
    pub start: int,
    pub end: int,
    pub kind: JsonToken,
}

/// White space in ASCII.
pub open spec fn is_space(b: u8) -> bool {
    b == 0x20 || b == 0x09 || b == 0x0a || b == 0x0c || b == 0x0d
}

pub open spec fn is_number_byte(b: u8) -> bool {
    0x30 <= b <= 0x39 || b == 0x2e || b == 0x65 || b == 0x45 || b == 0x2b || b == 0x2d
}

pub open spec fn is_letter(b: u8) -> bool {
    0x41 <= b <= 0x5a || 0x61 <= b <= 0x7a
}

/// Braces, brackets, the colon and the comma.
pub open spec fn is_punctuation(b: u8) -> bool {
    b == 0x7b || b == 0x7d || b == 0x5b || b == 0x5d || b == 0x3a || b == 0x2c
}

/// Where a string ends whose inside is read from a place on: behind the next quote
/// that no backslash stands before, or at the end of the text.
pub open spec fn string_end(b: Seq<u8>, i: int) -> int
    decreases b.len() + 2 - i,
{
    if i >= b.len() {
        b.len() as int
    } else if b[i] == 0x5c {
        string_end(b, i + 2)
    } else if b[i] == 0x22 {
        i + 1
    } else {
        string_end(b, i + 1)
    }
}

/// The first place from a place on that holds no white space.
pub open spec fn space_end(b: Seq<u8>, i: int) -> int
    decreases b.len() - i,
{
    if i < b.len() && is_space(b[i]) {
        space_end(b, i + 1)
    } else {
        i
    }
}

/// The first place from a place on that holds nothing of a number.
pub open spec fn number_end(b: Seq<u8>, i: int) -> int
    decreases b.len() - i,
{
    if i < b.len() && is_number_byte(b[i]) {
        number_end(b, i + 1)
    } else {
        i
    }
}

/// The first place from a place on that holds no letter.
pub open spec fn word_end(b: Seq<u8>, i: int) -> int
    decreases b.len() - i,
{
    if i < b.len() && is_letter(b[i]) {
        word_end(b, i + 1)
    } else {
        i
    }
}

/// What a word is: `true`, `false` or `null`, and nothing else counts.
pub open spec fn word_kind(word: Seq<u8>) -> Option<JsonToken> {
    if word == seq![0x74u8, 0x72, 0x75, 0x65] || word == seq![0x66u8, 0x61, 0x6c, 0x73, 0x65] {
        Some(JsonToken::Boolean)
    } else if word == seq![0x6eu8, 0x75, 0x6c, 0x6c] {
        Some(JsonToken::Null)
    } else {
        None
    }
}

/// What is read at a place: the place behind it, and the token where it is one. A
/// string with a colon behind it is a key.
pub open spec fn read_at(b: Seq<u8>, i: int) -> (int, Option<JsonToken>) {
    let c = b[i];
    if c == 0x22 {
        let end = string_end(b, i + 1);
        let next = space_end(b, end);
        if next < b.len() && b[next] == 0x3a {
            (end, Some(JsonToken::Key))
        } else {
            (end, Some(JsonToken::Str))
        }
    } else if c == 0x2d || 0x30 <= c <= 0x39 {
        (number_end(b, i + 1), Some(JsonToken::Number))
    } else if c == 0x74 || c == 0x66 || c == 0x6e {
        (word_end(b, i), word_kind(b.subrange(i, word_end(b, i))))
    } else if is_punctuation(c) {
        (i + 1, Some(JsonToken::Punctuation))
    } else {
        (i + 1, None)
    }
}

/// The tokens from a place on.
pub open spec fn tokens_from(b: Seq<u8>, i: int) -> Seq<Token>
    decreases b.len() - i,
{
    if i < 0 || i >= b.len() {
        Seq::empty()
    } else {
        proof {
            reading_goes_on(b, i);
        }
        let (end, kind) = read_at(b, i);
        match kind {
            Some(kind) => seq![Token { start: i, end, kind }] + tokens_from(b, end),
            None => tokens_from(b, end),
        }
    }
}

/// What is read at a place is not empty and ends in the text.
pub proof fn reading_goes_on(b: Seq<u8>, i: int)
    requires
        0 <= i < b.len(),
    ensures
        i < read_at(b, i).0 <= b.len(),
{
    string_end_is_behind(b, i + 1);
    number_end_is_behind(b, i + 1);
    word_end_is_behind(b, i);
    if is_letter(b[i]) {
        word_end_is_behind(b, i + 1);
    }
}

proof fn string_end_is_behind(b: Seq<u8>, i: int)
    requires
        0 <= i,
    ensures
        string_end(b, i) <= b.len(),
        i <= b.len() ==> i <= string_end(b, i),
        string_end(b, i) == b.len() || (0 < string_end(b, i) && b[string_end(b, i) - 1] == 0x22),
    decreases b.len() + 2 - i,
{
    if i < b.len() {
        if b[i] == 0x5c {
            string_end_is_behind(b, i + 2);
        } else if b[i] != 0x22 {
            string_end_is_behind(b, i + 1);
        }
    }
}

proof fn number_end_is_behind(b: Seq<u8>, i: int)
    requires
        0 <= i <= b.len(),
    ensures
        i <= number_end(b, i) <= b.len(),
        forall|k: int| i <= k < number_end(b, i) ==> is_number_byte(b[k]),
    decreases b.len() - i,
{
    if i < b.len() && is_number_byte(b[i]) {
        number_end_is_behind(b, i + 1);
    }
}

proof fn word_end_is_behind(b: Seq<u8>, i: int)
    requires
        0 <= i <= b.len(),
    ensures
        i <= word_end(b, i) <= b.len(),
        forall|k: int| i <= k < word_end(b, i) ==> is_letter(b[k]),
    decreases b.len() - i,
{
    if i < b.len() && is_letter(b[i]) {
        word_end_is_behind(b, i + 1);
    }
}

/// Tokens as places and kinds.
pub open spec fn token_views(tokens: Seq<(Range<usize>, JsonToken)>) -> Seq<Token> {
    tokens.map_values(
        |t: (Range<usize>, JsonToken)| Token { start: t.0.start as int, end: t.0.end as int, kind: t.1 },
    )
}

fn find_string_end(b: &[u8], from: usize) -> (end: usize)
    requires
        from <= b@.len(),
    ensures
        end == string_end(b@, from as int),
        from <= end <= b@.len(),
{
    proof {
        string_end_is_behind(b@, from as int);
    }
    let n: usize = b.len();
    let mut i: usize = from;
    while i < n
        invariant
            n == b@.len(),
            from <= i <= n,
            from <= string_end(b@, from as int) <= n,
            string_end(b@, from as int) == string_end(b@, i as int),
        decreases n - i,
    {
        if b[i] == 0x5c {
            if n - i < 2 {
                assert(string_end(b@, i + 2) == b@.len());
                return n;
            }
            i = i + 2;
        } else if b[i] == 0x22 {
            return i + 1;
        } else {
            i = i + 1;
        }
    }
    n
}

fn string_is_key(b: &[u8], end: usize) -> (key: bool)
    requires
        end <= b@.len(),
    ensures
        key == (space_end(b@, end as int) < b@.len() && b@[space_end(b@, end as int)] == 0x3a),
{
    let mut i: usize = end;
    while i < b.len() && (b[i] == 0x20 || b[i] == 0x09 || b[i] == 0x0a || b[i] == 0x0c || b[i] == 0x0d)
        invariant
            end <= i <= b@.len(),
            space_end(b@, end as int) == space_end(b@, i as int),
        decreases b.len() - i,
    {
        i = i + 1;
    }
    i < b.len() && b[i] == 0x3a
}

fn find_number_end(b: &[u8], from: usize) -> (end: usize)
    requires
        from <= b@.len(),
    ensures
        end == number_end(b@, from as int),
        from <= end <= b@.len(),
{
    let mut i: usize = from;
    while i < b.len() && ((b[i] >= 0x30 && b[i] <= 0x39) || b[i] == 0x2e || b[i] == 0x65 || b[i] == 0x45 || b[i] == 0x2b
        || b[i] == 0x2d)
        invariant
            from <= i <= b@.len(),
            number_end(b@, from as int) == number_end(b@, i as int),
        decreases b.len() - i,
    {
        i = i + 1;
    }
    i
}

fn find_word_end(b: &[u8], from: usize) -> (end: usize)
    requires
        from <= b@.len(),
    ensures
        end == word_end(b@, from as int),
        from <= end <= b@.len(),
{
    let mut i: usize = from;
    while i < b.len() && ((b[i] >= 0x41 && b[i] <= 0x5a) || (b[i] >= 0x61 && b[i] <= 0x7a))
        invariant
            from <= i <= b@.len(),
            word_end(b@, from as int) == word_end(b@, i as int),
        decreases b.len() - i,
    {
        i = i + 1;
    }
    i
}

fn kind_of_word(word: &[u8]) -> (kind: Option<JsonToken>)
    ensures
        kind == word_kind(word@),
{
    let n: usize = word.len();
    if n == 4 && word[0] == 0x74 && word[1] == 0x72 && word[2] == 0x75 && word[3] == 0x65 {
        assert(word@ =~= seq![0x74u8, 0x72, 0x75, 0x65]);
        Some(JsonToken::Boolean)
    } else if n == 5 && word[0] == 0x66 && word[1] == 0x61 && word[2] == 0x6c && word[3] == 0x73 && word[4] == 0x65 {
        assert(word@ =~= seq![0x66u8, 0x61, 0x6c, 0x73, 0x65]);
        Some(JsonToken::Boolean)
    } else if n == 4 && word[0] == 0x6e && word[1] == 0x75 && word[2] == 0x6c && word[3] == 0x6c {
        assert(word@ =~= seq![0x6eu8, 0x75, 0x6c, 0x6c]);
        Some(JsonToken::Null)
    } else {
        None
    }
}

fn read_token(b: &[u8], i: usize) -> (read: (usize, Option<JsonToken>))
    requires
        i < b@.len(),
    ensures
        read.0 == read_at(b@, i as int).0,
        read.1 == read_at(b@, i as int).1,
        i < read.0 <= b@.len(),
{
    proof {
        reading_goes_on(b@, i as int);
    }
    let c: u8 = b[i];
    if c == 0x22 {
        let end: usize = find_string_end(b, i + 1);
        if string_is_key(b, end) {
            (end, Some(JsonToken::Key))
        } else {
            (end, Some(JsonToken::Str))
        }
    } else if c == 0x2d || (c >= 0x30 && c <= 0x39) {
        (find_number_end(b, i + 1), Some(JsonToken::Number))
    } else if c == 0x74 || c == 0x66 || c == 0x6e {
        let end: usize = find_word_end(b, i);
        (end, kind_of_word(vstd::slice::slice_subrange(b, i, end)))
    } else if c == 0x7b || c == 0x7d || c == 0x5b || c == 0x5d || c == 0x3a || c == 0x2c {
        (i + 1, Some(JsonToken::Punctuation))
    } else {
        (i + 1, None)
    }
}

/// The tokens of JSON text, each with the bytes that it takes up. Text that is not
/// JSON has tokens too: what fits none is passed over.
pub fn tokenize(text: &str) -> (tokens: Vec<(Range<usize>, JsonToken)>)
    ensures
        token_views(tokens@) == tokens_from(encode_utf8(text@), 0),
{
    let b: &[u8] = text.as_bytes();
    let mut out: Vec<(Range<usize>, JsonToken)> = Vec::new();
    let mut i: usize = 0;
    assert(token_views(out@) + tokens_from(b@, 0) =~= tokens_from(b@, 0));
    while i < b.len()
        invariant
            i <= b@.len(),
            token_views(out@) + tokens_from(b@, i as int) == tokens_from(b@, 0),
        decreases b.len() - i,
    {
        let ghost before = out@;
        let (end, kind) = read_token(b, i);
        match kind {
            Some(kind) => {
                out.push((i..end, kind));
                proof {
                    let token = Token { start: i as int, end: end as int, kind };
                    assert(token_views(out@) =~= token_views(before).push(token));
                    assert(token_views(before) + (seq![token] + tokens_from(b@, end as int))
                        =~= token_views(out@) + tokens_from(b@, end as int));
                }
            },
            None => {},
        }
        i = end;
    }
    assert(token_views(out@) =~= tokens_from(b@, 0));
    out
}

/// The tokens from a place on stand in order, are not empty, do not overlap and lie in
/// the text.
pub proof fn tokens_are_in_order(b: Seq<u8>, i: int)
    requires
        0 <= i,
    ensures
        forall|k: int|
            0 <= k < tokens_from(b, i).len() ==> i <= (#[trigger] tokens_from(b, i)[k]).start < tokens_from(b, i)[k].end
                <= b.len(),
        forall|k: int, l: int|
            #![trigger tokens_from(b, i)[k], tokens_from(b, i)[l]]
            0 <= k < l < tokens_from(b, i).len() ==> tokens_from(b, i)[k].end <= tokens_from(b, i)[l].start,
    decreases b.len() - i,
{
    if i < b.len() {
        reading_goes_on(b, i);
        let (end, kind) = read_at(b, i);
        tokens_are_in_order(b, end);
        if kind is Some {
            let tokens = tokens_from(b, i);
            assert forall|k: int| 0 <= k < tokens.len() implies i <= (#[trigger] tokens[k]).start < tokens[k].end
                <= b.len() by {
                if k > 0 {
                    assert(tokens[k] == tokens_from(b, end)[k - 1]);
                }
            }
            assert forall|k: int, l: int| #![trigger tokens[k], tokens[l]] 0 <= k < l < tokens.len() implies tokens[k].end
                <= tokens[l].start by {
                assert(tokens[l] == tokens_from(b, end)[l - 1]);
                if k > 0 {
                    assert(tokens[k] == tokens_from(b, end)[k - 1]);
                }
            }
        }
    }
}

/// A place behind an ASCII byte is a boundary of a character.
proof fn behind_ascii_is_a_boundary(b: Seq<u8>, k: int)
    requires
        valid_utf8(b),
        0 <= k < b.len(),
        b[k] < 0x80,
    ensures
        is_char_boundary(b, k),
        is_char_boundary(b, k + 1),
    decreases b.len(),
{
    reveal_with_fuel(is_char_boundary, 2);
    if k >= length_of_first_scalar(b) {
        behind_ascii_is_a_boundary(pop_first_scalar(b), k - length_of_first_scalar(b));
    }
}

/// Every token starts and ends between characters, so the text can be cut there.
pub proof fn tokens_are_whole_characters(text: Seq<char>, i: int, k: int)
    requires
        0 <= i,
        0 <= k < tokens_from(encode_utf8(text), i).len(),
    ensures
        is_char_boundary(encode_utf8(text), tokens_from(encode_utf8(text), i)[k].start),
        is_char_boundary(encode_utf8(text), tokens_from(encode_utf8(text), i)[k].end),
    decreases encode_utf8(text).len() - i,
{
    let b = encode_utf8(text);
    encode_utf8_valid_utf8(text);
    reading_goes_on(b, i);
    let (end, kind) = read_at(b, i);
    if kind is None {
        tokens_are_whole_characters(text, end, k);
    } else if k > 0 {
        assert(tokens_from(b, i)[k] == tokens_from(b, end)[k - 1]);
        tokens_are_whole_characters(text, end, k - 1);
    } else {
        behind_ascii_is_a_boundary(b, i);
        is_char_boundary_start_end_of_seq(b);
        string_end_is_behind(b, i + 1);
        number_end_is_behind(b, i + 1);
        word_end_is_behind(b, i);
        if end < b.len() {
            assert(b[end - 1] < 0x80);
            behind_ascii_is_a_boundary(b, end - 1);
        }
    }
}

/// Whether bytes start like an object or an array, behind white space.
pub open spec fn starts_like_json(b: Seq<u8>) -> bool {
    let i = space_end(b, 0);
    i < b.len() && (b[i] == 0x7b || b[i] == 0x5b)
}

pub fn looks_like_json(bytes: &[u8]) -> (like: bool)
    ensures
        like == starts_like_json(bytes@),
{
    let mut i: usize = 0;
    while i < bytes.len() && (bytes[i] == 0x20 || bytes[i] == 0x09 || bytes[i] == 0x0a || bytes[i] == 0x0c
        || bytes[i] == 0x0d)
        invariant
            i <= bytes@.len(),
            space_end(bytes@, 0) == space_end(bytes@, i as int),
        decreases bytes.len() - i,
    {
        i = i + 1;
    }
    i < bytes.len() && (bytes[i] == 0x7b || bytes[i] == 0x5b)
}

/// What `serde_json` makes of bytes when it reads them as JSON and lays out what it read.
pub uninterp spec fn read_and_laid_out(bytes: Seq<u8>) -> Option<Seq<char>>;

/// `serde_json::from_slice` into a value and `serde_json::to_string_pretty` of it: the
/// text is a function of the bytes, and there is none where they are not JSON. The
/// layout itself is not stated.
#[verifier::external_body]
fn pretty_layout(bytes: &[u8]) -> (text: Option<String>)
    ensures
        match text {
            Some(t) => read_and_laid_out(bytes@) == Some(t@),
            None => read_and_laid_out(bytes@) is None,
        },
{
    let value: serde_json::Value = serde_json::from_slice(bytes).ok()?;
    serde_json::to_string_pretty(&value).ok()
}

/// An object or an array in a readable layout, with its keys in their order.
pub fn try_pretty(bytes: &[u8]) -> (text: Option<String>)
    ensures
        match text {
            Some(t) => starts_like_json(bytes@) && read_and_laid_out(bytes@) == Some(t@),
            None => !starts_like_json(bytes@) || read_and_laid_out(bytes@) is None,
        },
{
    if !looks_like_json(bytes) {
        return None;
    }
    pretty_layout(bytes)
}

// ---- laws ----

proof fn a_string_ends_at_its_quote(b: Seq<u8>, i: int, end: int)
    requires
        0 <= i <= end < b.len(),
        b[end] == 0x22,
        forall|k: int| i <= k < end ==> #[trigger] b[k] != 0x22 && b[k] != 0x5c,
    ensures
        string_end(b, i) == end + 1,
    decreases end - i,
{
    if i < end {
        assert(b[i] != 0x22 && b[i] != 0x5c);
        a_string_ends_at_its_quote(b, i + 1, end);
    }
}

/// A string is one token, from its quote to the next one that is not escaped: a key where a
/// colon follows, behind white space or at once, and else a text.
pub proof fn a_string_is_one_token(b: Seq<u8>, i: int, end: int, next: int)
    requires
        0 <= i < end < b.len(),
        b[i] == 0x22,
        b[end] == 0x22,
        forall|k: int| i < k < end ==> #[trigger] b[k] != 0x22 && b[k] != 0x5c,
        end < next <= b.len(),
        forall|k: int| end < k < next ==> #[trigger] b[k] == 0x20 || b[k] == 0x0a,
        next < b.len() ==> b[next] != 0x20 && b[next] != 0x0a && b[next] != 0x09 && b[next] != 0x0c && b[next] != 0x0d,
    ensures
        tokens_from(b, i).len() > 0,
        tokens_from(b, i)[0] == (Token {
            start: i,
            end: end + 1,
            kind: if next < b.len() && b[next] == 0x3a {
                JsonToken::Key
            } else {
                JsonToken::Str
            },
        }),
        tokens_from(b, i).skip(1) == tokens_from(b, end + 1),
{
    a_string_ends_at_its_quote(b, i + 1, end);
    spaces_end_at(b, end + 1, next);
    assert(tokens_from(b, i).skip(1) =~= tokens_from(b, end + 1));
}

proof fn spaces_end_at(b: Seq<u8>, i: int, next: int)
    requires
        0 <= i <= next <= b.len(),
        forall|k: int| i <= k < next ==> is_space(#[trigger] b[k]),
        next < b.len() ==> !is_space(b[next]),
    ensures
        space_end(b, i) == next,
    decreases next - i,
{
    if i < next {
        assert(is_space(b[i]));
        spaces_end_at(b, i + 1, next);
    }
}

/// An escaped character does not end a string.
pub proof fn an_escaped_quote_ends_no_string(b: Seq<u8>, i: int)
    requires
        0 <= i,
        i + 1 < b.len(),
        b[i] == 0x5c,
    ensures
        string_end(b, i) == string_end(b, i + 2),
{
}

/// Digits behind each other are one number, up to a byte that belongs to none.
pub proof fn digits_are_one_number(b: Seq<u8>, i: int, end: int)
    requires
        0 <= i < end <= b.len(),
        forall|k: int| i <= k < end ==> 0x30 <= #[trigger] b[k] <= 0x39,
        end < b.len() ==> b[end] == 0x2c || b[end] == 0x7d || b[end] == 0x5d || b[end] == 0x20 || b[end] == 0x0a,
    ensures
        tokens_from(b, i).len() > 0,
        tokens_from(b, i)[0] == (Token { start: i, end, kind: JsonToken::Number }),
        tokens_from(b, i).skip(1) == tokens_from(b, end),
{
    assert(0x30 <= b[i] <= 0x39);
    a_number_ends_at(b, i + 1, end);
    assert(tokens_from(b, i).skip(1) =~= tokens_from(b, end));
}

proof fn a_number_ends_at(b: Seq<u8>, i: int, end: int)
    requires
        0 <= i <= end <= b.len(),
        forall|k: int| i <= k < end ==> is_number_byte(#[trigger] b[k]),
        end < b.len() ==> !is_number_byte(b[end]),
    ensures
        number_end(b, i) == end,
    decreases end - i,
{
    if i < end {
        assert(is_number_byte(b[i]));
        a_number_ends_at(b, i + 1, end);
    }
}

/// The words of JSON are tokens: true and false, and null; another word is none.
pub proof fn words_are_tokens(word: Seq<u8>)
    ensures
        word_kind(word) == Some(JsonToken::Boolean) <==> word == seq![0x74u8, 0x72, 0x75, 0x65] || word
            == seq![0x66u8, 0x61, 0x6c, 0x73, 0x65],
        word_kind(word) == Some(JsonToken::Null) <==> word == seq![0x6eu8, 0x75, 0x6c, 0x6c],
        word_kind(word) is None ==> word != seq![0x6eu8, 0x75, 0x6c, 0x6c],
{
    let t = seq![0x74u8, 0x72, 0x75, 0x65];
    let f = seq![0x66u8, 0x61, 0x6c, 0x73, 0x65];
    let n = seq![0x6eu8, 0x75, 0x6c, 0x6c];
    assert(t[0] == 0x74 && f[0] == 0x66 && n[0] == 0x6e);
}

/// Braces, brackets, colons and commas are tokens of their own, and white space is none.
pub proof fn punctuation_stands_alone(b: Seq<u8>, i: int)
    requires
        0 <= i < b.len(),
    ensures
        b[i] == 0x7b || b[i] == 0x7d || b[i] == 0x5b || b[i] == 0x5d || b[i] == 0x3a || b[i] == 0x2c ==> tokens_from(
            b,
            i,
        ).len() > 0 && tokens_from(b, i)[0] == (Token { start: i, end: i + 1, kind: JsonToken::Punctuation })
            && tokens_from(b, i).skip(1) == tokens_from(b, i + 1),
        b[i] == 0x20 || b[i] == 0x0a || b[i] == 0x09 || b[i] == 0x0d ==> tokens_from(b, i) == tokens_from(b, i + 1),
{
    if is_punctuation(b[i]) {
        assert(tokens_from(b, i).skip(1) =~= tokens_from(b, i + 1));
    }
}

/// Bytes look like JSON where the first that is no white space opens an object or an array,
/// and only there.
pub proof fn json_starts_with_a_bracket(b: Seq<u8>, i: int)
    requires
        0 <= i <= b.len(),
        forall|k: int| 0 <= k < i ==> #[trigger] b[k] == 0x20 || b[k] == 0x0a || b[k] == 0x09 || b[k] == 0x0d,
        i < b.len() ==> b[i] != 0x20 && b[i] != 0x0a && b[i] != 0x09 && b[i] != 0x0d && b[i] != 0x0c,
    ensures
        starts_like_json(b) <==> i < b.len() && (b[i] == 0x7b || b[i] == 0x5b),
{
    spaces_end_at(b, 0, i);
}

/// A number goes on over its digits, its point, its exponent and their signs, and ends at the
/// first byte that is none of these.
pub proof fn a_number_is_one_token(b: Seq<u8>, i: int, end: int)
    requires
        0 <= i < end <= b.len(),
        b[i] == 0x2d || 0x30 <= b[i] <= 0x39,
        forall|k: int|
            i < k < end ==> 0x30 <= #[trigger] b[k] <= 0x39 || b[k] == 0x2e || b[k] == 0x65 || b[k] == 0x45 || b[k] == 0x2b
                || b[k] == 0x2d,
        end < b.len() ==> !(0x30 <= b[end] <= 0x39) && b[end] != 0x2e && b[end] != 0x65 && b[end] != 0x45 && b[end] != 0x2b
            && b[end] != 0x2d,
    ensures
        tokens_from(b, i).len() > 0,
        tokens_from(b, i)[0] == (Token { start: i, end, kind: JsonToken::Number }),
        tokens_from(b, i).skip(1) == tokens_from(b, end),
{
    a_number_ends_at(b, i + 1, end);
    assert(tokens_from(b, i).skip(1) =~= tokens_from(b, end));
}

/// A word of letters is read as one, and is a token only where it is one of the three that JSON
/// knows.
pub proof fn a_word_is_read_whole(b: Seq<u8>, i: int, end: int)
    requires
        0 <= i < end <= b.len(),
        b[i] == 0x74 || b[i] == 0x66 || b[i] == 0x6e,
        forall|k: int| i <= k < end ==> 0x41 <= #[trigger] b[k] <= 0x5a || 0x61 <= b[k] <= 0x7a,
        end < b.len() ==> !(0x41 <= b[end] <= 0x5a) && !(0x61 <= b[end] <= 0x7a),
    ensures
        word_kind(b.subrange(i, end)) matches Some(kind) ==> tokens_from(b, i).len() > 0 && tokens_from(b, i)[0] == (
        Token { start: i, end, kind }) && tokens_from(b, i).skip(1) == tokens_from(b, end),
        word_kind(b.subrange(i, end)) is None ==> tokens_from(b, i) == tokens_from(b, end),
{
    a_word_ends_at(b, i, end);
    if word_kind(b.subrange(i, end)) is Some {
        assert(tokens_from(b, i).skip(1) =~= tokens_from(b, end));
    }
}

proof fn a_word_ends_at(b: Seq<u8>, i: int, end: int)
    requires
        0 <= i <= end <= b.len(),
        forall|k: int| i <= k < end ==> 0x41 <= #[trigger] b[k] <= 0x5a || 0x61 <= b[k] <= 0x7a,
        end < b.len() ==> !(0x41 <= b[end] <= 0x5a) && !(0x61 <= b[end] <= 0x7a),
    ensures
        word_end(b, i) == end,
    decreases end - i,
{
    if i < end {
        assert(is_letter(b[i]));
        a_word_ends_at(b, i + 1, end);
    }
}

/// A text whose bytes begin with a number is read as one that begins with this number, and what
/// starts with no bracket is no JSON.
pub proof fn a_text_is_read_from_its_start(
    text: &str,
    end: int,
    tokens: Vec<(Range<usize>, JsonToken)>,
    bytes: &[u8],
    like: bool,
    pretty: Option<String>,
)
    requires
        call_ensures(tokenize, (text,), tokens),
        call_ensures(looks_like_json, (bytes,), like),
        call_ensures(try_pretty, (bytes,), pretty),
        0 < end <= encode_utf8(text@).len(),
        forall|k: int| 0 <= k < end ==> 0x30 <= #[trigger] encode_utf8(text@)[k] <= 0x39,
        end < encode_utf8(text@).len() ==> encode_utf8(text@)[end] == 0x2c,
    ensures
        tokens@.len() > 0 && tokens@[0].0.start == 0 && tokens@[0].0.end == end && tokens@[0].1 is Number,
        bytes@.len() == 0 ==> !like,
        bytes@.len() > 0 && (bytes@[0] == 0x7b || bytes@[0] == 0x5b) ==> like,
        !like ==> pretty is None,
{
    digits_are_one_number(encode_utf8(text@), 0, end);
    assert(token_views(tokens@).len() == tokens@.len());
    assert(token_views(tokens@)[0].start == 0);
    if bytes@.len() == 0 || bytes@[0] == 0x7b || bytes@[0] == 0x5b {
        json_starts_with_a_bracket(bytes@, 0);
    }
}

} // verus!
