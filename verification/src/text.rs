//! Strings as sequences of characters: numbers, white space, lines and order.

use vstd::prelude::*;
use vstd::string::StringExecFns;
use vstd::utf8::{decode_utf8, encode_utf8, encode_utf8_decode_utf8, valid_utf8};

verus! {

/// `String::push` of std appends one character.
pub assume_specification[ String::push ](text: &mut String, c: char)
    ensures
        final(text)@ == old(text)@.push(c),
;

/// `String::from_utf8` of std: bytes become a string exactly where they are valid
/// UTF-8, and the string is what they encode.
#[verifier::external_body]
pub(crate) fn utf8_text(bytes: Vec<u8>) -> (text: Option<String>)
    ensures
        match text {
            Some(t) => valid_utf8(bytes@) && t@ == decode_utf8(bytes@),
            None => !valid_utf8(bytes@),
        },
{
    String::from_utf8(bytes).ok()
}

/// The characters of a string.
pub fn chars_of(text: &str) -> (chars: Vec<char>)
    ensures
        chars@ == text@,
{
    let mut chars: Vec<char> = Vec::new();
    for c in it: text.chars()
        invariant
            it.seq() == text@,
            chars@ == text@.take(it.index()),
    {
        proof {
            assert(text@.take(it.index() + 1) =~= text@.take(it.index()).push(c));
        }
        chars.push(c);
    }
    assert(text@.take(text@.len() as int) =~= text@);
    chars
}

/// The string that holds the given characters.
pub fn string_of(chars: &[char]) -> (text: String)
    ensures
        text@ == chars@,
{
    let mut text = String::new();
    let mut i: usize = 0;
    while i < chars.len()
        invariant
            i <= chars@.len(),
            text@ == chars@.take(i as int),
        decreases chars.len() - i,
    {
        assert(chars@.take(i + 1) =~= chars@.take(i as int).push(chars@[i as int]));
        text.push(chars[i]);
        i = i + 1;
    }
    assert(chars@.take(chars@.len() as int) =~= chars@);
    text
}

/// Two strings with the same encoding are the same.
pub proof fn encodings_differ(a: Seq<char>, b: Seq<char>)
    requires
        encode_utf8(a) == encode_utf8(b),
    ensures
        a == b,
{
    encode_utf8_decode_utf8(a);
    encode_utf8_decode_utf8(b);
}

/// Whether two strings hold the same characters.
pub fn same_text(a: &str, b: &str) -> (same: bool)
    ensures
        same == (a@ == b@),
{
    let left: &[u8] = a.as_bytes();
    let right: &[u8] = b.as_bytes();
    if left.len() != right.len() {
        return false;
    }
    let mut i: usize = 0;
    while i < left.len()
        invariant
            i <= left@.len(),
            left@.len() == right@.len(),
            left@ == encode_utf8(a@),
            right@ == encode_utf8(b@),
            forall|k: int| 0 <= k < i ==> left@[k] == right@[k],
        decreases left.len() - i,
    {
        if left[i] != right[i] {
            return false;
        }
        i = i + 1;
    }
    proof {
        assert(left@ =~= right@);
        encodings_differ(a@, b@);
    }
    true
}

/// Whether two optional strings hold the same characters.
pub fn same_option(a: &Option<String>, b: &Option<String>) -> (same: bool)
    ensures
        same == (option_view(*a) == option_view(*b)),
{
    match (a, b) {
        (Some(left), Some(right)) => same_text(left, right),
        (None, None) => true,
        _ => false,
    }
}

/// The characters of an optional string.
pub open spec fn option_view(text: Option<String>) -> Option<Seq<char>> {
    match text {
        Some(t) => Some(t@),
        None => None,
    }
}

/// The characters of each of a row of strings.
pub open spec fn views(texts: Seq<String>) -> Seq<Seq<char>> {
    texts.map_values(|t: String| t@)
}

/// A copy of an optional string.
pub fn clone_option(text: &Option<String>) -> (copy: Option<String>)
    ensures
        copy == *text,
{
    match text {
        Some(t) => Some(t.clone()),
        None => None,
    }
}

/// One string after the other.
pub fn joined(first: &str, second: &str) -> (text: String)
    ensures
        text@ == first@ + second@,
{
    let mut text = first.to_owned();
    text.append(second);
    text
}

/// Three strings, one after the other.
pub fn joined3(first: &str, second: &str, third: &str) -> (text: String)
    ensures
        text@ == first@ + second@ + third@,
{
    let mut text = first.to_owned();
    text.append(second);
    text.append(third);
    text
}

/// Parts with a separator between each two.
pub open spec fn joined_with(parts: Seq<Seq<char>>, separator: Seq<char>) -> Seq<char>
    decreases parts.len(),
{
    if parts.len() == 0 {
        Seq::empty()
    } else if parts.len() == 1 {
        parts[0]
    } else {
        joined_with(parts.drop_last(), separator) + separator + parts.last()
    }
}

/// Parts with a separator between each two.
pub fn join_all(parts: &Vec<String>, separator: &str) -> (text: String)
    ensures
        text@ == joined_with(views(parts@), separator@),
{
    let ghost all = views(parts@);
    if parts.len() == 0 {
        let text = String::new();
        assert(text@ =~= Seq::empty());
        return text;
    }
    let mut text = parts[0].clone();
    let mut i: usize = 1;
    assert(all.take(1)[0] == parts@[0]@);
    while i < parts.len()
        invariant
            1 <= i <= parts@.len(),
            all == views(parts@),
            text@ == joined_with(all.take(i as int), separator@),
        decreases parts.len() - i,
    {
        assert(all.take(i + 1).drop_last() =~= all.take(i as int));
        assert(all.take(i + 1).last() == parts@[i as int]@);
        text = joined3(&text, separator, &parts[i]);
        i = i + 1;
    }
    assert(all.take(i as int) =~= all);
    text
}

/// One more string at the end of a row is one more at the end of its characters.
pub proof fn views_grow(texts: Seq<String>, text: String)
    ensures
        views(texts.push(text)) == views(texts).push(text@),
{
    assert(views(texts.push(text)) =~= views(texts).push(text@));
}

// ---- digits ----

/// The character of a digit below sixteen.
pub open spec fn digit_char(d: nat) -> char {
    if d < 10 {
        (d + '0' as nat) as char
    } else {
        (d - 10 + 'a' as nat) as char
    }
}

/// A number in the given base, without leading zeros.
pub open spec fn digits(n: nat, base: nat) -> Seq<char>
    decreases n,
{
    if base < 2 || n < base {
        seq![digit_char(n)]
    } else {
        proof {
            assert(n / base < n) by (nonlinear_arith)
                requires
                    base >= 2,
                    n >= base,
            ;
        }
        digits(n / base, base).push(digit_char(n % base))
    }
}

/// An integer in decimal, with a sign where it is negative.
pub open spec fn decimal(n: int) -> Seq<char> {
    if n < 0 {
        seq!['-'] + digits((-n) as nat, 10)
    } else {
        digits(n as nat, 10)
    }
}

/// A number in hexadecimal, in lower case.
pub open spec fn hex(n: nat) -> Seq<char> {
    digits(n, 16)
}

fn digit_to_char(d: u8) -> (c: char)
    requires
        d < 16,
    ensures
        c == digit_char(d as nat),
{
    if d < 10 {
        (48u8 + d) as char
    } else {
        (97u8 + (d - 10)) as char
    }
}

fn digits_of(n: u128, base: u128) -> (text: String)
    requires
        2 <= base <= 16,
    ensures
        text@ == digits(n as nat, base as nat),
    decreases n,
{
    if n < base {
        let mut text = String::new();
        text.push(digit_to_char(n as u8));
        assert(text@ =~= seq![digit_char(n as nat)]);
        text
    } else {
        proof {
            assert(n / base < n && n % base < base) by (nonlinear_arith)
                requires
                    base >= 2,
                    n >= base,
            ;
        }
        let mut text = digits_of(n / base, base);
        text.push(digit_to_char((n % base) as u8));
        text
    }
}

/// An integer in decimal.
pub fn decimal_text(n: i128) -> (text: String)
    requires
        n > i128::MIN,
    ensures
        text@ == decimal(n as int),
{
    if n < 0 {
        let mut text = "-".to_owned();
        proof {
            reveal_strlit("-");
            assert("-"@ =~= seq!['-']);
        }
        text.append(&digits_of((-n) as u128, 10));
        text
    } else {
        digits_of(n as u128, 10)
    }
}

/// A number in hexadecimal.
pub fn hex_text(n: u128) -> (text: String)
    ensures
        text@ == hex(n as nat),
{
    digits_of(n, 16)
}

/// The value of a row of decimal digits.
pub open spec fn digits_value(s: Seq<char>) -> nat
    decreases s.len(),
{
    if s.len() == 0 {
        0
    } else {
        digits_value(s.drop_last()) * 10 + (s.last() as nat - '0' as nat) as nat
    }
}

pub open spec fn is_digit(c: char) -> bool {
    '0' <= c <= '9'
}

pub open spec fn all_digits(s: Seq<char>) -> bool {
    forall|i: int| 0 <= i < s.len() ==> is_digit(#[trigger] s[i])
}

/// What a string says as an integer between two bounds: a sign, where there is
/// one, and at least one digit. A minus is a sign only where the lower bound is
/// negative.
pub open spec fn parsed_int(s: Seq<char>, min: int, max: int) -> Option<int> {
    let signed = s.len() > 0 && (s[0] == '+' || (s[0] == '-' && min < 0));
    let body = if signed { s.skip(1) } else { s };
    let value = if signed && s[0] == '-' { -digits_value(body) } else { digits_value(body) as int };
    if body.len() > 0 && all_digits(body) && min <= value <= max {
        Some(value)
    } else {
        None
    }
}

proof fn digits_value_grows(s: Seq<char>, i: int)
    requires
        0 <= i <= s.len(),
    ensures
        digits_value(s.take(i)) <= digits_value(s),
    decreases s.len() - i,
{
    if i < s.len() {
        digits_value_grows(s, i + 1);
        assert(s.take(i + 1).drop_last() =~= s.take(i));
    } else {
        assert(s.take(i) =~= s);
    }
}

/// The value of the digits from a position on, where all are digits and the value
/// is no more than a limit.
fn bounded_value(chars: &[char], from: usize, limit: u128) -> (value: Option<u128>)
    requires
        from <= chars@.len(),
        limit <= 0xffff_ffff_ffff_ffff,
    ensures
        ({
            let body = chars@.skip(from as int);
            if all_digits(body) && digits_value(body) <= limit {
                value matches Some(v) && v == digits_value(body)
            } else {
                value is None
            }
        }),
{
    let ghost body = chars@.skip(from as int);
    let mut value: u128 = 0;
    let mut i: usize = from;
    while i < chars.len()
        invariant
            from <= i <= chars@.len(),
            limit <= 0xffff_ffff_ffff_ffff,
            value <= limit,
            body == chars@.skip(from as int),
            value == digits_value(body.take(i - from)),
            forall|k: int| 0 <= k < i - from ==> is_digit(body[k]),
        decreases chars.len() - i,
    {
        let c = chars[i];
        assert(c == body[i - from]);
        if c < '0' || c > '9' {
            return None;
        }
        assert(body.take(i - from + 1).drop_last() =~= body.take(i - from));
        proof {
            digits_value_grows(body, i - from + 1);
        }
        value = value * 10 + (c as u32 - '0' as u32) as u128;
        if value > limit {
            return None;
        }
        i = i + 1;
    }
    assert(body.take(i - from) =~= body);
    Some(value)
}

/// An `i64`, as `str::parse` reads it.
pub fn parse_i64(text: &str) -> (value: Option<i64>)
    ensures
        match value {
            Some(v) => parsed_int(text@, i64::MIN as int, i64::MAX as int) == Some(v as int),
            None => parsed_int(text@, i64::MIN as int, i64::MAX as int) is None,
        },
{
    let chars = chars_of(text);
    if chars.len() == 0 {
        return None;
    }
    let negative = chars[0] == '-';
    let from: usize = if negative || chars[0] == '+' { 1 } else { 0 };
    if from == chars.len() {
        return None;
    }
    assert(from == 0 ==> chars@.skip(0) =~= chars@);
    let limit: u128 = if negative { 0x8000_0000_0000_0000 } else { 0x7fff_ffff_ffff_ffff };
    match bounded_value(&chars, from, limit) {
        Some(v) => {
            if negative {
                let n: i128 = -(v as i128);
                Some(n as i64)
            } else {
                Some(v as i64)
            }
        },
        None => None,
    }
}

/// An `i32`, as `str::parse` reads it.
pub fn parse_i32(text: &str) -> (value: Option<i32>)
    ensures
        match value {
            Some(v) => parsed_int(text@, i32::MIN as int, i32::MAX as int) == Some(v as int),
            None => parsed_int(text@, i32::MIN as int, i32::MAX as int) is None,
        },
{
    match parse_i64(text) {
        Some(v) => {
            if v >= i32::MIN as i64 && v <= i32::MAX as i64 {
                Some(v as i32)
            } else {
                None
            }
        },
        None => None,
    }
}

/// A `u64`, as `str::parse` reads it.
pub fn parse_u64(text: &str) -> (value: Option<u64>)
    ensures
        match value {
            Some(v) => parsed_int(text@, 0, u64::MAX as int) == Some(v as int),
            None => parsed_int(text@, 0, u64::MAX as int) is None,
        },
{
    let chars = chars_of(text);
    if chars.len() == 0 {
        return None;
    }
    let from: usize = if chars[0] == '+' { 1 } else { 0 };
    if from == chars.len() {
        return None;
    }
    assert(from == 0 ==> chars@.skip(0) =~= chars@);
    match bounded_value(&chars, from, u64::MAX as u128) {
        Some(v) => Some(v as u64),
        None => None,
    }
}

/// A `usize`, as `str::parse` reads it.
pub fn parse_usize(text: &str) -> (value: Option<usize>)
    ensures
        match value {
            Some(v) => parsed_int(text@, 0, usize::MAX as int) == Some(v as int),
            None => parsed_int(text@, 0, usize::MAX as int) is None,
        },
{
    match parse_u64(text) {
        Some(v) => {
            if v <= usize::MAX as u64 {
                Some(v as usize)
            } else {
                None
            }
        },
        None => None,
    }
}

proof fn digit_chars_are_digits(d: nat)
    requires
        d < 10,
    ensures
        is_digit(digit_char(d)),
        digit_char(d) as nat - '0' as nat == d,
{
}

proof fn digits_are_read_back(n: nat)
    ensures
        all_digits(digits(n, 10)),
        digits(n, 10).len() > 0,
        digits_value(digits(n, 10)) == n,
    decreases n,
{
    if n < 10 {
        digit_chars_are_digits(n);
        assert(digits(n, 10).drop_last() =~= Seq::<char>::empty());
        assert(digits_value(Seq::<char>::empty()) == 0);
        assert(digits_value(digits(n, 10)) == digits_value(digits(n, 10).drop_last()) * 10 + n);
    } else {
        digits_are_read_back(n / 10);
        digit_chars_are_digits(n % 10);
        assert(digits(n, 10).drop_last() =~= digits(n / 10, 10));
    }
}

/// An integer that was written in decimal is read back as it was.
pub proof fn decimal_is_read_back(n: int, min: int, max: int)
    requires
        min <= n <= max,
    ensures
        parsed_int(decimal(n), min, max) == Some(n),
{
    if n < 0 {
        digits_are_read_back((-n) as nat);
        assert(decimal(n).skip(1) =~= digits((-n) as nat, 10));
    } else {
        digits_are_read_back(n as nat);
        assert(is_digit(decimal(n)[0]));
    }
}

// ---- white space ----

/// The characters with Unicode's `White_Space` property.
pub open spec fn is_white(c: char) -> bool {
    let n = c as u32;
    ||| 0x9 <= n <= 0xd
    ||| n == 0x20
    ||| n == 0x85
    ||| n == 0xa0
    ||| n == 0x1680
    ||| 0x2000 <= n <= 0x200a
    ||| n == 0x2028
    ||| n == 0x2029
    ||| n == 0x202f
    ||| n == 0x205f
    ||| n == 0x3000
}

pub fn char_is_white(c: char) -> (white: bool)
    ensures
        white == is_white(c),
{
    let n: u32 = c as u32;
    (n >= 0x9 && n <= 0xd) || n == 0x20 || n == 0x85 || n == 0xa0 || n == 0x1680
        || (n >= 0x2000 && n <= 0x200a) || n == 0x2028 || n == 0x2029 || n == 0x202f
        || n == 0x205f || n == 0x3000
}

/// A string without the white space that it starts with.
pub open spec fn trim_start(s: Seq<char>) -> Seq<char>
    decreases s.len(),
{
    if s.len() > 0 && is_white(s[0]) {
        trim_start(s.skip(1))
    } else {
        s
    }
}

/// A string without the white space that it ends with.
pub open spec fn trim_end(s: Seq<char>) -> Seq<char>
    decreases s.len(),
{
    if s.len() > 0 && is_white(s.last()) {
        trim_end(s.drop_last())
    } else {
        s
    }
}

/// A string without the white space around it.
pub open spec fn trim(s: Seq<char>) -> Seq<char> {
    trim_end(trim_start(s))
}

pub fn trim_start_chars(chars: &[char]) -> (kept: Vec<char>)
    ensures
        kept@ == trim_start(chars@),
{
    let mut i: usize = 0;
    assert(chars@.skip(0) =~= chars@);
    while i < chars.len() && char_is_white(chars[i])
        invariant
            i <= chars@.len(),
            trim_start(chars@) == trim_start(chars@.skip(i as int)),
        decreases chars.len() - i,
    {
        assert(chars@.skip(i as int).skip(1) =~= chars@.skip(i + 1));
        i = i + 1;
    }
    assert(chars@.skip(i as int) =~= chars@.subrange(i as int, chars@.len() as int));
    vstd::slice::slice_to_vec(vstd::slice::slice_subrange(chars, i, chars.len()))
}

pub fn trim_end_chars(chars: &[char]) -> (kept: Vec<char>)
    ensures
        kept@ == trim_end(chars@),
{
    let mut i: usize = chars.len();
    assert(chars@.take(i as int) =~= chars@);
    while i > 0 && char_is_white(chars[i - 1])
        invariant
            i <= chars@.len(),
            trim_end(chars@) == trim_end(chars@.take(i as int)),
        decreases i,
    {
        assert(chars@.take(i as int).drop_last() =~= chars@.take(i - 1));
        i = i - 1;
    }
    assert(chars@.take(i as int) =~= chars@.subrange(0, i as int));
    vstd::slice::slice_to_vec(vstd::slice::slice_subrange(chars, 0, i))
}

pub fn trim_chars(chars: &[char]) -> (kept: Vec<char>)
    ensures
        kept@ == trim(chars@),
{
    let start = trim_start_chars(chars);
    trim_end_chars(&start)
}

/// A string without the white space around it.
pub fn trimmed(text: &str) -> (kept: String)
    ensures
        kept@ == trim(text@),
{
    let chars = chars_of(text);
    string_of(&trim_chars(&chars))
}

/// What is left after trimming neither starts nor ends with white space.
pub proof fn a_trimmed_string_has_no_outer_white(s: Seq<char>)
    ensures
        trim(s).len() > 0 ==> !is_white(trim(s)[0]) && !is_white(trim(s).last()),
{
    trim_start_stops(s);
    trim_end_stops(trim_start(s));
}

proof fn trim_start_stops(s: Seq<char>)
    ensures
        trim_start(s).len() > 0 ==> !is_white(trim_start(s)[0]),
    decreases s.len(),
{
    if s.len() > 0 && is_white(s[0]) {
        trim_start_stops(s.skip(1));
    }
}

proof fn trim_end_stops(s: Seq<char>)
    ensures
        trim_end(s).len() > 0 ==> !is_white(trim_end(s).last()),
        trim_end(s).len() <= s.len(),
        trim_end(s) == s.take(trim_end(s).len() as int),
    decreases s.len(),
{
    if s.len() > 0 && is_white(s.last()) {
        trim_end_stops(s.drop_last());
        assert(s.drop_last().take(trim_end(s).len() as int) =~= s.take(trim_end(s).len() as int));
    } else {
        assert(s.take(s.len() as int) =~= s);
    }
}

// ---- searching ----

/// The first place of a character from a position on, or the end.
pub open spec fn place_from(s: Seq<char>, c: char, i: int) -> int
    decreases s.len() - i,
{
    if i >= s.len() {
        s.len() as int
    } else if s[i] == c {
        i
    } else {
        place_from(s, c, i + 1)
    }
}

pub proof fn place_from_is_first(s: Seq<char>, c: char, i: int)
    requires
        0 <= i <= s.len(),
    ensures
        i <= place_from(s, c, i) <= s.len(),
        place_from(s, c, i) < s.len() ==> s[place_from(s, c, i)] == c,
        forall|k: int| i <= k < place_from(s, c, i) ==> s[k] != c,
    decreases s.len() - i,
{
    if i < s.len() && s[i] != c {
        place_from_is_first(s, c, i + 1);
    }
}

pub fn find_from(chars: &[char], c: char, from: usize) -> (place: usize)
    requires
        from <= chars@.len(),
    ensures
        place == place_from(chars@, c, from as int),
        from <= place <= chars@.len(),
{
    proof {
        place_from_is_first(chars@, c, from as int);
    }
    let mut i: usize = from;
    while i < chars.len() && chars[i] != c
        invariant
            from <= i <= chars@.len(),
            place_from(chars@, c, from as int) == place_from(chars@, c, i as int),
        decreases chars.len() - i,
    {
        i = i + 1;
    }
    i
}

/// Whether one string starts with another.
pub open spec fn starts_with(s: Seq<char>, prefix: Seq<char>) -> bool {
    prefix.len() <= s.len() && s.take(prefix.len() as int) == prefix
}

/// Whether one string ends with another.
pub open spec fn ends_with(s: Seq<char>, suffix: Seq<char>) -> bool {
    suffix.len() <= s.len() && s.skip(s.len() - suffix.len()) == suffix
}

pub fn has_prefix(chars: &[char], prefix: &[char]) -> (found: bool)
    ensures
        found == starts_with(chars@, prefix@),
{
    if prefix.len() > chars.len() {
        return false;
    }
    let mut i: usize = 0;
    while i < prefix.len()
        invariant
            i <= prefix@.len() <= chars@.len(),
            forall|k: int| 0 <= k < i ==> chars@[k] == prefix@[k],
        decreases prefix.len() - i,
    {
        if chars[i] != prefix[i] {
            assert(chars@.take(prefix@.len() as int)[i as int] != prefix@[i as int]);
            return false;
        }
        i = i + 1;
    }
    assert(chars@.take(prefix@.len() as int) =~= prefix@);
    true
}

/// Whether a string occurs in another at a place.
pub open spec fn occurs_at(s: Seq<char>, part: Seq<char>, i: int) -> bool {
    0 <= i && i + part.len() <= s.len() && s.subrange(i, i + part.len()) == part
}

/// Whether a string occurs in another.
pub open spec fn contains_text(s: Seq<char>, part: Seq<char>) -> bool {
    exists|i: int| #[trigger] occurs_at(s, part, i)
}

/// Whether one string occurs in another.
pub fn has_part(chars: &[char], part: &[char]) -> (found: bool)
    ensures
        found == contains_text(chars@, part@),
{
    if part.len() > chars.len() {
        return false;
    }
    let size: usize = chars.len();
    let last: usize = size - part.len();
    let mut i: usize = 0;
    while i <= last
        invariant
            part@.len() <= chars@.len(),
            last == chars@.len() - part@.len(),
            chars@.len() <= usize::MAX,
            i <= last + 1,
            forall|k: int| 0 <= k < i ==> !#[trigger] occurs_at(chars@, part@, k),
        decreases last + 1 - i,
    {
        let mut k: usize = 0;
        while k < part.len() && chars[i + k] == part[k]
            invariant
                k <= part@.len() <= chars@.len(),
                i <= last,
                last == chars@.len() - part@.len(),
                chars@.len() <= usize::MAX,
                forall|j: int| 0 <= j < k ==> chars@[i + j] == part@[j],
            decreases part.len() - k,
        {
            k = k + 1;
        }
        if k == part.len() {
            assert(chars@.subrange(i as int, i + part@.len()) =~= part@);
            assert(occurs_at(chars@, part@, i as int));
            return true;
        }
        assert(chars@.subrange(i as int, i + part@.len())[k as int] != part@[k as int]);
        if i == usize::MAX {
            return false;
        }
        i = i + 1;
    }
    false
}

// ---- lines ----

/// A line without the carriage return that it ends with.
pub open spec fn without_return(line: Seq<char>) -> Seq<char> {
    if line.len() > 0 && line.last() == '\r' {
        line.drop_last()
    } else {
        line
    }
}

/// The lines of a string from a position on. A line ends at a line feed, and a
/// carriage return before that belongs to the end.
pub open spec fn lines_from(s: Seq<char>, i: int) -> Seq<Seq<char>>
    decreases s.len() - i,
{
    if i < 0 || i >= s.len() {
        Seq::empty()
    } else {
        proof {
            place_from_is_first(s, '\n', i);
        }
        let end = place_from(s, '\n', i);
        if end == s.len() {
            seq![s.skip(i)]
        } else {
            seq![without_return(s.subrange(i, end))] + lines_from(s, end + 1)
        }
    }
}

/// The lines of a string, as `str::lines` gives them.
pub open spec fn lines(s: Seq<char>) -> Seq<Seq<char>> {
    lines_from(s, 0)
}

/// The characters of each of a row of character vectors.
pub open spec fn char_views(rows: Seq<Vec<char>>) -> Seq<Seq<char>> {
    rows.map_values(|row: Vec<char>| row@)
}

/// The lines of a string.
pub fn lines_of(chars: &[char]) -> (out: Vec<Vec<char>>)
    ensures
        char_views(out@) == lines(chars@),
{
    let mut out: Vec<Vec<char>> = Vec::new();
    let mut i: usize = 0;
    assert(char_views(out@) + lines_from(chars@, 0) =~= lines(chars@));
    while i < chars.len()
        invariant
            i <= chars@.len(),
            char_views(out@) + lines_from(chars@, i as int) == lines(chars@),
        decreases chars.len() - i,
    {
        let end: usize = find_from(chars, '\n', i);
        let ghost before = out@;
        let ghost start = i as int;
        if end == chars.len() {
            let line = vstd::slice::slice_to_vec(vstd::slice::slice_subrange(chars, i, end));
            assert(line@ =~= chars@.skip(i as int));
            out.push(line);
            i = end;
            assert(lines_from(chars@, i as int) =~= Seq::empty());
        } else {
            let stop: usize = if end > i && chars[end - 1] == '\r' { end - 1 } else { end };
            let line = vstd::slice::slice_to_vec(vstd::slice::slice_subrange(chars, i, stop));
            assert(line@ =~= without_return(chars@.subrange(i as int, end as int)));
            out.push(line);
            i = end + 1;
        }
        assert(char_views(out@) =~= char_views(before).push(out@.last()@));
        assert(char_views(out@) + lines_from(chars@, i as int) =~= char_views(before) + lines_from(chars@, start));
    }
    assert(char_views(out@) =~= lines(chars@));
    out
}

// ---- ASCII case ----

/// A character in lower case, where it is an ASCII letter.
pub open spec fn ascii_lower(c: char) -> char {
    if 'A' <= c <= 'Z' {
        (c as u32 + 32) as char
    } else {
        c
    }
}

/// A string with its ASCII letters in lower case.
pub open spec fn ascii_lowered(s: Seq<char>) -> Seq<char> {
    s.map_values(|c: char| ascii_lower(c))
}

/// A string with its ASCII letters in upper case.
pub open spec fn ascii_uppered(s: Seq<char>) -> Seq<char> {
    s.map_values(|c: char| if 'a' <= c <= 'z' { (c as u32 - 32) as char } else { c })
}

fn char_to_lower(c: char) -> (lower: char)
    ensures
        lower == ascii_lower(c),
{
    if c >= 'A' && c <= 'Z' {
        (c as u8 + 32) as char
    } else {
        c
    }
}

fn char_to_upper(c: char) -> (upper: char)
    ensures
        upper == (if 'a' <= c <= 'z' { (c as u32 - 32) as char } else { c }),
{
    if c >= 'a' && c <= 'z' {
        (c as u8 - 32) as char
    } else {
        c
    }
}

pub fn lower_chars(chars: &[char]) -> (lowered: Vec<char>)
    ensures
        lowered@ == ascii_lowered(chars@),
{
    let mut out: Vec<char> = Vec::new();
    let mut i: usize = 0;
    while i < chars.len()
        invariant
            i <= chars@.len(),
            out@ == ascii_lowered(chars@).take(i as int),
        decreases chars.len() - i,
    {
        assert(ascii_lowered(chars@).take(i + 1) =~= out@.push(ascii_lower(chars@[i as int])));
        out.push(char_to_lower(chars[i]));
        i = i + 1;
    }
    assert(out@ =~= ascii_lowered(chars@));
    out
}

pub fn upper_chars(chars: &[char]) -> (uppered: Vec<char>)
    ensures
        uppered@ == ascii_uppered(chars@),
{
    let mut out: Vec<char> = Vec::new();
    let mut i: usize = 0;
    while i < chars.len()
        invariant
            i <= chars@.len(),
            out@ == ascii_uppered(chars@).take(i as int),
        decreases chars.len() - i,
    {
        assert(ascii_uppered(chars@).take(i + 1) =~= out@.push(ascii_uppered(chars@)[i as int]));
        out.push(char_to_upper(chars[i]));
        i = i + 1;
    }
    assert(out@ =~= ascii_uppered(chars@));
    out
}

/// Whether two strings are the same but for the case of ASCII letters.
pub fn same_ignoring_case(a: &str, b: &str) -> (same: bool)
    ensures
        same == (ascii_lowered(a@) == ascii_lowered(b@)),
{
    let left = chars_of(a);
    let right = chars_of(b);
    same_text(&string_of(&lower_chars(&left)), &string_of(&lower_chars(&right)))
}

// ---- laws ----

/// Whether all characters of a string are white space.
pub open spec fn all_white(s: Seq<char>) -> bool {
    forall|i: int| 0 <= i < s.len() ==> is_white(#[trigger] s[i])
}

proof fn trim_start_takes_white_space(s: Seq<char>)
    ensures
        trim_start(s).len() <= s.len(),
        trim_start(s) == s.skip(s.len() - trim_start(s).len()),
        all_white(s.take(s.len() - trim_start(s).len())),
    decreases s.len(),
{
    if s.len() > 0 && is_white(s[0]) {
        trim_start_takes_white_space(s.skip(1));
        let n = s.len() - trim_start(s).len();
        assert(s.skip(1).skip(n - 1) =~= s.skip(n));
        assert forall|i: int| 0 <= i < n implies is_white(#[trigger] s.take(n)[i]) by {
            if i > 0 {
                assert(s.skip(1).take(n - 1)[i - 1] == s[i]);
            }
        }
    } else {
        assert(s.skip(0) =~= s);
    }
}

proof fn trim_end_takes_white_space(s: Seq<char>)
    ensures
        trim_end(s).len() <= s.len(),
        trim_end(s) == s.take(trim_end(s).len() as int),
        all_white(s.skip(trim_end(s).len() as int)),
    decreases s.len(),
{
    trim_end_stops(s);
    if s.len() > 0 && is_white(s.last()) {
        trim_end_takes_white_space(s.drop_last());
        let n = trim_end(s).len() as int;
        assert forall|i: int| 0 <= i < s.len() - n implies is_white(#[trigger] s.skip(n)[i]) by {
            if i < s.len() - n - 1 {
                assert(s.drop_last().skip(n)[i] == s[n + i]);
            }
        }
    }
}

/// Trimming takes off white space at both ends, and nothing else: a string is what is left of
/// it with white space before it and behind it.
pub proof fn trimming_takes_off_white_space_alone(s: Seq<char>)
    ensures
        exists|before: Seq<char>, behind: Seq<char>|
            #![trigger all_white(before), all_white(behind)]
            all_white(before) && all_white(behind) && s == before + trim(s) + behind,
        trim(s).len() > 0 ==> !is_white(trim(s)[0]) && !is_white(trim(s).last()),
        trim(s).len() == 0 <==> all_white(s),
{
    let rest = trim_start(s);
    trim_start_takes_white_space(s);
    trim_end_takes_white_space(rest);
    a_trimmed_string_has_no_outer_white(s);
    let before = s.take(s.len() - rest.len());
    let behind = rest.skip(trim(s).len() as int);
    assert(all_white(before) && all_white(behind));
    assert(rest =~= trim(s) + behind);
    assert(s =~= before + trim(s) + behind);
    if trim(s).len() == 0 {
        assert forall|i: int| 0 <= i < s.len() implies is_white(#[trigger] s[i]) by {
            if i < before.len() {
                assert(before[i] == s[i]);
            } else {
                assert(behind[i - before.len()] == s[i]);
            }
        }
    } else {
        assert(s[before.len() as int] == trim(s)[0]);
    }
}

/// A string without white space at its ends stays as it is.
pub proof fn a_trimmed_string_stays(s: Seq<char>)
    requires
        s.len() == 0 || !is_white(s[0]) && !is_white(s.last()),
    ensures
        trim(s) == s,
{
}

/// A text is a number only where it is made of digits behind a sign, of which there may be
/// none; and the value is one that is allowed.
pub proof fn numbers_are_made_of_digits(s: Seq<char>, min: int, max: int)
    ensures
        parsed_int(s, min, max) matches Some(n) ==> {
            &&& min <= n <= max
            &&& s.len() > 0
            &&& forall|i: int| 1 <= i < s.len() ==> '0' <= #[trigger] s[i] && s[i] <= '9'
            &&& ('0' <= s[0] && s[0] <= '9') || (s.len() > 1 && (s[0] == '+' || s[0] == '-'))
            &&& s[0] == '-' ==> n <= 0
            &&& s[0] != '-' ==> n >= 0
        },
{
    let signed = s.len() > 0 && (s[0] == '+' || (s[0] == '-' && min < 0));
    if parsed_int(s, min, max) is Some {
        let body = if signed { s.skip(1) } else { s };
        assert forall|i: int| 1 <= i < s.len() implies '0' <= #[trigger] s[i] && s[i] <= '9' by {
            if signed {
                assert(is_digit(body[i - 1]));
            } else {
                assert(is_digit(body[i]));
            }
        }
        if !signed {
            assert(is_digit(body[0]));
        }
    }
}

/// A plus before a number that is not negative changes nothing.
pub proof fn a_plus_changes_nothing(n: int, min: int, max: int)
    requires
        0 <= n,
        min <= n <= max,
    ensures
        parsed_int(seq!['+'] + decimal(n), min, max) == Some(n),
{
    decimal_is_read_back(n, min, max);
    digits_are_read_back(n as nat);
    assert((seq!['+'] + decimal(n)).skip(1) =~= decimal(n));
}

/// Lower case changes capital ASCII letters alone, and upper case small ones; each letter
/// becomes its counterpart.
pub proof fn cases_change_letters_alone(s: Seq<char>, i: int)
    requires
        0 <= i < s.len(),
    ensures
        ascii_lowered(s).len() == s.len(),
        ascii_uppered(s).len() == s.len(),
        'A' <= s[i] <= 'Z' ==> ascii_lowered(s)[i] as int == s[i] as int + 32 && ascii_uppered(s)[i] == s[i],
        'a' <= s[i] <= 'z' ==> ascii_uppered(s)[i] as int + 32 == s[i] as int && ascii_lowered(s)[i] == s[i],
        !('A' <= s[i] <= 'Z') && !('a' <= s[i] <= 'z') ==> ascii_lowered(s)[i] == s[i] && ascii_uppered(s)[i] == s[i],
{
}

/// The first line of a text is what stands before the first line feed, without a carriage
/// return at its end; the lines behind it are those of the rest.
pub proof fn a_line_ends_at_its_line_feed(line: Seq<char>, rest: Seq<char>)
    requires
        !line.contains('\n'),
    ensures
        lines(line.push('\n') + rest).len() == 1 + lines(rest).len(),
        lines(line.push('\n') + rest)[0] == (if line.len() > 0 && line.last() == '\r' {
            line.take(line.len() - 1)
        } else {
            line
        }),
        lines(line.push('\n') + rest).skip(1) == lines(rest),
{
    let s = line.push('\n') + rest;
    place_from_is_first(s, '\n', 0);
    let end = place_from(s, '\n', 0);
    if end < line.len() {
        assert(s[end] == line[end]);
    }
    assert(s[line.len() as int] == '\n');
    assert(s.subrange(0, end) =~= line);
    lines_of_the_rest(line.push('\n'), rest, 0);
    if line.len() > 0 {
        assert(line.drop_last() =~= line.take(line.len() - 1));
    }
    assert(lines(s).skip(1) =~= lines(rest));
}

proof fn places_of_the_rest(a: Seq<char>, b: Seq<char>, c: char, j: int)
    requires
        0 <= j <= b.len(),
    ensures
        place_from(a + b, c, a.len() + j) == a.len() + place_from(b, c, j),
    decreases b.len() - j,
{
    if j < b.len() {
        assert((a + b)[a.len() + j] == b[j]);
        places_of_the_rest(a, b, c, j + 1);
    }
}

proof fn lines_of_the_rest(a: Seq<char>, b: Seq<char>, j: int)
    requires
        0 <= j <= b.len(),
    ensures
        lines_from(a + b, a.len() + j) == lines_from(b, j),
    decreases b.len() - j,
{
    if j < b.len() {
        places_of_the_rest(a, b, '\n', j);
        place_from_is_first(b, '\n', j);
        let end = place_from(b, '\n', j);
        assert((a + b).skip(a.len() + j) =~= b.skip(j));
        if end < b.len() {
            assert((a + b).subrange(a.len() + j, a.len() + end) =~= b.subrange(j, end));
            lines_of_the_rest(a, b, end + 1);
        }
    }
}

/// Two rows of parts are joined as their joined texts are, with a separator between them.
pub proof fn joined_rows_are_joined(a: Seq<Seq<char>>, b: Seq<Seq<char>>, separator: Seq<char>)
    requires
        a.len() > 0,
        b.len() > 0,
    ensures
        joined_with(a + b, separator) == joined_with(a, separator) + separator + joined_with(b, separator),
        joined_with(seq![b[0]], separator) == b[0],
    decreases b.len(),
{
    assert((a + b).drop_last() =~= a + b.drop_last());
    if b.len() > 1 {
        joined_rows_are_joined(a, b.drop_last(), separator);
        let x = joined_with(a, separator);
        let y = joined_with(b.drop_last(), separator);
        assert((x + separator + y) + separator + b.last() =~= x + separator + (y + separator + b.last()));
    } else {
        assert(b.drop_last() =~= Seq::empty());
        assert(a + b.drop_last() =~= a);
        assert(joined_with(b, separator) == b[0]);
    }
}

/// A text is found in each text that it stands in, and a text that is longer than another is
/// not found in it.
pub proof fn a_text_is_found_where_it_stands(before: Seq<char>, part: Seq<char>, behind: Seq<char>, other: Seq<char>)
    ensures
        contains_text(before + part + behind, part),
        other.len() < part.len() ==> !contains_text(other, part),
{
    assert((before + part + behind).subrange(before.len() as int, (before.len() + part.len()) as int) =~= part);
    assert(occurs_at(before + part + behind, part, before.len() as int));
}

proof fn digits_have_no_white_space(n: nat)
    ensures
        digits(n, 10).len() > 0,
        forall|i: int| 0 <= i < digits(n, 10).len() ==> !is_white(#[trigger] digits(n, 10)[i]),
    decreases n,
{
    assert(forall|d: nat| d < 10 ==> !is_white(#[trigger] digit_char(d)));
    if n >= 10 {
        digits_have_no_white_space(n / 10);
        let all = digits(n, 10);
        assert forall|i: int| 0 <= i < all.len() implies !is_white(#[trigger] all[i]) by {
            if i < all.len() - 1 {
                assert(all[i] == digits(n / 10, 10)[i]);
            }
        }
    }
}

/// A number in decimal has no white space around it.
pub proof fn a_number_is_trimmed(n: int)
    ensures
        trim(decimal(n)) == decimal(n),
        decimal(n).len() > 0,
{
    if n < 0 {
        digits_have_no_white_space((-n) as nat);
        assert(decimal(n)[0] == '-');
        assert(decimal(n).last() == digits((-n) as nat, 10).last());
    } else {
        digits_have_no_white_space(n as nat);
    }
    a_trimmed_string_stays(decimal(n));
}

/// White space is the space, the tab, the line ends and their kin in ASCII; letters, digits and
/// signs are none.
pub proof fn white_space_in_ascii(c: char)
    requires
        (c as u32) < 0x80,
    ensures
        is_white(c) <==> c == ' ' || c == '\t' || c == '\n' || c == '\r' || c as u32 == 0xb || c as u32 == 0xc,
{
}

/// Beyond ASCII, the spaces that print nothing are white too: those that do not break, those of
/// typesetters, and the line and paragraph separators.
pub proof fn white_space_beyond_ascii(c: char)
    requires
        c as u32 == 0x85 || c as u32 == 0xa0 || c as u32 == 0x1680 || 0x2000 <= c as u32 <= 0x200a || c as u32 == 0x2028
            || c as u32 == 0x2029 || c as u32 == 0x202f || c as u32 == 0x205f || c as u32 == 0x3000,
    ensures
        is_white(c),
{
}

/// A number that was written is read again as it was, where it fits.
pub proof fn a_written_number_is_read(
    n: i128,
    written: String,
    text: &str,
    long: Option<i64>,
    short: Option<i32>,
    count: Option<u64>,
    size: Option<usize>,
)
    requires
        n > i128::MIN,
        call_ensures(decimal_text, (n,), written),
        text@ == written@,
        call_ensures(parse_i64, (text,), long),
        call_ensures(parse_i32, (text,), short),
        call_ensures(parse_u64, (text,), count),
        call_ensures(parse_usize, (text,), size),
    ensures
        i64::MIN <= n <= i64::MAX ==> long == Some(n as i64),
        i32::MIN <= n <= i32::MAX ==> short == Some(n as i32),
        0 <= n <= u64::MAX ==> count == Some(n as u64),
        0 <= n <= usize::MAX ==> size == Some(n as usize),
{
    if i64::MIN <= n <= i64::MAX {
        decimal_is_read_back(n as int, i64::MIN as int, i64::MAX as int);
    }
    if i32::MIN <= n <= i32::MAX {
        decimal_is_read_back(n as int, i32::MIN as int, i32::MAX as int);
    }
    if 0 <= n <= u64::MAX {
        decimal_is_read_back(n as int, 0, u64::MAX as int);
    }
    if 0 <= n <= usize::MAX {
        decimal_is_read_back(n as int, 0, usize::MAX as int);
    }
}

/// What is trimmed begins and ends with no white space, and is a part of the text, with nothing
/// but white space around it.
pub proof fn what_is_trimmed_has_no_white_space_around(text: &str, kept: String)
    requires
        call_ensures(trimmed, (text,), kept),
    ensures
        kept@.len() > 0 ==> !is_white(kept@[0]) && !is_white(kept@.last()),
        text@.len() > 0 && !is_white(text@[0]) && !is_white(text@.last()) ==> kept@ == text@,
        exists|before: Seq<char>, behind: Seq<char>|
            #![trigger all_white(before), all_white(behind)]
            all_white(before) && all_white(behind) && text@ == before + kept@ + behind,
{
    a_trimmed_string_has_no_outer_white(text@);
    trimming_takes_off_white_space_alone(text@);
    if text@.len() > 0 && !is_white(text@[0]) && !is_white(text@.last()) {
        a_trimmed_string_stays(text@);
    }
}

/// A part of a text is found in it, and a text begins with its own beginning.
pub proof fn a_part_is_found(chars: &[char], part: &[char], before: Seq<char>, behind: Seq<char>, found: bool, first: bool)
    requires
        chars@ == before + part@ + behind,
        call_ensures(has_part, (chars, part), found),
        call_ensures(has_prefix, (chars, part), first),
    ensures
        found,
        before.len() == 0 ==> first,
        first ==> chars@.take(part@.len() as int) == part@,
{
    a_text_is_found_where_it_stands(before, part@, behind, part@);
    if before.len() == 0 {
        assert(chars@.take(part@.len() as int) =~= part@);
    }
}

/// The place that is found is the first of the character, and behind the text where there is
/// none.
pub proof fn the_first_place_is_found(chars: &[char], c: char, from: usize, place: usize)
    requires
        from <= chars@.len(),
        call_ensures(find_from, (chars, c, from), place),
    ensures
        from <= place <= chars@.len(),
        place < chars@.len() ==> chars@[place as int] == c,
        forall|k: int| from <= k < place ==> #[trigger] chars@[k] != c,
{
    place_from_is_first(chars@, c, from as int);
}

/// Texts are compared by their letters, whatever case these are in, and by nothing else.
pub proof fn letters_are_the_same_in_both_cases(chars: &[char], lower: Vec<char>, upper: Vec<char>, i: int)
    requires
        call_ensures(lower_chars, (chars,), lower),
        call_ensures(upper_chars, (chars,), upper),
        0 <= i < chars@.len(),
    ensures
        lower@.len() == chars@.len() && upper@.len() == chars@.len(),
        'A' <= chars@[i] <= 'Z' ==> lower@[i] as int == chars@[i] as int + 32 && upper@[i] == chars@[i],
        'a' <= chars@[i] <= 'z' ==> upper@[i] as int == chars@[i] as int - 32 && lower@[i] == chars@[i],
        !('A' <= chars@[i] <= 'Z') && !('a' <= chars@[i] <= 'z') ==> lower@[i] == chars@[i] && upper@[i] == chars@[i],
{
    cases_change_letters_alone(chars@, i);
}

/// Joined texts stand one behind the other, with the separator between.
pub proof fn joined_texts_stand_in_a_row(
    first: &str,
    second: &str,
    third: &str,
    two: String,
    three: String,
    parts: &Vec<String>,
    separator: &str,
    all: String,
)
    requires
        call_ensures(joined, (first, second), two),
        call_ensures(joined3, (first, second, third), three),
        call_ensures(join_all, (parts, separator), all),
    ensures
        two@ == first@ + second@,
        three@ == two@ + third@,
        parts@.len() == 0 ==> all@.len() == 0,
        parts@.len() == 1 ==> all@ == parts@[0]@,
        parts@.len() == 2 ==> all@ == parts@[0]@ + separator@ + parts@[1]@,
{
    reveal_with_fuel(joined_with, 3);
    let rows = views(parts@);
    if parts@.len() == 1 {
        assert(rows.drop_last() =~= Seq::empty());
        assert(all@ =~= rows[0]);
    }
    if parts@.len() == 2 {
        assert(rows.drop_last().drop_last() =~= Seq::empty());
        assert(rows.drop_last()[0] == rows[0]);
        assert(all@ =~= rows[0] + separator@ + rows[1]);
    }
}

/// Two texts are the same where they hold the same characters.
pub proof fn texts_are_compared_by_their_characters(a: &str, b: &str, same: bool, folded: bool)
    requires
        call_ensures(same_text, (a, b), same),
        call_ensures(same_ignoring_case, (a, b), folded),
    ensures
        same <==> a@ == b@,
        same ==> folded,
        a@.len() != b@.len() ==> !folded,
{
    assert(ascii_lowered(a@).len() == a@.len());
    assert(ascii_lowered(b@).len() == b@.len());
}

} // verus!
