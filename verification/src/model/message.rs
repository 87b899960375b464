//! Messages as they are kept in memory, and the store that holds the newest of them.

use std::collections::VecDeque;
use std::sync::Arc;

use vstd::layout::size_of;
use vstd::prelude::*;
use vstd::utf8::{
    decode_utf8, decode_utf8_encode_utf8, encode_scalar, encode_utf8, encode_utf8_decode_utf8, encode_utf8_valid_utf8, valid_utf8,
};

use crate::model::search::message_holds;
use crate::text::{chars_of, digit_char, digits_value, starts_with};

verus! {

pub const KEY_PREVIEW_CHARS: usize = 120;

pub const VALUE_PREVIEW_CHARS: usize = 200;

/// How chrono is to write a timestamp.
pub const TIMESTAMP_FORMAT: &'static str = "%Y-%m-%d %H:%M:%S%.3f";

/// Where a part of a message stands in its bytes.
#[derive(Debug, Clone, Copy)]
struct Span {
    start: u32,
    end: u32,
}

/// Where a header's name and value stand.
#[derive(Debug, Clone, Copy)]
pub struct HeaderSpan {
    name: Span,
    value: Option<Span>,
}

/// A header: its name, and its value where it has one.
pub struct HeaderView {
    pub name: Seq<char>,
    pub value: Option<Seq<u8>>,
}

/// One message. Its key, its value and its headers share one buffer.
#[derive(Debug, Clone)]
pub struct MessageRecord {
    pub topic: Arc<String>,
    pub partition: i32,
    pub offset: i64,
    pub timestamp_ms: Option<i64>,
    pub parts: MessageParts,
}

/// What a message holds, and the texts that are shown for it.
#[derive(Debug, Clone)]
pub struct MessageParts {
    bytes: Vec<u8>,
    key: Option<Span>,
    value: Option<Span>,
    headers: Vec<HeaderSpan>,
    key_preview: Arc<String>,
    value_preview: Arc<String>,
    timestamp_text: Arc<String>,
}

/// `Arc::clone` of std: another handle to the same value.
#[verifier::external_body]
pub(crate) fn share<T>(shared: &Arc<T>) -> (other: Arc<T>)
    ensures
        other == *shared,
{
    Arc::clone(shared)
}

/// `std::str::from_utf8`: bytes are read as a string exactly where they are valid
/// UTF-8, and the string is what they encode.
#[verifier::external_body]
fn utf8_str(bytes: &[u8]) -> (text: Option<&str>)
    ensures
        match text {
            Some(t) => valid_utf8(bytes@) && t@ == decode_utf8(bytes@),
            None => !valid_utf8(bytes@),
        },
{
    std::str::from_utf8(bytes).ok()
}

/// The bytes of an optional slice.
pub open spec fn bytes_view(part: Option<&[u8]>) -> Option<Seq<u8>> {
    match part {
        Some(bytes) => Some(bytes@),
        None => None,
    }
}

/// Headers as they are handed in.
pub open spec fn given_headers(headers: Seq<(&str, Option<&[u8]>)>) -> Seq<HeaderView> {
    headers.map_values(|h: (&str, Option<&[u8]>)| HeaderView { name: h.0@, value: bytes_view(h.1) })
}

/// How many bytes a part takes up.
pub open spec fn part_size(part: Option<Seq<u8>>) -> nat {
    match part {
        Some(bytes) => bytes.len(),
        None => 0,
    }
}

/// How many bytes the first headers take up, names and values.
pub open spec fn headers_size(headers: Seq<HeaderView>) -> nat
    decreases headers.len(),
{
    if headers.len() == 0 {
        0
    } else {
        headers_size(headers.drop_last()) + encode_utf8(headers.last().name).len() + part_size(headers.last().value)
    }
}

/// How many bytes a message has.
pub open spec fn payload_size(key: Option<Seq<u8>>, value: Option<Seq<u8>>, headers: Seq<HeaderView>) -> nat {
    part_size(key) + part_size(value) + headers_size(headers)
}

/// Whether the places in a message fit into 32 bits.
pub open spec fn record_fits(key: Option<Seq<u8>>, value: Option<Seq<u8>>, headers: Seq<HeaderView>) -> bool {
    payload_size(key, value, headers) <= u32::MAX
}

fn size_of_part(part: Option<&[u8]>) -> (size: usize)
    ensures
        size == part_size(bytes_view(part)),
{
    match part {
        Some(bytes) => bytes.len(),
        None => 0,
    }
}

/// Whether the places in a message fit into 32 bits.
pub fn fits_in_a_record(key: Option<&[u8]>, value: Option<&[u8]>, headers: &[(&str, Option<&[u8]>)]) -> (fits: bool)
    ensures
        fits == record_fits(bytes_view(key), bytes_view(value), given_headers(headers@)),
{
    let ghost given = given_headers(headers@);
    let limit: u64 = u32::MAX as u64;
    let key_size: u64 = size_of_part(key) as u64;
    let value_size: u64 = size_of_part(value) as u64;
    if key_size > limit || value_size > limit {
        return false;
    }
    let mut payload: u64 = key_size + value_size;
    let mut i: usize = 0;
    assert(given.take(0) =~= Seq::empty());
    while i < headers.len()
        invariant
            i <= headers@.len(),
            given == given_headers(headers@),
            limit == u32::MAX,
            payload <= 2 * limit,
            payload == part_size(bytes_view(key)) + part_size(bytes_view(value)) + headers_size(given.take(i as int)),
        decreases headers.len() - i,
    {
        let (name, header_value) = headers[i];
        let name_size: u64 = name.as_bytes().len() as u64;
        let header_size: u64 = size_of_part(header_value) as u64;
        proof {
            assert(given[i as int] == (HeaderView { name: name@, value: bytes_view(header_value) }));
            assert(given.take(i + 1).drop_last() =~= given.take(i as int));
            headers_size_grows(given, i as int);
            headers_size_grows(given, i + 1);
        }
        if payload > limit || name_size > limit || header_size > limit || payload + name_size + header_size > limit {
            return false;
        }
        payload = payload + name_size + header_size;
        i = i + 1;
    }
    assert(given.take(i as int) =~= given);
    payload <= limit
}

// ---- previews ----

/// What `String::from_utf8_lossy` makes of bytes.
pub uninterp spec fn lossy_text(bytes: Seq<u8>) -> Seq<char>;

/// `String::from_utf8_lossy` of std: a function of the bytes, and what they encode
/// where they are valid UTF-8. Where only a first part of them is, the text starts with
/// what that part encodes. What stands for the invalid parts is not stated, nor what
/// follows them.
#[verifier::external_body]
pub(crate) fn read_lossily(bytes: &[u8]) -> (text: String)
    ensures
        text@ == lossy_text(bytes@),
        valid_utf8(bytes@) ==> text@ == decode_utf8(bytes@),
        forall|n: int|
            0 <= n <= bytes@.len() && valid_utf8(#[trigger] bytes@.take(n)) ==> starts_with(
                text@,
                decode_utf8(bytes@.take(n)),
            ),
{
    String::from_utf8_lossy(bytes).into_owned()
}

/// A character on one line: line ends and tabs become spaces.
pub open spec fn flat_char(c: char) -> char {
    if c == '\n' || c == '\r' || c == '\t' {
        ' '
    } else {
        c
    }
}

/// The start of a text on one line. An ellipsis stands where characters are missing:
/// because there are more than allowed, or because the text was cut before.
pub open spec fn preview_of_text(text: Seq<char>, cut: bool, max_chars: int) -> Seq<char> {
    if text.len() > max_chars {
        text.take(max_chars).map_values(|c: char| flat_char(c)).push('\u{2026}')
    } else if cut {
        text.map_values(|c: char| flat_char(c)).push('\u{2026}')
    } else {
        text.map_values(|c: char| flat_char(c))
    }
}

/// How many bytes a preview looks at: as many as its characters can take up.
pub open spec fn head_size(size: int, max_chars: int) -> int {
    if size <= max_chars * 4 {
        size
    } else {
        max_chars * 4
    }
}

/// Whether bytes that are valid UTF-8 are read as what they encode, and whether the text of
/// others starts with what a valid first part encodes.
pub open spec fn is_read_plainly(bytes: Seq<u8>) -> bool {
    &&& valid_utf8(bytes) ==> lossy_text(bytes) == decode_utf8(bytes)
    &&& forall|n: int|
        0 <= n <= bytes.len() && valid_utf8(#[trigger] bytes.take(n)) ==> starts_with(
            lossy_text(bytes),
            decode_utf8(bytes.take(n)),
        )
}

/// Whether the values of headers that are valid UTF-8 are read as what they encode.
pub open spec fn headers_are_read_plainly(headers: Seq<HeaderView>) -> bool {
    forall|i: int| 0 <= i < headers.len() ==> ((#[trigger] headers[i]).value matches Some(bytes) ==> is_read_plainly(bytes))
}

/// With one more header, whose value is read plainly.
pub proof fn one_more_is_read_plainly(headers: Seq<HeaderView>, i: int)
    requires
        0 <= i < headers.len(),
        headers_are_read_plainly(headers.take(i)),
        headers[i].value matches Some(bytes) ==> is_read_plainly(bytes),
    ensures
        headers_are_read_plainly(headers.take(i + 1)),
{
    assert forall|k: int| 0 <= k < i + 1 implies (#[trigger] headers.take(i + 1)[k]).value matches Some(bytes)
        ==> is_read_plainly(bytes) by {
        if k < i {
            assert(headers.take(i)[k] == headers[k]);
        }
    }
}

/// Whether what a preview looks at is read as what it encodes, as far as that is valid
/// UTF-8; and whether the preview of valid UTF-8 is that of its text.
pub open spec fn is_previewed_plainly(bytes: Option<Seq<u8>>, max_chars: int) -> bool {
    bytes matches Some(b) ==> (b.len() > 0 ==> {
        &&& is_read_plainly(b.take(head_size(b.len() as int, max_chars)))
        &&& valid_utf8(b) ==> preview_text(bytes, max_chars) == preview_of_text(decode_utf8(b), false, max_chars)
    })
}

proof fn encodings_are_short(text: Seq<char>)
    ensures
        encode_utf8(text).len() <= 4 * text.len(),
    decreases text.len(),
{
    if text.len() > 0 {
        encodings_are_short(text.drop_first());
        assert(encode_scalar(text[0] as u32).len() <= 4);
    }
}

proof fn encodings_add_up(a: Seq<char>, b: Seq<char>)
    ensures
        encode_utf8(a + b) == encode_utf8(a) + encode_utf8(b),
    decreases a.len(),
{
    if a.len() > 0 {
        encodings_add_up(a.drop_first(), b);
        assert((a + b).drop_first() =~= a.drop_first() + b);
        let first = encode_scalar(a[0] as u32);
        assert(first + (encode_utf8(a.drop_first()) + encode_utf8(b)) =~= (first + encode_utf8(a.drop_first()))
            + encode_utf8(b));
    } else {
        assert(a + b =~= b);
        assert(encode_utf8(a) + encode_utf8(b) =~= encode_utf8(b));
    }
}

/// A preview looks at enough bytes: where it cuts a character, it shows none from there.
proof fn previews_see_enough(bytes: Seq<u8>, max_chars: int)
    requires
        bytes.len() > 0,
        valid_utf8(bytes),
        0 <= max_chars,
        is_read_plainly(bytes.take(head_size(bytes.len() as int, max_chars))),
    ensures
        preview_text(Some(bytes), max_chars) == preview_of_text(decode_utf8(bytes), false, max_chars),
{
    let head = bytes.take(head_size(bytes.len() as int, max_chars));
    let text = decode_utf8(bytes);
    if bytes.len() <= max_chars * 4 {
        assert(head =~= bytes);
    } else {
        decode_utf8_encode_utf8(bytes);
        encodings_are_short(text);
        let shown = text.take(max_chars);
        let n = encode_utf8(shown).len() as int;
        encodings_are_short(shown);
        encodings_add_up(shown, text.skip(max_chars));
        assert(shown + text.skip(max_chars) =~= text);
        assert(head.take(n) =~= encode_utf8(shown));
        encode_utf8_valid_utf8(shown);
        encode_utf8_decode_utf8(shown);
        let read = lossy_text(head);
        assert(starts_with(read, shown));
        assert(read.take(max_chars) == shown);
        if read.len() == max_chars {
            assert(read =~= shown);
        }
    }
}

/// The preview of a key or a value.
pub open spec fn preview_text(bytes: Option<Seq<u8>>, max_chars: int) -> Seq<char> {
    match bytes {
        None => "<null>"@,
        Some(b) => if b.len() == 0 {
            "<empty>"@
        } else {
            let head = b.take(head_size(b.len() as int, max_chars));
            preview_of_text(lossy_text(head), b.len() > head.len(), max_chars)
        },
    }
}

/// The start of a text on one line.
pub fn preview_line(text: &str, cut: bool, max_chars: usize) -> (line: String)
    ensures
        line@ == preview_of_text(text@, cut, max_chars as int),
{
    let chars = chars_of(text);
    let ghost flat = text@.map_values(|c: char| flat_char(c));
    let mut line = String::new();
    let mut i: usize = 0;
    while i < chars.len()
        invariant
            i <= chars@.len(),
            i <= max_chars,
            chars@ == text@,
            flat == text@.map_values(|c: char| flat_char(c)),
            line@ == flat.take(i as int),
        decreases chars.len() - i,
    {
        if i == max_chars {
            line.push('\u{2026}');
            assert(text@.take(max_chars as int).map_values(|c: char| flat_char(c)) =~= flat.take(i as int));
            return line;
        }
        let c = chars[i];
        assert(flat.take(i + 1) =~= flat.take(i as int).push(flat_char(c)));
        line.push(if c == '\n' || c == '\r' || c == '\t' { ' ' } else { c });
        i = i + 1;
    }
    assert(flat.take(i as int) =~= flat);
    if cut {
        line.push('\u{2026}');
    }
    line
}

/// The preview of a key or a value on one line. Of valid UTF-8 it is the start of the text,
/// whatever character the bytes that are looked at end in.
pub fn preview(bytes: Option<&[u8]>, max_chars: usize) -> (line: Arc<String>)
    requires
        max_chars * 4 <= usize::MAX,
    ensures
        line@ == preview_text(bytes_view(bytes), max_chars as int),
        is_previewed_plainly(bytes_view(bytes), max_chars as int),
        bytes matches Some(b) ==> (b@.len() > 0 && valid_utf8(b@) ==> line@ == preview_of_text(
            decode_utf8(b@),
            false,
            max_chars as int,
        )),
{
    match bytes {
        None => Arc::new("<null>".to_owned()),
        Some(b) => {
            if b.len() == 0 {
                return Arc::new("<empty>".to_owned());
            }
            let size: usize = if b.len() <= max_chars * 4 { b.len() } else { max_chars * 4 };
            let head = vstd::slice::slice_subrange(b, 0, size);
            assert(head@ =~= b@.take(size as int));
            let text = read_lossily(head);
            proof {
                if valid_utf8(b@) {
                    previews_see_enough(b@, max_chars as int);
                }
            }
            Arc::new(preview_line(&text, b.len() > size, max_chars))
        },
    }
}

/// A preview is never longer than it may be, but for the ellipsis.
pub proof fn previews_are_short(bytes: Option<Seq<u8>>, max_chars: int)
    requires
        max_chars >= 7,
    ensures
        preview_text(bytes, max_chars).len() <= max_chars + 1,
{
    reveal_strlit("<null>");
    reveal_strlit("<empty>");
}

// ---- timestamps ----

/// Whether a time is one that chrono's calendar holds, in milliseconds.
pub open spec fn in_calendar(ms: int) -> bool {
    -8_334_601_228_800_000 <= ms <= 8_210_266_876_799_999
}

/// The milliseconds of a time behind a dot.
pub open spec fn millis_text(ms: int) -> Seq<char> {
    let n = (ms % 1000) as nat;
    seq!['.', digit_char(n / 100), digit_char(n / 10 % 10), digit_char(n % 10)]
}

/// What chrono writes for a date and a time of day, given as the milliseconds since 1970
/// that they would be in UTC, in a format that does not speak of the zone.
pub uninterp spec fn civil_text(local: int, format: Seq<char>) -> Seq<char>;

/// `chrono::DateTime::from_timestamp_millis`, and the time in chrono's `Local` zone
/// in the given format: there is a text exactly where the calendar holds the time, it
/// ends in the milliseconds, and it is that of the time by the clocks of a zone. A zone
/// differs from UTC by whole seconds, and by less than a day; which zone it is depends on
/// the machine and is not stated, nor is how a date is written.
#[verifier::external_body]
fn local_time(ms: i64, format: &str) -> (text: Option<String>)
    requires
        format@ == TIMESTAMP_FORMAT@,
    ensures
        text is Some <==> in_calendar(ms as int),
        text matches Some(t) ==> crate::text::ends_with(t@, millis_text(ms as int)),
        text matches Some(t) ==> exists|local: int|
            -86_400_000 < local - ms < 86_400_000 && (local - ms) % 1000 == 0 && t@ == #[trigger] civil_text(local, format@),
{
    let utc = chrono::DateTime::from_timestamp_millis(ms)?;
    Some(utc.with_timezone(&chrono::Local).format(format).to_string())
}

/// What stands for a time: its text, or a dash where there is none.
pub fn shown_time(text: Option<String>) -> (shown: String)
    ensures
        match text {
            Some(t) => shown@ == t@,
            None => shown@ == "-"@,
        },
{
    match text {
        Some(t) => t,
        None => "-".to_owned(),
    }
}

/// Whether a text is that of a time by the clocks of some zone.
pub open spec fn shows_in_some_zone(text: Seq<char>, ms: int) -> bool {
    exists|local: int|
        -86_400_000 < local - ms < 86_400_000 && (local - ms) % 1000 == 0 && text == #[trigger] civil_text(
            local,
            TIMESTAMP_FORMAT@,
        )
}

/// Whether a text shows a timestamp.
pub open spec fn shows_timestamp(text: Seq<char>, timestamp_ms: Option<i64>) -> bool {
    match timestamp_ms {
        Some(ms) => if in_calendar(ms as int) {
            crate::text::ends_with(text, millis_text(ms as int)) && shows_in_some_zone(text, ms as int)
        } else {
            text == "-"@
        },
        None => text == "-"@,
    }
}

/// A timestamp in the time of the place, or a dash.
pub fn format_timestamp(timestamp_ms: Option<i64>) -> (text: String)
    ensures
        shows_timestamp(text@, timestamp_ms),
{
    match timestamp_ms {
        Some(ms) => shown_time(local_time(ms, TIMESTAMP_FORMAT)),
        None => shown_time(None),
    }
}

// ---- one message ----

spec fn span_fits(bytes: Seq<u8>, span: Span) -> bool {
    span.start <= span.end <= bytes.len()
}

spec fn part_at(bytes: Seq<u8>, span: Option<Span>) -> Option<Seq<u8>> {
    match span {
        Some(s) => Some(bytes.subrange(s.start as int, s.end as int)),
        None => None,
    }
}

spec fn part_fits(bytes: Seq<u8>, span: Option<Span>) -> bool {
    span matches Some(s) ==> span_fits(bytes, s)
}

spec fn header_at(bytes: Seq<u8>, header: HeaderSpan) -> HeaderView {
    HeaderView {
        name: decode_utf8(bytes.subrange(header.name.start as int, header.name.end as int)),
        value: part_at(bytes, header.value),
    }
}

spec fn header_fits(bytes: Seq<u8>, header: HeaderSpan) -> bool {
    &&& span_fits(bytes, header.name)
    &&& valid_utf8(bytes.subrange(header.name.start as int, header.name.end as int))
    &&& part_fits(bytes, header.value)
}

fn append(bytes: &mut Vec<u8>, chunk: &[u8]) -> (span: Span)
    requires
        old(bytes)@.len() + chunk@.len() <= u32::MAX,
    ensures
        final(bytes)@ == old(bytes)@ + chunk@,
        span.start == old(bytes)@.len(),
        span.end == final(bytes)@.len(),
{
    let start: u32 = bytes.len() as u32;
    bytes.extend_from_slice(chunk);
    Span { start, end: bytes.len() as u32 }
}

fn append_part(bytes: &mut Vec<u8>, chunk: Option<&[u8]>) -> (span: Option<Span>)
    requires
        old(bytes)@.len() + part_size(bytes_view(chunk)) <= u32::MAX,
    ensures
        final(bytes)@.len() == old(bytes)@.len() + part_size(bytes_view(chunk)),
        final(bytes)@.take(old(bytes)@.len() as int) == old(bytes)@,
        part_fits(final(bytes)@, span),
        part_at(final(bytes)@, span) == bytes_view(chunk),
{
    match chunk {
        Some(chunk) => {
            let span = append(bytes, chunk);
            assert(bytes@.take(old(bytes)@.len() as int) =~= old(bytes)@);
            assert(bytes@.subrange(span.start as int, span.end as int) =~= chunk@);
            Some(span)
        },
        None => {
            assert(bytes@.take(old(bytes)@.len() as int) =~= old(bytes)@);
            None
        },
    }
}

/// Parts stay where they are when bytes are appended.
proof fn parts_stay(bytes: Seq<u8>, longer: Seq<u8>, span: Option<Span>)
    requires
        bytes.len() <= longer.len(),
        longer.take(bytes.len() as int) == bytes,
        part_fits(bytes, span),
    ensures
        part_fits(longer, span),
        part_at(longer, span) == part_at(bytes, span),
{
    if span is Some {
        let s = span->0;
        assert(longer.subrange(s.start as int, s.end as int) =~= bytes.subrange(s.start as int, s.end as int)) by {
            assert forall|k: int| s.start <= k < s.end implies longer[k] == bytes[k] by {
                assert(longer.take(bytes.len() as int)[k] == longer[k]);
            }
        }
    }
}

proof fn headers_stay(bytes: Seq<u8>, longer: Seq<u8>, header: HeaderSpan)
    requires
        bytes.len() <= longer.len(),
        longer.take(bytes.len() as int) == bytes,
        header_fits(bytes, header),
    ensures
        header_fits(longer, header),
        header_at(longer, header) == header_at(bytes, header),
{
    parts_stay(bytes, longer, Some(header.name));
    parts_stay(bytes, longer, header.value);
}

proof fn headers_size_grows(headers: Seq<HeaderView>, i: int)
    requires
        0 <= i <= headers.len(),
    ensures
        headers_size(headers.take(i)) <= headers_size(headers),
    decreases headers.len() - i,
{
    if i < headers.len() {
        headers_size_grows(headers, i + 1);
        assert(headers.take(i + 1).drop_last() =~= headers.take(i));
    } else {
        assert(headers.take(i) =~= headers);
    }
}

impl MessageRecord {
    pub closed spec fn key_bytes(&self) -> Option<Seq<u8>> {
        part_at(self.parts.bytes@, self.parts.key)
    }

    pub closed spec fn value_bytes(&self) -> Option<Seq<u8>> {
        part_at(self.parts.bytes@, self.parts.value)
    }

    pub closed spec fn header_views(&self) -> Seq<HeaderView> {
        self.parts.headers@.map_values(|h: HeaderSpan| header_at(self.parts.bytes@, h))
    }

    pub closed spec fn key_line(&self) -> Seq<char> {
        self.parts.key_preview@
    }

    pub closed spec fn value_line(&self) -> Seq<char> {
        self.parts.value_preview@
    }

    pub closed spec fn time_line(&self) -> Seq<char> {
        self.parts.timestamp_text@
    }

    /// How many bytes the key, the value and the headers take up together.
    pub closed spec fn payload(&self) -> nat {
        self.parts.bytes@.len()
    }

    /// How many bytes of memory a stored message takes up: its payload, the places of
    /// its headers, its previews, the record itself and what the store adds to it.
    pub open spec fn size(&self) -> int {
        self.weight() + self.header_views().len() * size_of::<HeaderSpan>() + size_of::<MessageRecord>() + 32int
    }

    /// How many bytes the payload and the previews take up.
    pub open spec fn weight(&self) -> nat {
        self.payload() + encode_utf8(self.key_line()).len() + encode_utf8(self.value_line()).len()
    }

    /// Each part stands in the buffer.
    pub closed spec fn wf(&self) -> bool {
        &&& part_fits(self.parts.bytes@, self.parts.key)
        &&& part_fits(self.parts.bytes@, self.parts.value)
        &&& forall|i: int| 0 <= i < self.parts.headers@.len() ==> header_fits(self.parts.bytes@, #[trigger] self.parts.headers@[i])
        &&& self.payload() == payload_size(self.key_bytes(), self.value_bytes(), self.header_views())
        &&& self.payload() <= u32::MAX
    }

    /// The key, the value and the headers take up the payload, each once.
    pub proof fn payload_is_its_parts(&self)
        requires
            self.wf(),
        ensures
            self.payload() == payload_size(self.key_bytes(), self.value_bytes(), self.header_views()),
            self.payload() <= u32::MAX,
    {
    }

    /// A message takes up at least its payload, its previews and its own struct.
    pub proof fn sizes_count_what_is_held(&self)
        ensures
            self.size() >= self.weight() + size_of::<MessageRecord>() + 32,
    {
        let headers = self.header_views().len();
        let each = size_of::<HeaderSpan>();
        assert(headers * each >= 0) by (nonlinear_arith)
            requires
                headers >= 0,
                each >= 0,
        ;
    }

    /// Of two messages with equally many headers, the sizes differ by what their payloads
    /// and previews take up: topic, partition, offset and time do not count.
    pub proof fn sizes_differ_by_what_is_held(&self, other: &Self)
        requires
            self.header_views().len() == other.header_views().len(),
        ensures
            self.size() - other.size() == self.weight() - other.weight(),
    {
    }

    pub fn new(
        topic: Arc<String>,
        partition: i32,
        offset: i64,
        timestamp_ms: Option<i64>,
        key: Option<&[u8]>,
        value: Option<&[u8]>,
        headers: &[(&str, Option<&[u8]>)],
    ) -> (record: Self)
        requires
            record_fits(bytes_view(key), bytes_view(value), given_headers(headers@)),
        ensures
            record.wf(),
            record.topic == topic,
            record.partition == partition,
            record.offset == offset,
            record.timestamp_ms == timestamp_ms,
            record.key_bytes() == bytes_view(key),
            record.value_bytes() == bytes_view(value),
            record.header_views() == given_headers(headers@),
            record.payload() == payload_size(bytes_view(key), bytes_view(value), given_headers(headers@)),
            record.key_line() == preview_text(bytes_view(key), KEY_PREVIEW_CHARS as int),
            record.value_line() == preview_text(bytes_view(value), VALUE_PREVIEW_CHARS as int),
            is_previewed_plainly(bytes_view(key), KEY_PREVIEW_CHARS as int),
            is_previewed_plainly(bytes_view(value), VALUE_PREVIEW_CHARS as int),
            shows_timestamp(record.time_line(), timestamp_ms),
    {
        let ghost given = given_headers(headers@);
        let mut bytes: Vec<u8> = Vec::new();
        let key_span = append_part(&mut bytes, key);
        let ghost with_key = bytes@;
        let value_span = append_part(&mut bytes, value);
        proof {
            parts_stay(with_key, bytes@, key_span);
        }
        let mut spans: Vec<HeaderSpan> = Vec::new();
        let mut i: usize = 0;
        assert(given.take(0) =~= Seq::empty());
        while i < headers.len()
            invariant
                i <= headers@.len(),
                given == given_headers(headers@),
                record_fits(bytes_view(key), bytes_view(value), given),
                bytes@.len() == part_size(bytes_view(key)) + part_size(bytes_view(value)) + headers_size(
                    given.take(i as int),
                ),
                part_fits(bytes@, key_span),
                part_fits(bytes@, value_span),
                part_at(bytes@, key_span) == bytes_view(key),
                part_at(bytes@, value_span) == bytes_view(value),
                spans@.len() == i,
                forall|k: int| 0 <= k < i ==> header_fits(bytes@, #[trigger] spans@[k]),
                forall|k: int| 0 <= k < i ==> header_at(bytes@, #[trigger] spans@[k]) == given[k],
            decreases headers.len() - i,
        {
            let (name, header_value) = headers[i];
            let ghost before = bytes@;
            proof {
                headers_size_grows(given, i + 1);
                assert(given.take(i + 1).drop_last() =~= given.take(i as int));
                assert(given[i as int].name == name@);
                assert(given[i as int].value == bytes_view(header_value));
            }
            let name_span = append(&mut bytes, name.as_bytes());
            let ghost named = bytes@;
            let value_place = append_part(&mut bytes, header_value);
            let header = HeaderSpan { name: name_span, value: value_place };
            proof {
                assert(bytes@.take(before.len() as int) =~= before) by {
                    assert(bytes@.take(named.len() as int) == named);
                    assert(named.take(before.len() as int) =~= before);
                    assert forall|k: int| 0 <= k < before.len() implies bytes@[k] == before[k] by {
                        assert(bytes@.take(named.len() as int)[k] == bytes@[k]);
                    }
                }
                assert(named.subrange(name_span.start as int, name_span.end as int) =~= encode_utf8(name@));
                encode_utf8_valid_utf8(name@);
                encode_utf8_decode_utf8(name@);
                assert(part_fits(named, Some(name_span)));
                parts_stay(named, bytes@, Some(name_span));
                assert(part_at(bytes@, Some(name_span)) == Some(encode_utf8(name@)));
                parts_stay(before, bytes@, key_span);
                parts_stay(before, bytes@, value_span);
                assert forall|k: int| 0 <= k < i implies header_fits(bytes@, #[trigger] spans@[k]) && header_at(
                    bytes@,
                    spans@[k],
                ) == given[k] by {
                    headers_stay(before, bytes@, spans@[k]);
                }
            }
            spans.push(header);
            i = i + 1;
        }
        let key_preview = preview(key, KEY_PREVIEW_CHARS);
        let value_preview = preview(value, VALUE_PREVIEW_CHARS);
        let record = MessageRecord {
            topic,
            partition,
            offset,
            timestamp_ms,
            parts: MessageParts {
                bytes,
                key: key_span,
                value: value_span,
                headers: spans,
                key_preview,
                value_preview,
                timestamp_text: Arc::new(format_timestamp(timestamp_ms)),
            },
        };
        proof {
            assert(given.take(i as int) =~= given);
            assert(record.header_views() =~= given);
        }
        record
    }

    pub fn key(&self) -> (part: Option<&[u8]>)
        requires
            self.wf(),
        ensures
            bytes_view(part) == self.key_bytes(),
    {
        match self.parts.key {
            Some(span) => Some(self.slice(span)),
            None => None,
        }
    }

    pub fn value(&self) -> (part: Option<&[u8]>)
        requires
            self.wf(),
        ensures
            bytes_view(part) == self.value_bytes(),
    {
        match self.parts.value {
            Some(span) => Some(self.slice(span)),
            None => None,
        }
    }

    /// The headers in their order.
    pub fn headers(&self) -> (list: Vec<(&str, Option<&[u8]>)>)
        requires
            self.wf(),
        ensures
            given_headers(list@) == self.header_views(),
            list@.len() == self.header_views().len(),
            forall|k: int| 0 <= k < list@.len() ==> #[trigger] list@[k].0@ == self.header_views()[k].name,
            forall|k: int|
                0 <= k < list@.len() ==> bytes_view((#[trigger] list@[k]).1) == self.header_views()[k].value,
    {
        let mut list: Vec<(&str, Option<&[u8]>)> = Vec::new();
        let mut i: usize = 0;
        while i < self.parts.headers.len()
            invariant
                i <= self.parts.headers@.len(),
                self.wf(),
                list@.len() == i,
                forall|k: int| 0 <= k < i ==> #[trigger] list@[k].0@ == self.header_views()[k].name,
                forall|k: int| 0 <= k < i ==> bytes_view((#[trigger] list@[k]).1) == self.header_views()[k].value,
            decreases self.parts.headers.len() - i,
        {
            let header: HeaderSpan = self.parts.headers[i];
            assert(header_fits(self.parts.bytes@, self.parts.headers@[i as int]));
            assert(self.header_views()[i as int] == header_at(self.parts.bytes@, header));
            let name: &str = match utf8_str(self.slice(header.name)) {
                Some(name) => name,
                None => "",
            };
            let value: Option<&[u8]> = match header.value {
                Some(span) => Some(self.slice(span)),
                None => None,
            };
            list.push((name, value));
            i = i + 1;
        }
        assert(given_headers(list@) =~= self.header_views());
        list
    }

    pub fn has_headers(&self) -> (has: bool)
        ensures
            has == (self.header_views().len() > 0),
    {
        self.parts.headers.len() > 0
    }

    pub fn key_preview(&self) -> (line: &Arc<String>)
        ensures
            line@ == self.key_line(),
    {
        &self.parts.key_preview
    }

    pub fn value_preview(&self) -> (line: &Arc<String>)
        ensures
            line@ == self.value_line(),
    {
        &self.parts.value_preview
    }

    pub fn timestamp_text(&self) -> (text: &Arc<String>)
        ensures
            text@ == self.time_line(),
    {
        &self.parts.timestamp_text
    }

    /// The heap bytes of one stored record, with its own struct and the slots that the
    /// store keeps for it.
    pub fn byte_len(&self) -> (size: usize)
        requires
            self.wf(),
            self.size() <= usize::MAX,
        ensures
            size == self.size(),
    {
        match self.checked_byte_len() {
            Some(size) => size,
            None => 0,
        }
    }

    /// The heap bytes of one stored record, where their number fits into a word.
    pub fn checked_byte_len(&self) -> (size: Option<usize>)
        requires
            self.wf(),
        ensures
            match size {
                Some(n) => n == self.size(),
                None => self.size() > usize::MAX,
            },
    {
        let record_size: usize = core::mem::size_of::<MessageRecord>();
        let header_size: usize = core::mem::size_of::<HeaderSpan>();
        let key_size: usize = self.parts.key_preview.as_str().as_bytes().len();
        let value_size: usize = self.parts.value_preview.as_str().as_bytes().len();
        proof {
            self.sizes_count_what_is_held();
        }
        let spans: usize = self.parts.headers.len().checked_mul(header_size)?;
        self.parts.bytes.len().checked_add(spans)?.checked_add(key_size)?.checked_add(value_size)?.checked_add(
            record_size,
        )?.checked_add(32)
    }

    fn slice(&self, span: Span) -> (part: &[u8])
        requires
            span_fits(self.parts.bytes@, span),
        ensures
            part@ == self.parts.bytes@.subrange(span.start as int, span.end as int),
    {
        vstd::slice::slice_subrange(self.parts.bytes.as_slice(), span.start as usize, span.end as usize)
    }
}

// ---- the store ----

/// The newest messages, within a limit on their number and one on their memory.
pub struct MessageStore {
    items: VecDeque<Arc<MessageRecord>>,
    /// One flag for each item, in the same order, for the current search term.
    hits: VecDeque<bool>,
    query: Option<Vec<u8>>,
    matched: usize,
    max_messages: usize,
    max_bytes: usize,
    total_bytes: usize,
    total_received: u64,
}

/// The memory that messages take up together.
pub open spec fn total_size(records: Seq<MessageRecord>) -> int
    decreases records.len(),
{
    if records.len() == 0 {
        0
    } else {
        total_size(records.drop_last()) + records.last().size()
    }
}

/// Whether messages are more than a store may keep. One is never too many.
pub open spec fn too_many(records: Seq<MessageRecord>, max_messages: int, max_bytes: int) -> bool {
    records.len() > 1 && (records.len() > max_messages || total_size(records) > max_bytes)
}

/// What is kept of messages: the oldest ones go until the rest is not too many.
pub open spec fn kept_within(records: Seq<MessageRecord>, max_messages: int, max_bytes: int) -> Seq<MessageRecord>
    decreases records.len(),
{
    if too_many(records, max_messages, max_bytes) {
        kept_within(records.skip(1), max_messages, max_bytes)
    } else {
        records
    }
}

/// Whether a search keeps a message. No search keeps all.
pub open spec fn is_hit(query: Option<Seq<u8>>, record: MessageRecord) -> bool {
    query matches Some(term) ==> message_holds(record, term)
}

/// How many messages a search keeps.
pub open spec fn hit_count(query: Option<Seq<u8>>, records: Seq<MessageRecord>) -> nat
    decreases records.len(),
{
    if records.len() == 0 {
        0
    } else {
        hit_count(query, records.drop_last()) + if is_hit(query, records.last()) {
            1nat
        } else {
            0nat
        }
    }
}

/// The rows that a search keeps, from a row on. The newest message is row 0.
pub open spec fn hit_rows(query: Option<Seq<u8>>, records: Seq<MessageRecord>, row: int) -> Seq<int>
    decreases records.len() - row,
{
    if row < 0 || row >= records.len() {
        Seq::empty()
    } else if is_hit(query, records[records.len() - 1 - row]) {
        seq![row] + hit_rows(query, records, row + 1)
    } else {
        hit_rows(query, records, row + 1)
    }
}

proof fn total_size_splits(records: Seq<MessageRecord>)
    requires
        records.len() > 0,
    ensures
        total_size(records) == records[0].size() + total_size(records.skip(1)),
    decreases records.len(),
{
    if records.len() > 1 {
        total_size_splits(records.drop_last());
        assert(records.skip(1).drop_last() =~= records.drop_last().skip(1));
    } else {
        assert(records.drop_last() =~= Seq::empty());
        assert(records.skip(1) =~= Seq::empty());
    }
}

proof fn hit_count_splits(query: Option<Seq<u8>>, records: Seq<MessageRecord>)
    requires
        records.len() > 0,
    ensures
        hit_count(query, records) == hit_count(query, records.skip(1)) + if is_hit(query, records[0]) {
            1nat
        } else {
            0nat
        },
    decreases records.len(),
{
    if records.len() > 1 {
        hit_count_splits(query, records.drop_last());
        assert(records.skip(1).drop_last() =~= records.drop_last().skip(1));
    } else {
        assert(records.drop_last() =~= Seq::empty());
        assert(records.skip(1) =~= Seq::empty());
    }
}

pub open spec fn all_wf(records: Seq<MessageRecord>) -> bool {
    forall|i: int| 0 <= i < records.len() ==> (#[trigger] records[i]).wf()
}

proof fn total_size_counts(records: Seq<MessageRecord>)
    requires
        all_wf(records),
    ensures
        total_size(records) >= records.len(),
    decreases records.len(),
{
    if records.len() > 0 {
        assert(all_wf(records.drop_last()));
        total_size_counts(records.drop_last());
        records.last().sizes_count_what_is_held();
    }
}

/// A search keeps no more messages than there are, and no search keeps all.
pub proof fn hit_count_is_bounded(query: Option<Seq<u8>>, records: Seq<MessageRecord>)
    ensures
        hit_count(query, records) <= records.len(),
        query is None ==> hit_count(query, records) == records.len(),
    decreases records.len(),
{
    if records.len() > 0 {
        hit_count_is_bounded(query, records.drop_last());
    }
}

proof fn total_size_grows(records: Seq<MessageRecord>, i: int)
    requires
        0 <= i <= records.len(),
        all_wf(records),
    ensures
        total_size(records.take(i)) <= total_size(records),
    decreases records.len() - i,
{
    if i < records.len() {
        total_size_grows(records, i + 1);
        assert(records.take(i + 1).drop_last() =~= records.take(i));
        records[i].sizes_count_what_is_held();
    } else {
        assert(records.take(i) =~= records);
    }
}

/// The bytes of an optional term.
pub open spec fn term_view(query: Option<Vec<u8>>) -> Option<Seq<u8>> {
    match query {
        Some(term) => Some(term@),
        None => None,
    }
}

impl MessageStore {
    /// The messages, oldest first.
    pub closed spec fn records(&self) -> Seq<MessageRecord> {
        self.items@.map_values(|item: Arc<MessageRecord>| *item)
    }

    pub closed spec fn query(&self) -> Option<Seq<u8>> {
        term_view(self.query)
    }

    pub closed spec fn message_limit(&self) -> int {
        self.max_messages as int
    }

    pub closed spec fn byte_limit(&self) -> int {
        self.max_bytes as int
    }

    pub closed spec fn received(&self) -> int {
        self.total_received as int
    }

    /// The sums and flags that the store keeps are those of its messages.
    closed spec fn sums_agree(&self) -> bool {
        &&& self.total_bytes == total_size(self.records())
        &&& self.matched == hit_count(self.query(), self.records())
        &&& self.hits@.len() == self.items@.len()
        &&& forall|i: int|
            0 <= i < self.items@.len() ==> #[trigger] self.hits@[i] == is_hit(self.query(), self.records()[i])
    }

    pub closed spec fn wf(&self) -> bool {
        &&& all_wf(self.records())
        &&& self.sums_agree()
        &&& self.max_messages >= 1
        &&& self.max_bytes >= 1
        &&& !too_many(self.records(), self.message_limit(), self.byte_limit())
        &&& self.records().len() <= self.received()
    }

    /// Nothing but the messages differs.
    pub open spec fn same_but_messages(&self, other: &Self) -> bool {
        &&& self.query() == other.query()
        &&& self.message_limit() == other.message_limit()
        &&& self.byte_limit() == other.byte_limit()
    }

    /// Whether a store is another one that has taken a batch: the messages follow those
    /// that were there, and the oldest go that are then too many.
    pub open spec fn has_taken(&self, before: &Self, batch: Seq<MessageRecord>) -> bool {
        &&& self.wf()
        &&& self.records() == kept_within(before.records() + batch, before.message_limit(), before.byte_limit())
        &&& self.received() == before.received() + batch.len()
        &&& self.same_but_messages(before)
    }

    /// A store holds no more messages and no more memory than it may, unless it holds
    /// a single message, and never more messages than it received.
    pub proof fn limits_are_kept(&self)
        requires
            self.wf(),
        ensures
            self.records().len() <= 1 || self.records().len() <= self.message_limit(),
            self.records().len() <= 1 || total_size(self.records()) <= self.byte_limit(),
            1 <= self.message_limit(),
            1 <= self.byte_limit(),
            self.records().len() <= self.received(),
            all_wf(self.records()),
    {
    }

    pub fn new(max_messages: usize, max_bytes: usize) -> (store: Self)
        ensures
            store.wf(),
            store.records() == Seq::<MessageRecord>::empty(),
            store.query() is None,
            store.message_limit() == (if max_messages >= 1 { max_messages as int } else { 1 }),
            store.byte_limit() == (if max_bytes >= 1 { max_bytes as int } else { 1 }),
            store.received() == 0,
    {
        let store = MessageStore {
            items: VecDeque::new(),
            hits: VecDeque::new(),
            query: None,
            matched: 0,
            max_messages: if max_messages >= 1 { max_messages } else { 1 },
            max_bytes: if max_bytes >= 1 { max_bytes } else { 1 },
            total_bytes: 0,
            total_received: 0,
        };
        assert(store.records() =~= Seq::<MessageRecord>::empty());
        store
    }

    /// Whether the current search keeps a message.
    fn hit(&self, record: &MessageRecord) -> (hit: bool)
        requires
            record.wf(),
        ensures
            hit == is_hit(self.query(), *record),
    {
        match &self.query {
            Some(term) => crate::model::search::matches(record, term.as_slice()),
            None => true,
        }
    }

    /// Whether messages can be added: their memory and their number can still be counted.
    pub fn has_room(&self, batch: &Vec<MessageRecord>) -> (room: bool)
        requires
            self.wf(),
            all_wf(batch@),
        ensures
            room == (total_size(self.records() + batch@) <= usize::MAX && self.received() + batch@.len() <= u64::MAX),
    {
        let ghost all = self.records() + batch@;
        let ghost held = self.records().len() as int;
        let mut bytes: usize = self.total_bytes;
        let mut i: usize = 0;
        assert(all.take(held) =~= self.records());
        assert(all_wf(all));
        while i < batch.len()
            invariant
                i <= batch@.len(),
                all == self.records() + batch@,
                held == self.records().len(),
                all_wf(all),
                bytes == total_size(all.take(held + i)),
            decreases batch.len() - i,
        {
            proof {
                assert(all[held + i] == batch@[i as int]);
                assert(all.take(held + i + 1).drop_last() =~= all.take(held + i));
                total_size_grows(all, held + i + 1);
                assert(all_wf(all.take(held + i)));
                total_size_counts(all.take(held + i));
            }
            let size: usize = match batch[i].checked_byte_len() {
                Some(size) => size,
                None => {
                    return false;
                },
            };
            bytes = match bytes.checked_add(size) {
                Some(sum) => sum,
                None => {
                    return false;
                },
            };
            i = i + 1;
        }
        assert(all.take(held + i) =~= all);
        batch.len() as u64 <= u64::MAX - self.total_received
    }

    /// Adds messages, the newest last, and lets the oldest go that are too many.
    pub fn push_batch(&mut self, batch: Vec<MessageRecord>)
        requires
            old(self).wf(),
            all_wf(batch@),
            total_size(old(self).records() + batch@) <= usize::MAX,
            old(self).received() + batch@.len() <= u64::MAX,
        ensures
            final(self).has_taken(old(self), batch@),
    {
        let ghost all = self.records() + batch@;
        let ghost held = self.records().len() as int;
        let ghost given = batch@;
        proof {
            assert(self.records().len() == self.items@.len());
            assert(all.take(held) =~= self.records());
            assert(all_wf(all));
        }
        let mut rest = crate::order::reversed(batch);
        assert(given.skip(0) =~= given);
        let ghost mut done: int = 0;
        while rest.len() > 0
            invariant
                0 <= done <= given.len(),
                rest@ == given.skip(done).reverse(),
                held == old(self).records().len(),
                all == old(self).records() + given,
                all_wf(all),
                total_size(all) <= usize::MAX,
                old(self).received() + given.len() <= u64::MAX,
                self.items@.len() == self.records().len(),
                self.records() == all.take(held + done),
                self.sums_agree(),
                self.received() == old(self).received() + done,
                self.records().len() <= self.received(),
                self.same_but_messages(old(self)),
                self.max_messages >= 1,
                self.max_bytes >= 1,
            decreases rest.len(),
        {
            proof {
                assert(rest@.len() == given.len() - done);
                assert(rest@.last() == given[done]);
            }
            match rest.pop() {
                Some(record) => {
                    let ghost before = *self;
                    proof {
                        assert(record == given[done]);
                        assert(all[held + done] == record);
                        total_size_grows(all, held + done + 1);
                        assert(all.take(held + done + 1).drop_last() =~= all.take(held + done));
                        assert(all_wf(all.take(held + done + 1)));
                        total_size_counts(all.take(held + done + 1));
                        hit_count_is_bounded(self.query(), all.take(held + done));
                    }
                    let size: usize = record.byte_len();
                    let hit: bool = self.hit(&record);
                    self.total_bytes = self.total_bytes + size;
                    self.total_received = self.total_received + 1;
                    if hit {
                        self.matched = self.matched + 1;
                    }
                    self.hits.push_back(hit);
                    self.items.push_back(Arc::new(record));
                    proof {
                        assert(self.records() =~= before.records().push(record));
                        assert(self.records() =~= all.take(held + done + 1));
                        assert(given.skip(done + 1).reverse() =~= rest@);
                        assert forall|i: int| 0 <= i < self.items@.len() implies #[trigger] self.hits@[i] == is_hit(
                            self.query(),
                            self.records()[i],
                        ) by {
                            if i < before.items@.len() {
                                assert(self.hits@[i] == before.hits@[i]);
                                assert(self.records()[i] == before.records()[i]);
                            }
                        }
                        done = done + 1;
                    }
                },
                None => {},
            }
        }
        proof {
            assert(rest@.len() == given.len() - done);
            assert(self.records() =~= all);
        }
        self.evict();
    }

    /// Sets the search term. `None` shows every message.
    pub fn set_query(&mut self, query: Option<Vec<u8>>)
        requires
            old(self).wf(),
        ensures
            final(self).wf(),
            final(self).query() == term_view(query),
            final(self).records() == old(self).records(),
            final(self).received() == old(self).received(),
            final(self).message_limit() == old(self).message_limit(),
            final(self).byte_limit() == old(self).byte_limit(),
    {
        let ghost records = self.records();
        self.query = query;
        self.matched = 0;
        self.hits.clear();
        let mut i: usize = 0;
        assert(records.take(0) =~= Seq::empty());
        while i < self.items.len()
            invariant
                i <= self.items@.len(),
                records == old(self).records(),
                records.len() == self.items@.len(),
                self.items == old(self).items,
                self.records() == records,
                all_wf(records),
                self.query() == term_view(query),
                self.received() == old(self).received(),
                self.message_limit() == old(self).message_limit(),
                self.byte_limit() == old(self).byte_limit(),
                self.total_bytes == old(self).total_bytes,
                self.matched == hit_count(self.query(), records.take(i as int)),
                self.hits@.len() == i,
                forall|k: int| 0 <= k < i ==> #[trigger] self.hits@[k] == is_hit(self.query(), records[k]),
            decreases self.items.len() - i,
        {
            let hit: bool = {
                let record = &self.items[i];
                assert(**record == records[i as int]);
                self.hit(record)
            };
            proof {
                assert(records.take(i + 1).drop_last() =~= records.take(i as int));
                hit_count_is_bounded(self.query(), records.take(i as int));
            }
            if hit {
                self.matched = self.matched + 1;
            }
            self.hits.push_back(hit);
            i = i + 1;
        }
        assert(records.take(i as int) =~= records);
    }

    pub fn has_query(&self) -> (has: bool)
        ensures
            has == (self.query() is Some),
    {
        self.query.is_some()
    }

    /// The number of messages that the search term keeps.
    pub fn matched_len(&self) -> (n: usize)
        requires
            self.wf(),
        ensures
            n == hit_count(self.query(), self.records()),
    {
        self.matched
    }

    /// The rows that the search term keeps, newest first.
    pub fn matched_rows(&self) -> (rows: Vec<usize>)
        requires
            self.wf(),
        ensures
            rows@.map_values(|row: usize| row as int) == hit_rows(self.query(), self.records(), 0),
    {
        let n: usize = self.items.len();
        let mut rows: Vec<usize> = Vec::new();
        let mut row: usize = 0;
        let ghost whole = hit_rows(self.query(), self.records(), 0);
        assert(rows@.map_values(|row: usize| row as int) + whole =~= whole);
        while row < n
            invariant
                self.wf(),
                n == self.items@.len(),
                n == self.records().len(),
                row <= n,
                whole == hit_rows(self.query(), self.records(), 0),
                rows@.map_values(|row: usize| row as int) + hit_rows(self.query(), self.records(), row as int) == whole,
            decreases n - row,
        {
            let ghost before = rows@.map_values(|row: usize| row as int);
            let ghost from = hit_rows(self.query(), self.records(), row as int);
            assert(self.hits@[n - 1 - row] == is_hit(self.query(), self.records()[n - 1 - row]));
            if self.hits[n - 1 - row] {
                rows.push(row);
                proof {
                    assert(rows@.map_values(|row: usize| row as int) =~= before.push(row as int));
                    let rest = hit_rows(self.query(), self.records(), row + 1);
                    assert(from =~= seq![row as int] + rest);
                    assert(before + from =~= before.push(row as int) + rest);
                }
            }
            row = row + 1;
        }
        assert(rows@.map_values(|row: usize| row as int) =~= whole);
        rows
    }

    fn evict(&mut self)
        requires
            all_wf(old(self).records()),
            old(self).sums_agree(),
            old(self).max_messages >= 1,
            old(self).max_bytes >= 1,
            old(self).records().len() <= old(self).received(),
        ensures
            final(self).wf(),
            final(self).records() == kept_within(
                old(self).records(),
                old(self).message_limit(),
                old(self).byte_limit(),
            ),
            final(self).received() == old(self).received(),
            final(self).same_but_messages(old(self)),
    {
        while self.items.len() > 1 && (self.items.len() > self.max_messages || self.total_bytes > self.max_bytes)
            invariant
                all_wf(self.records()),
                self.sums_agree(),
                self.items@.len() == self.records().len(),
                self.max_messages >= 1,
                self.max_bytes >= 1,
                self.received() == old(self).received(),
                self.records().len() <= self.received(),
                self.same_but_messages(old(self)),
                kept_within(old(self).records(), self.message_limit(), self.byte_limit()) == kept_within(
                    self.records(),
                    self.message_limit(),
                    self.byte_limit(),
                ),
            decreases self.items.len(),
        {
            let ghost before = *self;
            proof {
                total_size_splits(self.records());
                hit_count_splits(self.query(), self.records());
                assert(all_wf(self.records().skip(1)));
                total_size_counts(self.records().skip(1));
                assert(self.hits@[0] == is_hit(self.query(), self.records()[0]));
            }
            match self.items.pop_front() {
                Some(oldest) => {
                    assert(*oldest == before.records()[0]);
                    self.total_bytes = self.total_bytes - oldest.byte_len();
                },
                None => {},
            }
            match self.hits.pop_front() {
                Some(hit) => {
                    if hit {
                        self.matched = self.matched - 1;
                    }
                },
                None => {},
            }
            proof {
                assert(self.records() =~= before.records().skip(1));
                assert forall|i: int| 0 <= i < self.items@.len() implies #[trigger] self.hits@[i] == is_hit(
                    self.query(),
                    self.records()[i],
                ) by {
                    assert(self.hits@[i] == before.hits@[i + 1]);
                    assert(self.records()[i] == before.records()[i + 1]);
                }
            }
        }
    }

    /// Sets the limits, and lets the oldest messages go that are then too many.
    pub fn set_limits(&mut self, max_messages: usize, max_bytes: usize)
        requires
            old(self).wf(),
        ensures
            final(self).wf(),
            final(self).message_limit() == (if max_messages >= 1 { max_messages as int } else { 1 }),
            final(self).byte_limit() == (if max_bytes >= 1 { max_bytes as int } else { 1 }),
            final(self).records() == kept_within(
                old(self).records(),
                final(self).message_limit(),
                final(self).byte_limit(),
            ),
            final(self).query() == old(self).query(),
            final(self).received() == old(self).received(),
    {
        self.max_messages = if max_messages >= 1 { max_messages } else { 1 };
        self.max_bytes = if max_bytes >= 1 { max_bytes } else { 1 };
        assert(self.records() =~= old(self).records());
        self.evict();
    }

    /// The messages, newest first.
    pub fn iter(&self) -> (list: Vec<&Arc<MessageRecord>>)
        requires
            self.wf(),
        ensures
            list@.map_values(|item: &Arc<MessageRecord>| **item) == self.records().reverse(),
    {
        let n: usize = self.items.len();
        let mut list: Vec<&Arc<MessageRecord>> = Vec::new();
        let mut row: usize = 0;
        while row < n
            invariant
                n == self.items@.len(),
                n == self.records().len(),
                row <= n,
                list@.len() == row,
                forall|k: int| 0 <= k < row ==> **(#[trigger] list@[k]) == self.records()[n - 1 - k],
            decreases n - row,
        {
            let item = &self.items[n - 1 - row];
            assert(**item == self.records()[n - 1 - row]);
            list.push(item);
            row = row + 1;
        }
        assert(list@.map_values(|item: &Arc<MessageRecord>| **item) =~= self.records().reverse());
        list
    }

    /// The message of a row. The newest message is row 0.
    pub fn get(&self, row: usize) -> (item: Option<&Arc<MessageRecord>>)
        ensures
            match item {
                Some(i) => row < self.records().len() && **i == self.records()[self.records().len() - 1 - row],
                None => row >= self.records().len(),
            },
    {
        let n: usize = self.items.len();
        if row >= n {
            return None;
        }
        let item = &self.items[n - 1 - row];
        assert(**item == self.records()[n - 1 - row]);
        Some(item)
    }

    pub fn len(&self) -> (n: usize)
        ensures
            n == self.records().len(),
    {
        self.items.len()
    }

    pub fn is_empty(&self) -> (empty: bool)
        ensures
            empty == (self.records().len() == 0),
    {
        self.items.len() == 0
    }

    pub fn total_bytes(&self) -> (bytes: usize)
        requires
            self.wf(),
        ensures
            bytes == total_size(self.records()),
    {
        self.total_bytes
    }

    pub fn total_received(&self) -> (n: u64)
        ensures
            n == self.received(),
    {
        self.total_received
    }

    /// Lets all messages go. How many were received stays.
    pub fn clear(&mut self)
        requires
            old(self).wf(),
        ensures
            final(self).wf(),
            final(self).records() == Seq::<MessageRecord>::empty(),
            final(self).received() == old(self).received(),
            final(self).same_but_messages(old(self)),
    {
        self.items.clear();
        self.hits.clear();
        self.matched = 0;
        self.total_bytes = 0;
        assert(self.records() =~= Seq::<MessageRecord>::empty());
    }
}

/// What is kept is the newest part of the messages, with the newest one always in it.
pub proof fn the_newest_are_kept(records: Seq<MessageRecord>, max_messages: int, max_bytes: int)
    ensures
        kept_within(records, max_messages, max_bytes).len() <= records.len(),
        kept_within(records, max_messages, max_bytes) == records.skip(
            records.len() - kept_within(records, max_messages, max_bytes).len(),
        ),
        records.len() > 0 ==> kept_within(records, max_messages, max_bytes).len() > 0,
        records.len() > 0 ==> kept_within(records, max_messages, max_bytes).last() == records.last(),
        !too_many(kept_within(records, max_messages, max_bytes), max_messages, max_bytes),
    decreases records.len(),
{
    if too_many(records, max_messages, max_bytes) {
        the_newest_are_kept(records.skip(1), max_messages, max_bytes);
        let kept = kept_within(records, max_messages, max_bytes);
        assert(records.skip(1).skip(records.len() - 1 - kept.len()) =~= records.skip(records.len() - kept.len()));
    } else {
        assert(records.skip(0) =~= records);
    }
}

/// No message goes without need: with the last one that went, they would be too many.
pub proof fn nothing_goes_without_need(records: Seq<MessageRecord>, max_messages: int, max_bytes: int)
    requires
        kept_within(records, max_messages, max_bytes).len() < records.len(),
    ensures
        too_many(
            records.skip(records.len() - kept_within(records, max_messages, max_bytes).len() - 1),
            max_messages,
            max_bytes,
        ),
    decreases records.len(),
{
    let kept = kept_within(records, max_messages, max_bytes);
    if kept.len() < records.len() - 1 {
        nothing_goes_without_need(records.skip(1), max_messages, max_bytes);
        assert(records.skip(1).skip(records.len() - 1 - kept.len() - 1) =~= records.skip(
            records.len() - kept.len() - 1,
        ));
    } else {
        the_newest_are_kept(records, max_messages, max_bytes);
        assert(records.skip(0) =~= records);
    }
}

/// The rows of a search go up, each shows a hit, and no hit is missing.
pub proof fn rows_are_the_hits(query: Option<Seq<u8>>, records: Seq<MessageRecord>, from: int)
    requires
        0 <= from,
    ensures
        forall|i: int|
            0 <= i < hit_rows(query, records, from).len() ==> {
                let row = #[trigger] hit_rows(query, records, from)[i];
                from <= row < records.len() && is_hit(query, records[records.len() - 1 - row])
            },
        forall|i: int, j: int|
            #![trigger hit_rows(query, records, from)[i], hit_rows(query, records, from)[j]]
            0 <= i < j < hit_rows(query, records, from).len() ==> hit_rows(query, records, from)[i] < hit_rows(
                query,
                records,
                from,
            )[j],
        forall|row: int|
            from <= row < records.len() && is_hit(query, #[trigger] records[records.len() - 1 - row]) ==> hit_rows(
                query,
                records,
                from,
            ).contains(row),
    decreases records.len() - from,
{
    if from < records.len() {
        rows_are_the_hits(query, records, from + 1);
        let rest = hit_rows(query, records, from + 1);
        let rows = hit_rows(query, records, from);
        let hit = is_hit(query, records[records.len() - 1 - from]);
        let shift: int = if hit {
            1
        } else {
            0
        };
        assert forall|i: int| 0 <= i < rows.len() implies ({
            let row = #[trigger] rows[i];
            from <= row < records.len() && is_hit(query, records[records.len() - 1 - row])
        }) by {
            if i >= shift {
                assert(rows[i] == rest[i - shift]);
            }
        }
        assert forall|i: int, j: int| #![trigger rows[i], rows[j]] 0 <= i < j < rows.len() implies rows[i] < rows[j] by {
            assert(rows[j] == rest[j - shift]);
            if i >= shift {
                assert(rows[i] == rest[i - shift]);
            }
        }
        assert forall|row: int|
            from <= row < records.len() && is_hit(query, #[trigger] records[records.len() - 1 - row]) implies rows.contains(
            row,
        ) by {
            if row == from {
                assert(rows[0] == row);
            } else {
                let i = choose|i: int| 0 <= i < rest.len() && rest[i] == row;
                assert(rows[i + shift] == row);
            }
        }
    }
}

/// As many rows are shown as the store counts hits.
pub proof fn rows_are_counted(query: Option<Seq<u8>>, records: Seq<MessageRecord>)
    ensures
        hit_rows(query, records, 0).len() == hit_count(query, records),
{
    rows_are_counted_from(query, records, 0);
    assert(records.take(records.len() as int) =~= records);
}

proof fn rows_are_counted_from(query: Option<Seq<u8>>, records: Seq<MessageRecord>, from: int)
    requires
        0 <= from <= records.len(),
    ensures
        hit_rows(query, records, from).len() == hit_count(query, records.take(records.len() - from)),
    decreases records.len() - from,
{
    if from < records.len() {
        rows_are_counted_from(query, records, from + 1);
        assert(records.take(records.len() - from).drop_last() =~= records.take(records.len() - from - 1));
    } else {
        assert(records.take(0) =~= Seq::empty());
    }
}

/// Receiving messages one batch after the other keeps what receiving them at once does.
pub proof fn batches_add_up(
    held: Seq<MessageRecord>,
    first: Seq<MessageRecord>,
    second: Seq<MessageRecord>,
    max_messages: int,
    max_bytes: int,
)
    requires
        all_wf(held),
        all_wf(first),
        all_wf(second),
        1 <= max_messages,
    ensures
        kept_within(kept_within(held + first, max_messages, max_bytes) + second, max_messages, max_bytes)
            == kept_within(held + (first + second), max_messages, max_bytes),
{
    assert((held + first) + second =~= held + (first + second));
    assert(all_wf(held + first));
    dropping_early_changes_nothing(held + first, second, max_messages, max_bytes);
}

/// Taking two batches one after the other leaves the store that taking them at once does:
/// the same messages in the same rows, the same memory, the same hits and the same count of
/// what was received.
pub proof fn two_batches_are_like_one(
    before: MessageStore,
    at_once: MessageStore,
    halfway: MessageStore,
    in_parts: MessageStore,
    first: Seq<MessageRecord>,
    second: Seq<MessageRecord>,
)
    requires
        before.wf(),
        all_wf(first),
        all_wf(second),
        at_once.has_taken(&before, first + second),
        halfway.has_taken(&before, first),
        in_parts.has_taken(&halfway, second),
    ensures
        in_parts.records() == at_once.records(),
        in_parts.received() == at_once.received(),
        at_once.received() == before.received() + first.len() + second.len(),
        in_parts.same_but_messages(&at_once),
        total_size(in_parts.records()) == total_size(at_once.records()),
        hit_count(in_parts.query(), in_parts.records()) == hit_count(at_once.query(), at_once.records()),
        hit_rows(in_parts.query(), in_parts.records(), 0) == hit_rows(at_once.query(), at_once.records(), 0),
{
    before.limits_are_kept();
    batches_add_up(before.records(), first, second, before.message_limit(), before.byte_limit());
}

proof fn total_size_adds_up(a: Seq<MessageRecord>, b: Seq<MessageRecord>)
    ensures
        total_size(a + b) == total_size(a) + total_size(b),
    decreases b.len(),
{
    if b.len() > 0 {
        total_size_adds_up(a, b.drop_last());
        assert((a + b).drop_last() =~= a + b.drop_last());
    } else {
        assert(a + b =~= a);
    }
}

proof fn dropping_early_changes_nothing(
    a: Seq<MessageRecord>,
    b: Seq<MessageRecord>,
    max_messages: int,
    max_bytes: int,
)
    requires
        all_wf(a),
        all_wf(b),
    ensures
        kept_within(kept_within(a, max_messages, max_bytes) + b, max_messages, max_bytes) == kept_within(
            a + b,
            max_messages,
            max_bytes,
        ),
    decreases a.len(),
{
    if too_many(a, max_messages, max_bytes) {
        assert(all_wf(a.skip(1)));
        dropping_early_changes_nothing(a.skip(1), b, max_messages, max_bytes);
        total_size_adds_up(a, b);
        total_size_counts(b);
        assert(too_many(a + b, max_messages, max_bytes));
        assert((a + b).skip(1) =~= a.skip(1) + b);
    }
}

/// Nothing goes where everything fits: neither more messages than allowed nor more memory.
pub proof fn what_fits_is_kept(records: Seq<MessageRecord>, max_messages: int, max_bytes: int)
    requires
        records.len() <= max_messages,
        total_size(records) <= max_bytes,
    ensures
        kept_within(records, max_messages, max_bytes) == records,
{
}

/// What is kept is the longest part at the end that fits, and the newest message in any
/// case: it has no more messages and no more memory than allowed, and with the message
/// before it, it would have.
pub proof fn the_longest_end_that_fits_is_kept(records: Seq<MessageRecord>, max_messages: int, max_bytes: int)
    requires
        records.len() > 0,
    ensures
        ({
            let kept = kept_within(records, max_messages, max_bytes);
            let longer = records.skip(records.len() - kept.len() - 1);
            &&& kept.len() == 1 || kept.len() <= max_messages && total_size(kept) <= max_bytes
            &&& kept.len() < records.len() ==> kept.len() + 1 > max_messages || total_size(longer) > max_bytes
        }),
{
    the_newest_are_kept(records, max_messages, max_bytes);
    if kept_within(records, max_messages, max_bytes).len() < records.len() {
        nothing_goes_without_need(records, max_messages, max_bytes);
    }
}

/// Messages take up together what each takes up: a single one its own memory, and two rows
/// of them the sum.
pub proof fn memory_adds_up(record: MessageRecord, a: Seq<MessageRecord>, b: Seq<MessageRecord>)
    ensures
        total_size(seq![record]) == record.size(),
        total_size(a + b) == total_size(a) + total_size(b),
        total_size(Seq::empty()) == 0,
{
    assert(seq![record].drop_last() =~= Seq::empty());
    assert(total_size(seq![record].drop_last()) == 0);
    total_size_adds_up(a, b);
}

/// Hits are counted one by one: a message counts once where the search keeps it, and two rows
/// of messages have the hits of both.
pub proof fn hits_add_up(query: Option<Seq<u8>>, record: MessageRecord, a: Seq<MessageRecord>, b: Seq<MessageRecord>)
    ensures
        hit_count(query, seq![record]) == (if is_hit(query, record) {
            1nat
        } else {
            0
        }),
        hit_count(query, a + b) == hit_count(query, a) + hit_count(query, b),
    decreases b.len(),
{
    assert(seq![record].drop_last() =~= Seq::empty());
    assert(hit_count(query, seq![record].drop_last()) == 0);
    if b.len() > 0 {
        hits_add_up(query, record, a, b.drop_last());
        assert((a + b).drop_last() =~= a + b.drop_last());
    } else {
        assert(a + b =~= a);
    }
}

/// A preview shows the start of a text, character by character: a line end or a tab as a
/// space, and each other one as it is. An ellipsis follows where the text is longer.
pub proof fn previews_show_the_start(text: Seq<char>, max_chars: int)
    requires
        0 <= max_chars,
    ensures
        ({
            let line = preview_of_text(text, false, max_chars);
            &&& text.len() <= max_chars ==> line.len() == text.len()
            &&& text.len() > max_chars ==> line.len() == max_chars + 1 && line.last() == '\u{2026}'
            &&& forall|k: int|
                0 <= k < text.len() && k < max_chars ==> #[trigger] line[k] == (if text[k] == '\n' || text[k] == '\r'
                    || text[k] == '\t' {
                    ' '
                } else {
                    text[k]
                })
        }),
{
}

/// What is previewed of a key or a value: a word in brackets where there is none or an empty
/// one, and of valid UTF-8 the start of its text.
pub proof fn a_preview_shows_its_part(bytes: Option<&[u8]>, max_chars: usize, line: Arc<String>)
    requires
        call_ensures(preview, (bytes, max_chars), line),
    ensures
        bytes is None ==> line@ == "<null>"@,
        bytes matches Some(b) ==> (b@.len() == 0 ==> line@ == "<empty>"@),
        bytes matches Some(b) ==> (b@.len() > 0 && valid_utf8(b@) && decode_utf8(b@).len() <= max_chars ==> {
            let text = decode_utf8(b@);
            &&& line@.len() == text.len()
            &&& forall|k: int|
                0 <= k < text.len() ==> #[trigger] line@[k] == text[k] || line@[k] == ' ' && (text[k] == '\n' || text[k]
                    == '\r' || text[k] == '\t')
        }),
{
    if bytes is Some && (bytes->0)@.len() > 0 && valid_utf8((bytes->0)@) {
        previews_show_the_start(decode_utf8((bytes->0)@), max_chars as int);
    }
}

/// A message holds what it was made of: its topic, its place, its time, its key, its value and
/// its headers.
pub proof fn a_message_holds_what_it_was_made_of(
    topic: Arc<String>,
    partition: i32,
    offset: i64,
    timestamp_ms: Option<i64>,
    key: Option<&[u8]>,
    value: Option<&[u8]>,
    headers: &[(&str, Option<&[u8]>)],
    record: MessageRecord,
    key_back: Option<&[u8]>,
    value_back: Option<&[u8]>,
    headers_back: Vec<(&str, Option<&[u8]>)>,
)
    requires
        call_ensures(MessageRecord::new, (topic, partition, offset, timestamp_ms, key, value, headers), record),
        call_ensures(MessageRecord::key, (&record,), key_back),
        call_ensures(MessageRecord::value, (&record,), value_back),
        call_ensures(MessageRecord::headers, (&record,), headers_back),
    ensures
        record.topic == topic && record.partition == partition && record.offset == offset,
        record.timestamp_ms == timestamp_ms,
        bytes_view(key_back) == bytes_view(key),
        bytes_view(value_back) == bytes_view(value),
        headers_back@.len() == headers@.len(),
        forall|k: int|
            0 <= k < headers@.len() ==> (#[trigger] headers_back@[k]).0@ == headers@[k].0@ && bytes_view(
                headers_back@[k].1,
            ) == bytes_view(headers@[k].1),
{
    assert(given_headers(headers_back@) == given_headers(headers@));
    assert(given_headers(headers_back@).len() == headers_back@.len());
    assert(given_headers(headers@).len() == headers@.len());
    assert forall|k: int| 0 <= k < headers@.len() implies (#[trigger] headers_back@[k]).0@ == headers@[k].0@ && bytes_view(
        headers_back@[k].1,
    ) == bytes_view(headers@[k].1) by {
        assert(given_headers(headers_back@)[k] == given_headers(headers@)[k]);
    }
}

/// The bytes of headers add up: a header takes up its name and its value, and two rows of
/// headers take up what each does.
pub proof fn header_bytes_add_up(first: Seq<HeaderView>, second: Seq<HeaderView>, header: HeaderView)
    ensures
        headers_size(first + second) == headers_size(first) + headers_size(second),
        headers_size(seq![header]) == encode_utf8(header.name).len() + (match header.value {
            Some(bytes) => bytes.len(),
            None => 0,
        }),
    decreases second.len(),
{
    assert(seq![header].drop_last() =~= Seq::empty());
    assert(headers_size(seq![header].drop_last()) == 0);
    if second.len() == 0 {
        assert(first + second =~= first);
    } else {
        header_bytes_add_up(first, second.drop_last(), header);
        assert((first + second).drop_last() =~= first + second.drop_last());
    }
}

/// The memory of a message counts its key, its value, its headers, its previews, and the
/// places of its headers, each once, besides what each message takes up.
pub proof fn memory_counts_each_part(record: MessageRecord)
    requires
        record.wf(),
    ensures
        record.size() == part_size(record.key_bytes()) + part_size(record.value_bytes()) + headers_size(
            record.header_views(),
        ) + encode_utf8(record.key_line()).len() + encode_utf8(record.value_line()).len() + record.header_views().len()
            * size_of::<HeaderSpan>() + size_of::<MessageRecord>() + 32,
{
    record.payload_is_its_parts();
}

/// The rows of a store count from the newest message: row zero is the last that came.
pub proof fn the_newest_message_is_in_the_first_row(store: &MessageStore, row: usize, item: Option<&Arc<MessageRecord>>)
    requires
        call_ensures(MessageStore::get, (store, row), item),
    ensures
        item is Some <==> row < store.records().len(),
        row == 0 && item is Some ==> **item->0 == store.records().last(),
        item is Some ==> **item->0 == store.records().reverse()[row as int],
{
}

/// A timestamp is shown as a dash where there is none, and else in a text that ends in its
/// milliseconds.
pub proof fn timestamps_end_in_their_milliseconds(ms: int, text: Seq<char>, timestamp: i64)
    requires
        shows_timestamp(text, Some(timestamp)),
        in_calendar(timestamp as int),
        0 <= ms < 1000,
        timestamp as int % 1000 == ms,
    ensures
        text.len() >= 4,
        text[text.len() - 4] == '.',
        digits_value(text.skip(text.len() - 3)) == ms,
{
    let tail = millis_text(timestamp as int);
    assert(text.skip(text.len() - 4) == tail);
    let last = text.skip(text.len() - 3);
    assert(last =~= tail.skip(1));
    assert(text[text.len() - 4] == text.skip(text.len() - 4)[0]);
    let n = ms as nat;
    assert(last[0] == digit_char(n / 100) && last[1] == digit_char(n / 10 % 10) && last[2] == digit_char(n % 10));
    reveal_with_fuel(digits_value, 4);
    let two = last.drop_last();
    let one = two.drop_last();
    assert(one.drop_last() =~= Seq::empty());
    assert(digits_value(one) == n / 100);
    assert(digits_value(two) == n / 100 * 10 + n / 10 % 10);
}

/// A part takes up its bytes, and one that is not there none.
pub proof fn parts_count_their_bytes(bytes: Seq<u8>)
    ensures
        part_size(Some(bytes)) == bytes.len(),
        part_size(None::<Seq<u8>>) == 0,
{
}

/// Without a search each message is a hit, and with one exactly those that hold the term.
pub proof fn hits_hold_the_term(record: MessageRecord, term: Seq<u8>)
    ensures
        is_hit(None, record),
        is_hit(Some(term), record) <==> message_holds(record, term),
{
}

/// A store takes a batch: its messages come behind those that were there, the newest is kept in
/// any case, and nothing goes while everything fits.
pub proof fn a_batch_comes_last(store: &mut MessageStore, batch: Vec<MessageRecord>)
    requires
        call_ensures(MessageStore::push_batch, (store, batch), ()),
    ensures
        final(store).received() == old(store).received() + batch@.len(),
        final(store).query() == old(store).query(),
        batch@.len() > 0 ==> final(store).records().len() > 0 && final(store).records().last() == batch@.last(),
        old(store).records().len() + batch@.len() <= old(store).message_limit() && total_size(
            old(store).records() + batch@,
        ) <= old(store).byte_limit() ==> final(store).records() == old(store).records() + batch@,
        final(store).records().len() <= 1 || final(store).records().len() <= old(store).message_limit(),
        final(store).records().len() <= 1 || total_size(final(store).records()) <= old(store).byte_limit(),
{
    let all = old(store).records() + batch@;
    let most = old(store).message_limit();
    let bytes = old(store).byte_limit();
    the_newest_are_kept(all, most, bytes);
    if all.len() > 0 {
        the_longest_end_that_fits_is_kept(all, most, bytes);
    }
    if all.len() <= most && total_size(all) <= bytes {
        what_fits_is_kept(all, most, bytes);
    }
}

/// New limits count at once: what no longer fits goes, the oldest first, and nothing else.
pub proof fn new_limits_count_at_once(store: &mut MessageStore, max_messages: usize, max_bytes: usize)
    requires
        call_ensures(MessageStore::set_limits, (store, max_messages, max_bytes), ()),
        1 <= max_messages,
        1 <= max_bytes,
    ensures
        final(store).message_limit() == max_messages,
        final(store).byte_limit() == max_bytes,
        ({
            let before = old(store).records();
            let after = final(store).records();
            &&& after.len() <= before.len() && after == before.skip(before.len() - after.len())
            &&& after.len() <= 1 || after.len() <= max_messages && total_size(after) <= max_bytes
            &&& before.len() <= max_messages && total_size(before) <= max_bytes ==> after == before
            &&& before.len() > 0 ==> after.len() > 0
        }),
        final(store).received() == old(store).received(),
{
    let before = old(store).records();
    the_newest_are_kept(before, max_messages as int, max_bytes as int);
    if before.len() > 0 {
        the_longest_end_that_fits_is_kept(before, max_messages as int, max_bytes as int);
    }
}

/// A timestamp is shown with its date, its time to the second, and its milliseconds, by the
/// clocks of some zone; where there is none, or one that no calendar holds, as a dash.
pub proof fn timestamps_are_shown_by_the_clocks_of_a_zone(timestamp_ms: Option<i64>, text: String)
    requires
        call_ensures(format_timestamp, (timestamp_ms,), text),
    ensures
        timestamp_ms is None ==> text@ == "-"@,
        timestamp_ms matches Some(ms) ==> (!in_calendar(ms as int) ==> text@ == "-"@),
        timestamp_ms matches Some(ms) ==> (in_calendar(ms as int) ==> exists|local: int|
            -86_400_000 < local - ms < 86_400_000 && (local - ms) % 1000 == 0 && text@ == #[trigger] civil_text(
                local,
                "%Y-%m-%d %H:%M:%S%.3f"@,
            )),
{
}

/// The lines of a message are short enough for a table: a key has up to 120 characters, and
/// a value up to 200, but for the ellipsis.
pub proof fn lines_are_short_enough_for_a_table(
    topic: Arc<String>,
    partition: i32,
    offset: i64,
    timestamp_ms: Option<i64>,
    key: Option<&[u8]>,
    value: Option<&[u8]>,
    headers: &[(&str, Option<&[u8]>)],
    record: MessageRecord,
)
    requires
        call_ensures(MessageRecord::new, (topic, partition, offset, timestamp_ms, key, value, headers), record),
    ensures
        record.key_line().len() <= 120 + 1,
        record.value_line().len() <= 200 + 1,
        key is None ==> record.key_line() == "<null>"@,
        value is None ==> record.value_line() == "<null>"@,
        key matches Some(b) ==> (b@.len() > 0 && valid_utf8(b@) && decode_utf8(b@).len() == 120
            ==> record.key_line().len() == 120),
        value matches Some(b) ==> (b@.len() > 0 && valid_utf8(b@) && decode_utf8(b@).len() == 200
            ==> record.value_line().len() == 200),
{
    previews_are_short(bytes_view(key), KEY_PREVIEW_CHARS as int);
    previews_are_short(bytes_view(value), VALUE_PREVIEW_CHARS as int);
}

/// The messages of a store are listed the newest first; it counts them and their bytes, and
/// those that hold what is searched for.
pub proof fn a_store_lists_its_messages(
    store: &MessageStore,
    list: Vec<&Arc<MessageRecord>>,
    count: usize,
    bytes: usize,
    hits: usize,
    rows: Vec<usize>,
    searching: bool,
)
    requires
        call_ensures(MessageStore::iter, (store,), list),
        call_ensures(MessageStore::len, (store,), count),
        call_ensures(MessageStore::total_bytes, (store,), bytes),
        call_ensures(MessageStore::matched_len, (store,), hits),
        call_ensures(MessageStore::matched_rows, (store,), rows),
        call_ensures(MessageStore::has_query, (store,), searching),
    ensures
        list@.len() == count && count == store.records().len(),
        forall|i: int| 0 <= i < count ==> **(#[trigger] list@[i]) == store.records()[count - 1 - i],
        bytes == total_size(store.records()),
        rows@.len() == hits,
        forall|i: int|
            0 <= i < rows@.len() ==> (#[trigger] rows@[i]) < count && is_hit(store.query(), **list@[rows@[i] as int]),
        !searching ==> hits == count,
{
    let all = list@.map_values(|item: &Arc<MessageRecord>| **item);
    assert(all.len() == list@.len());
    assert forall|i: int| 0 <= i < count implies **(#[trigger] list@[i]) == store.records()[count - 1 - i] by {
        assert(all[i] == **list@[i]);
    }
    let numbers = rows@.map_values(|row: usize| row as int);
    rows_are_counted(store.query(), store.records());
    rows_are_the_hits(store.query(), store.records(), 0);
    hit_count_is_bounded(store.query(), store.records());
    assert forall|i: int| 0 <= i < rows@.len() implies (#[trigger] rows@[i]) < count && is_hit(
        store.query(),
        **list@[rows@[i] as int],
    ) by {
        assert(numbers[i] == rows@[i] as int);
        assert(hit_rows(store.query(), store.records(), 0)[i] == rows@[i]);
    }
}

/// Clearing takes all messages away; how many were received still counts, and the limits and the
/// search stay.
pub proof fn a_cleared_store_is_empty(store: &mut MessageStore, count: usize, received: u64)
    requires
        call_ensures(MessageStore::clear, (store,), ()),
        call_ensures(MessageStore::len, (&*final(store),), count),
        call_ensures(MessageStore::total_received, (&*final(store),), received),
    ensures
        count == 0,
        received == old(store).received(),
        final(store).query() == old(store).query() && final(store).message_limit() == old(store).message_limit()
            && final(store).byte_limit() == old(store).byte_limit(),
{
}

/// A message tells its lines and its size, and whether it has headers.
pub proof fn a_message_tells_its_lines(
    record: &MessageRecord,
    key: &Arc<String>,
    value: &Arc<String>,
    time: &Arc<String>,
    headed: bool,
    size: Option<usize>,
    exact: usize,
)
    requires
        record.wf(),
        call_ensures(MessageRecord::key_preview, (record,), key),
        call_ensures(MessageRecord::value_preview, (record,), value),
        call_ensures(MessageRecord::timestamp_text, (record,), time),
        call_ensures(MessageRecord::has_headers, (record,), headed),
        call_ensures(MessageRecord::checked_byte_len, (record,), size),
        call_ensures(MessageRecord::byte_len, (record,), exact),
    ensures
        key@ == record.key_line() && value@ == record.value_line() && time@ == record.time_line(),
        headed <==> record.header_views().len() > 0,
        size matches Some(n) ==> n >= part_size(record.key_bytes()) + part_size(record.value_bytes()) + headers_size(
            record.header_views(),
        ) && n == exact,
{
    memory_counts_each_part(*record);
}

/// The line that is shown of a text is the text, where it is short enough and was not cut, but
/// for its line breaks and tabs; a time that cannot be shown is a dash.
pub proof fn a_short_text_is_its_own_line(text: &str, max_chars: usize, line: String, time: Option<String>, shown: String)
    requires
        call_ensures(preview_line, (text, false, max_chars), line),
        call_ensures(shown_time, (time,), shown),
    ensures
        text@.len() <= max_chars ==> line@.len() == text@.len(),
        text@.len() > max_chars ==> line@.len() == max_chars + 1 && line@.last() == '\u{2026}',
        forall|k: int|
            0 <= k < text@.len() && k < max_chars ==> #[trigger] line@[k] == (if text@[k] == '\n' || text@[k] == '\r'
                || text@[k] == '\t' {
                ' '
            } else {
                text@[k]
            }),
        time matches Some(t) ==> shown@ == t@,
        time is None ==> shown@ == "-"@,
{
    previews_show_the_start(text@, max_chars as int);
}

} // verus!
