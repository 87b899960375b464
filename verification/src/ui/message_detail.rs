//! The view of one message: its value, its key or its headers as text.

use std::sync::Arc;

use vstd::prelude::*;

use crate::model::json::{looks_like_json, read_and_laid_out, starts_like_json, try_pretty};
use crate::model::message::{
    bytes_view, given_headers, headers_are_read_plainly, headers_size, is_read_plainly, lossy_text, one_more_is_read_plainly, part_size, read_lossily, HeaderView, MessageRecord,
};
use crate::text::{
    decimal, decimal_text, join_all, joined, joined3, joined_rows_are_joined, joined_with, starts_with, views, views_grow,
};

verus! {

/// Up to this size a text is laid out at once.
pub const INLINE_RENDER_BYTES: usize = 0x1_0000;

/// Above this size a value is shown as it is.
pub const LARGE_VALUE_BYTES: usize = 0x20_0000;

#[derive(Debug, Clone, Copy, PartialEq, Eq, Structural)]
pub enum DetailTab {
    Value,
    Key,
    Headers,
}

impl DetailTab {
    pub const ALL: [DetailTab; 3] = [DetailTab::Value, DetailTab::Key, DetailTab::Headers];

    pub fn label(self) -> (label: &'static str)
        ensures
            label@ == (match self {
                DetailTab::Value => "Value"@,
                DetailTab::Key => "Key"@,
                DetailTab::Headers => "Headers"@,
            }),
    {
        match self {
            DetailTab::Value => "Value",
            DetailTab::Key => "Key",
            DetailTab::Headers => "Headers",
        }
    }

    /// The tab at a place; behind the last one it is the last.
    pub fn at(place: usize) -> (tab: DetailTab)
        ensures
            tab == (if place == 0 {
                DetailTab::Value
            } else if place == 1 {
                DetailTab::Key
            } else {
                DetailTab::Headers
            }),
    {
        if place == 0 {
            DetailTab::Value
        } else if place == 1 {
            DetailTab::Key
        } else {
            DetailTab::Headers
        }
    }

    /// The place of a tab.
    pub fn place(self) -> (place: usize)
        ensures
            place == (match self {
                DetailTab::Value => 0int,
                DetailTab::Key => 1,
                DetailTab::Headers => 2,
            }),
    {
        match self {
            DetailTab::Value => 0,
            DetailTab::Key => 1,
            DetailTab::Headers => 2,
        }
    }
}

// ---- text ----

/// How bytes are shown, and whether the text is JSON: large ones as they are, and
/// others laid out where that is wanted and possible.
pub open spec fn rendered(bytes: Option<Seq<u8>>, pretty: bool) -> (Seq<char>, bool) {
    match bytes {
        None => ("<null>"@, false),
        Some(b) => if b.len() == 0 {
            ("<empty>"@, false)
        } else if b.len() > LARGE_VALUE_BYTES {
            (lossy_text(b), false)
        } else if pretty && starts_like_json(b) && read_and_laid_out(b) is Some {
            (read_and_laid_out(b)->0, true)
        } else {
            (lossy_text(b), starts_like_json(b))
        },
    }
}

/// How a text is shown that may have a layout: in the layout where there is one, and
/// else as it is.
pub fn laid_out(layout: Option<String>, plain: String, json_like: bool) -> (shown: (String, bool))
    ensures
        match layout {
            Some(text) => shown.0@ == text@ && shown.1,
            None => shown.0@ == plain@ && shown.1 == json_like,
        },
{
    match layout {
        Some(text) => (text, true),
        None => (plain, json_like),
    }
}

/// Whether bytes that are shown are read as what they encode, where they are valid UTF-8.
pub open spec fn is_shown_plainly(bytes: Option<Seq<u8>>) -> bool {
    bytes matches Some(b) ==> (b.len() > 0 ==> is_read_plainly(b))
}

/// How bytes are shown, and whether the text is JSON.
pub fn render_bytes(bytes: Option<&[u8]>, pretty: bool) -> (shown: (String, bool))
    ensures
        (shown.0@, shown.1) == rendered(bytes_view(bytes), pretty),
        is_shown_plainly(bytes_view(bytes)),
{
    match bytes {
        None => ("<null>".to_owned(), false),
        Some(b) => {
            if b.len() == 0 {
                return ("<empty>".to_owned(), false);
            }
            if b.len() > LARGE_VALUE_BYTES {
                return (read_lossily(b), false);
            }
            let layout: Option<String> = if pretty { try_pretty(b) } else { None };
            laid_out(layout, read_lossily(b), looks_like_json(b))
        },
    }
}

/// A header in a line, behind its name.
pub open spec fn header_line(header: HeaderView) -> Seq<char> {
    header.name + ": "@ + match header.value {
        Some(bytes) => lossy_text(bytes),
        None => "<null>"@,
    }
}

/// What a tab shows of a message.
pub open spec fn tab_text(record: MessageRecord, tab: DetailTab, pretty: bool) -> (Seq<char>, bool) {
    match tab {
        DetailTab::Value => rendered(record.value_bytes(), pretty),
        DetailTab::Key => rendered(record.key_bytes(), pretty),
        DetailTab::Headers => if record.header_views().len() == 0 {
            ("<no headers>"@, false)
        } else {
            (joined_with(record.header_views().map_values(|h: HeaderView| header_line(h)), "\n"@), false)
        },
    }
}

/// How many bytes a tab has to show.
pub open spec fn tab_size(record: MessageRecord, tab: DetailTab) -> nat {
    match tab {
        DetailTab::Value => part_size(record.value_bytes()),
        DetailTab::Key => part_size(record.key_bytes()),
        DetailTab::Headers => headers_size(record.header_views()),
    }
}

/// How many bytes a tab has to show.
pub fn tab_bytes(record: &MessageRecord, tab: DetailTab) -> (size: usize)
    requires
        record.wf(),
    ensures
        size == tab_size(*record, tab),
{
    match tab {
        DetailTab::Value => match record.value() {
            Some(bytes) => bytes.len(),
            None => 0,
        },
        DetailTab::Key => match record.key() {
            Some(bytes) => bytes.len(),
            None => 0,
        },
        DetailTab::Headers => {
            proof {
                record.payload_is_its_parts();
            }
            let headers = record.headers();
            let ghost all = record.header_views();
            let mut size: usize = 0;
            let mut i: usize = 0;
            assert(all.take(0) =~= Seq::empty());
            while i < headers.len()
                invariant
                    i <= headers@.len(),
                    all == record.header_views(),
                    headers@.len() == all.len(),
                    given_headers(headers@) == all,
                    headers_size(all) <= usize::MAX,
                    size == headers_size(all.take(i as int)),
                decreases headers.len() - i,
            {
                let (name, value) = headers[i];
                proof {
                    assert(given_headers(headers@)[i as int] == all[i as int]);
                    assert(all.take(i + 1).drop_last() =~= all.take(i as int));
                    sizes_grow(all, i + 1);
                }
                let value_size: usize = match value {
                    Some(bytes) => bytes.len(),
                    None => 0,
                };
                size = size + name.as_bytes().len() + value_size;
                i = i + 1;
            }
            assert(all.take(i as int) =~= all);
            size
        },
    }
}

proof fn sizes_grow(headers: Seq<HeaderView>, i: int)
    requires
        0 <= i <= headers.len(),
    ensures
        headers_size(headers.take(i)) <= headers_size(headers),
    decreases headers.len() - i,
{
    if i < headers.len() {
        sizes_grow(headers, i + 1);
        assert(headers.take(i + 1).drop_last() =~= headers.take(i));
    } else {
        assert(headers.take(i) =~= headers);
    }
}

/// What a tab shows of a message, and whether it is JSON.
pub fn render_tab(record: &MessageRecord, tab: DetailTab, pretty: bool) -> (shown: (String, bool))
    requires
        record.wf(),
    ensures
        (shown.0@, shown.1) == tab_text(*record, tab, pretty),
        match tab {
            DetailTab::Value => is_shown_plainly(record.value_bytes()),
            DetailTab::Key => is_shown_plainly(record.key_bytes()),
            DetailTab::Headers => headers_are_read_plainly(record.header_views()),
        },
{
    match tab {
        DetailTab::Value => render_bytes(record.value(), pretty),
        DetailTab::Key => render_bytes(record.key(), pretty),
        DetailTab::Headers => {
            if !record.has_headers() {
                return ("<no headers>".to_owned(), false);
            }
            let headers = record.headers();
            let ghost lines = record.header_views().map_values(|h: HeaderView| header_line(h));
            let mut parts: Vec<String> = Vec::new();
            let mut i: usize = 0;
            while i < headers.len()
                invariant
                    i <= headers@.len(),
                    headers@.len() == record.header_views().len(),
                    given_headers(headers@) == record.header_views(),
                    lines == record.header_views().map_values(|h: HeaderView| header_line(h)),
                    views(parts@) == lines.take(i as int),
                    headers_are_read_plainly(record.header_views().take(i as int)),
                decreases headers.len() - i,
            {
                let (name, value) = headers[i];
                let ghost before = parts@;
                assert(given_headers(headers@)[i as int] == record.header_views()[i as int]);
                let text: String = match value {
                    Some(bytes) => read_lossily(bytes),
                    None => "<null>".to_owned(),
                };
                let line = joined3(name, ": ", &text);
                proof {
                    views_grow(before, line);
                    assert(lines.take(i + 1) =~= lines.take(i as int).push(line@));
                    one_more_is_read_plainly(record.header_views(), i as int);
                }
                parts.push(line);
                i = i + 1;
            }
            assert(lines.take(i as int) =~= lines);
            assert(record.header_views().take(i as int) =~= record.header_views());
            (join_all(&parts, "\n"), false)
        },
    }
}

// ---- the view ----

/// What is shown of a message, and whether it is still being laid out.
pub struct MessageDetailView {
    pub record: Option<Arc<MessageRecord>>,
    pub tab: DetailTab,
    pub pretty: bool,
    pub json: bool,
    pub generation: u64,
    pub rendering: bool,
}

/// What has to be done to show a message.
pub enum DetailStep {
    /// Show this text.
    Show {
        text: String,
        json: bool,
    },
    /// Lay the text out elsewhere, and hand it back under this number.
    Render {
        generation: u64,
        record: Arc<MessageRecord>,
        tab: DetailTab,
        pretty: bool,
    },
}

/// Whether a view is another one with its text made anew, and a step is what that takes:
/// a small text is shown at once, and a large one is laid out elsewhere. Texts that are
/// still being laid out count no more.
pub open spec fn refreshed(before: MessageDetailView, after: MessageDetailView, step: DetailStep) -> bool {
    let number = (before.generation + 1) as u64;
    match before.record {
        None => {
            &&& step matches DetailStep::Show { text, json } && text@ == Seq::<char>::empty() && !json
            &&& after == (MessageDetailView { generation: number, rendering: false, ..before })
        },
        Some(record) => if tab_size(*record, before.tab) <= INLINE_RENDER_BYTES {
            &&& step matches DetailStep::Show { text, json } && (text@, json) == tab_text(
                *record,
                before.tab,
                before.pretty,
            )
            &&& after == (MessageDetailView { generation: number, rendering: false, ..before })
        } else {
            &&& step == (DetailStep::Render { generation: number, record, tab: before.tab, pretty: before.pretty })
            &&& after == (MessageDetailView { generation: number, rendering: true, ..before })
        },
    }
}

impl MessageDetailView {
    pub open spec fn wf(&self) -> bool {
        self.record matches Some(record) ==> record.wf()
    }

    pub fn new() -> (view: Self)
        ensures
            view.wf(),
            view == (MessageDetailView {
                record: None,
                tab: DetailTab::Value,
                pretty: true,
                json: true,
                generation: 0,
                rendering: false,
            }),
    {
        MessageDetailView {
            record: None,
            tab: DetailTab::Value,
            pretty: true,
            json: true,
            generation: 0,
            rendering: false,
        }
    }

    /// Sets the layout that is wanted. Another one makes the text anew.
    pub fn set_pretty_default(&mut self, pretty: bool) -> (step: Option<DetailStep>)
        requires
            old(self).wf(),
            old(self).generation < u64::MAX,
        ensures
            final(self).wf(),
            match step {
                Some(s) => old(self).pretty != pretty && refreshed(
                    MessageDetailView { pretty, ..*old(self) },
                    *final(self),
                    s,
                ),
                None => old(self).pretty == pretty && *final(self) == *old(self),
            },
    {
        if self.pretty == pretty {
            return None;
        }
        self.pretty = pretty;
        Some(self.refresh_text())
    }

    /// Switches the layout.
    pub fn set_pretty(&mut self, pretty: bool) -> (step: DetailStep)
        requires
            old(self).wf(),
            old(self).generation < u64::MAX,
        ensures
            final(self).wf(),
            refreshed(MessageDetailView { pretty, ..*old(self) }, *final(self), step),
    {
        self.pretty = pretty;
        self.refresh_text()
    }

    /// Shows the tab at a place; behind the last one it is the last.
    pub fn select_tab(&mut self, place: usize) -> (step: DetailStep)
        requires
            old(self).wf(),
            old(self).generation < u64::MAX,
        ensures
            final(self).wf(),
            refreshed(
                MessageDetailView {
                    tab: if place == 0 {
                        DetailTab::Value
                    } else if place == 1 {
                        DetailTab::Key
                    } else {
                        DetailTab::Headers
                    },
                    ..*old(self)
                },
                *final(self),
                step,
            ),
    {
        self.tab = DetailTab::at(place);
        self.refresh_text()
    }

    pub fn show_headers(&mut self) -> (step: DetailStep)
        requires
            old(self).wf(),
            old(self).generation < u64::MAX,
        ensures
            final(self).wf(),
            refreshed(MessageDetailView { tab: DetailTab::Headers, ..*old(self) }, *final(self), step),
    {
        self.tab = DetailTab::Headers;
        self.refresh_text()
    }

    /// Shows another message, or none.
    pub fn set_record(&mut self, record: Option<Arc<MessageRecord>>) -> (step: DetailStep)
        requires
            record matches Some(r) ==> r.wf(),
            old(self).generation < u64::MAX,
        ensures
            final(self).wf(),
            refreshed(MessageDetailView { record, ..*old(self) }, *final(self), step),
    {
        self.record = record;
        self.refresh_text()
    }

    /// Whether there is a text to put the cursor into.
    pub fn can_focus(&self) -> (can: bool)
        ensures
            can == (self.record is Some),
    {
        self.record.is_some()
    }

    /// Makes the text anew. A small one is shown at once, and a large one is laid out
    /// elsewhere. Texts that are still being laid out count no more.
    pub fn refresh_text(&mut self) -> (step: DetailStep)
        requires
            old(self).wf(),
            old(self).generation < u64::MAX,
        ensures
            final(self).wf(),
            refreshed(*old(self), *final(self), step),
    {
        self.generation = self.generation + 1;
        match &self.record {
            None => {
                self.rendering = false;
                let text = String::new();
                assert(text@ =~= Seq::<char>::empty());
                DetailStep::Show { text, json: false }
            },
            Some(record) => {
                if tab_bytes(record, self.tab) <= INLINE_RENDER_BYTES {
                    let (text, json) = render_tab(record, self.tab, self.pretty);
                    self.rendering = false;
                    DetailStep::Show { text, json }
                } else {
                    let record = crate::model::message::share(record);
                    self.rendering = true;
                    DetailStep::Render { generation: self.generation, record, tab: self.tab, pretty: self.pretty }
                }
            },
        }
    }

    /// Takes a text that was laid out elsewhere. Whether it is still wanted.
    pub fn on_rendered(&mut self, generation: u64) -> (wanted: bool)
        ensures
            wanted == (generation == old(self).generation),
            *final(self) == (if wanted {
                MessageDetailView { rendering: false, ..*old(self) }
            } else {
                *old(self)
            }),
    {
        if self.generation != generation {
            return false;
        }
        self.rendering = false;
        true
    }

    /// Notes whether the text is JSON. The highlighter that has to be set, where it is
    /// another one.
    pub fn show(&mut self, json: bool) -> (highlighter: Option<&'static str>)
        ensures
            *final(self) == (MessageDetailView { json, ..*old(self) }),
            match highlighter {
                Some(name) => old(self).json != json && name@ == if json {
                    "json"@
                } else {
                    "text"@
                },
                None => old(self).json == json,
            },
    {
        let changed: bool = self.json != json;
        self.json = json;
        if changed {
            Some(if json { "json" } else { "text" })
        } else {
            None
        }
    }

    /// What is said about a message.
    pub fn meta_text(&self, record: &MessageRecord) -> (text: String)
        requires
            record.wf(),
        ensures
            text@ == meta_line(*self, *record),
    {
        let size: usize = match record.value() {
            Some(bytes) => bytes.len(),
            None => 0,
        };
        let place = joined3(
            &joined("partition ", &decimal_text(record.partition as i128)),
            "  offset ",
            &decimal_text(record.offset as i128),
        );
        let timed = joined3(&place, "  ", record.timestamp_text());
        let meta = joined(&joined3(&timed, "  ", &decimal_text(size as i128)), " bytes");
        if self.rendering {
            joined(&meta, "  \u{b7}  rendering")
        } else if self.tab == DetailTab::Value && size > LARGE_VALUE_BYTES {
            joined(&meta, "  \u{b7}  large value, shown as plain text")
        } else {
            assert(meta@ + Seq::<char>::empty() =~= meta@);
            meta
        }
    }
}

/// A text that was laid out elsewhere counts exactly while the view still waits for it:
/// once the text is made anew, an older one is dropped.
pub proof fn an_older_text_is_dropped(before: MessageDetailView, after: MessageDetailView, step: DetailStep)
    requires
        before.generation < u64::MAX,
        refreshed(before, after, step),
    ensures
        after.generation != before.generation,
        step matches DetailStep::Render { generation, .. } ==> generation == after.generation,
        after.rendering == (step is Render),
{
}

/// What is said about a message: where it stands, when it was made, how large its
/// value is, and how it is shown where that is not as usual.
pub open spec fn meta_line(view: MessageDetailView, record: MessageRecord) -> Seq<char> {
    let size = part_size(record.value_bytes()) as int;
    "partition "@ + decimal(record.partition as int) + "  offset "@ + decimal(record.offset as int) + "  "@
        + record.time_line() + "  "@ + decimal(size) + " bytes"@ + if view.rendering {
        "  \u{b7}  rendering"@
    } else if view.tab == DetailTab::Value && size > LARGE_VALUE_BYTES {
        "  \u{b7}  large value, shown as plain text"@
    } else {
        Seq::empty()
    }
}

// ---- laws ----

/// What is shown of bytes: a word in brackets where there are none; valid UTF-8 as what it
/// encodes where no layout is wanted, or where it is too large for one.
pub proof fn bytes_are_shown_as_what_they_encode(bytes: Option<&[u8]>, pretty: bool, shown: (String, bool))
    requires
        call_ensures(render_bytes, (bytes, pretty), shown),
    ensures
        bytes is None ==> shown.0@ == "<null>"@ && !shown.1,
        bytes matches Some(b) ==> (b@.len() == 0 ==> shown.0@ == "<empty>"@ && !shown.1),
        bytes matches Some(b) ==> (b@.len() > 0 && vstd::utf8::valid_utf8(b@) && (!pretty || b@.len() > 0x20_0000)
            ==> shown.0@ == vstd::utf8::decode_utf8(b@)),
        bytes matches Some(b) ==> (b@.len() > 0x20_0000 ==> !shown.1),
        bytes matches Some(b) ==> (0 < b@.len() <= 0x20_0000 ==> (shown.1 <==> starts_like_json(b@))),
        bytes matches Some(b) ==> (0 < b@.len() <= 0x20_0000 && !starts_like_json(b@) && vstd::utf8::valid_utf8(b@)
            ==> shown.0@ == vstd::utf8::decode_utf8(b@)),
        bytes matches Some(b) ==> (0 < b@.len() <= 0x20_0000 && starts_like_json(b@) && pretty ==> match read_and_laid_out(
            b@,
        ) {
            Some(layout) => shown.0@ == layout,
            None => vstd::utf8::valid_utf8(b@) ==> shown.0@ == vstd::utf8::decode_utf8(b@),
        }),
{
}

/// Each tab shows its own part of a message: the value, the key, or the headers, of which each
/// has a line.
pub proof fn each_tab_shows_its_part(record: MessageRecord, pretty: bool)
    ensures
        tab_text(record, DetailTab::Value, pretty) == rendered(record.value_bytes(), pretty),
        tab_text(record, DetailTab::Key, pretty) == rendered(record.key_bytes(), pretty),
        record.header_views().len() == 0 ==> tab_text(record, DetailTab::Headers, pretty).0 == "<no headers>"@,
        record.header_views().len() == 1 ==> tab_text(record, DetailTab::Headers, pretty).0 == header_line(
            record.header_views()[0],
        ),
        !tab_text(record, DetailTab::Headers, pretty).1,
        tab_size(record, DetailTab::Value) == part_size(record.value_bytes()),
        tab_size(record, DetailTab::Key) == part_size(record.key_bytes()),
        tab_size(record, DetailTab::Headers) == headers_size(record.header_views()),
{
    let lines = record.header_views().map_values(|h: HeaderView| header_line(h));
    if lines.len() == 1 {
        assert(joined_with(lines, "\n"@) == lines[0]);
    }
}

/// A header is shown behind its name, and one without a value is marked.
pub proof fn a_header_is_shown_behind_its_name(header: HeaderView)
    ensures
        header_line(header).len() >= header.name.len() + 2,
        header_line(header).take(header.name.len() as int) == header.name,
        header.value matches Some(bytes) ==> header_line(header).skip(header.name.len() as int + 2) == lossy_text(bytes),
        header.value is None ==> header_line(header).skip(header.name.len() as int + 2) == "<null>"@,
{
    reveal_strlit(": ");
    let line = header_line(header);
    assert(line.take(header.name.len() as int) =~= header.name);
    let shown = match header.value {
        Some(bytes) => lossy_text(bytes),
        None => "<null>"@,
    };
    assert(line.skip(header.name.len() as int + 2) =~= shown);
}

/// Headers are shown one below the other, in their order.
pub proof fn headers_are_shown_in_order(first: Seq<HeaderView>, second: Seq<HeaderView>)
    requires
        first.len() > 0,
        second.len() > 0,
    ensures
        joined_with((first + second).map_values(|h: HeaderView| header_line(h)), "\n"@) == joined_with(
            first.map_values(|h: HeaderView| header_line(h)),
            "\n"@,
        ) + "\n"@ + joined_with(second.map_values(|h: HeaderView| header_line(h)), "\n"@),
{
    let a = first.map_values(|h: HeaderView| header_line(h));
    let b = second.map_values(|h: HeaderView| header_line(h));
    assert((first + second).map_values(|h: HeaderView| header_line(h)) =~= a + b);
    joined_rows_are_joined(a, b, "\n"@);
}

/// A tab is found at its place, under its label.
pub proof fn tabs_stand_at_their_places(tab: DetailTab, place: usize, at: DetailTab, label: &'static str)
    requires
        call_ensures(DetailTab::place, (tab,), place),
        call_ensures(DetailTab::at, (place,), at),
        call_ensures(DetailTab::label, (tab,), label),
    ensures
        at == tab,
        place < 3,
        DetailTab::ALL[place as int] == tab,
        tab is Value <==> label@ == "Value"@,
        tab is Key <==> label@ == "Key"@,
        tab is Headers <==> label@ == "Headers"@,
{
    reveal_strlit("Value");
    reveal_strlit("Key");
    reveal_strlit("Headers");
    assert("Value"@.len() == 5 && "Key"@.len() == 3 && "Headers"@.len() == 7);
}

/// A message that is shown: a small part at once, as its tab shows it, and a large one is laid
/// out elsewhere under a new number; without a message nothing is shown.
pub proof fn a_record_is_shown_in_its_tab(
    view: &mut MessageDetailView,
    record: Option<Arc<MessageRecord>>,
    step: DetailStep,
)
    requires
        old(view).generation < u64::MAX,
        call_ensures(MessageDetailView::set_record, (view, record), step),
    ensures
        final(view).record == record,
        final(view).tab == old(view).tab && final(view).pretty == old(view).pretty,
        final(view).generation == old(view).generation + 1,
        record is None ==> (step matches DetailStep::Show { text, .. } && text@.len() == 0),
        record matches Some(r) ==> (tab_size(*r, old(view).tab) <= 0x1_0000 ==> (step matches DetailStep::Show { text, json }
            && (text@, json) == tab_text(*r, old(view).tab, old(view).pretty))),
        record matches Some(r) ==> (tab_size(*r, old(view).tab) > 0x1_0000 ==> (step matches DetailStep::Render {
            generation,
            record: large,
            tab,
            pretty,
        } && generation == final(view).generation && large == r && tab == old(view).tab && pretty == old(view).pretty)),
        final(view).rendering <==> step is Render,
{
}

/// The tab that is chosen is the one that is shown, and the message stays.
pub proof fn a_chosen_tab_is_shown(view: &mut MessageDetailView, place: usize, step: DetailStep)
    requires
        call_ensures(MessageDetailView::select_tab, (view, place), step),
        place < 3,
    ensures
        final(view).tab == DetailTab::ALL[place as int],
        final(view).record == old(view).record,
        final(view).pretty == old(view).pretty,
{
}

/// What is said about a message names its partition, its offset, its time and the size of its
/// value.
pub proof fn a_message_is_named_by_its_place(view: MessageDetailView, record: MessageRecord)
    ensures
        starts_with(
            meta_line(view, record),
            "partition "@ + decimal(record.partition as int) + "  offset "@ + decimal(record.offset as int) + "  "@
                + record.time_line() + "  "@ + decimal(part_size(record.value_bytes()) as int) + " bytes"@,
        ),
        !view.rendering && part_size(record.value_bytes()) <= 0x20_0000 ==> meta_line(view, record) == "partition "@
            + decimal(record.partition as int) + "  offset "@ + decimal(record.offset as int) + "  "@
            + record.time_line() + "  "@ + decimal(part_size(record.value_bytes()) as int) + " bytes"@,
{
    let start = "partition "@ + decimal(record.partition as int) + "  offset "@ + decimal(record.offset as int) + "  "@
        + record.time_line() + "  "@ + decimal(part_size(record.value_bytes()) as int) + " bytes"@;
    assert(meta_line(view, record).take(start.len() as int) =~= start);
    if !view.rendering && part_size(record.value_bytes()) <= 0x20_0000 {
        assert(meta_line(view, record) =~= start);
    }
}

/// A text that was laid out elsewhere is taken while it is the newest that was asked for.
pub proof fn the_newest_text_is_taken(view: &mut MessageDetailView, generation: u64, wanted: bool)
    requires
        call_ensures(MessageDetailView::on_rendered, (view, generation), wanted),
    ensures
        wanted <==> generation == old(view).generation,
        wanted ==> !final(view).rendering,
        !wanted ==> *final(view) == *old(view),
        final(view).record == old(view).record && final(view).tab == old(view).tab,
{
}

/// What could be laid out is shown so and as JSON; else the plain text is.
pub proof fn a_layout_comes_before_the_plain_text(layout: Option<String>, plain: String, json_like: bool, shown: (String, bool))
    requires
        call_ensures(laid_out, (layout, plain, json_like), shown),
    ensures
        layout matches Some(text) ==> shown.0@ == text@ && shown.1,
        layout is None ==> shown.0@ == plain@ && shown.1 == json_like,
{
}

/// Each tab shows its own part of a message, and is as large as this part.
pub proof fn a_tab_shows_its_part(record: &MessageRecord, tab: DetailTab, pretty: bool, size: usize, shown: (String, bool))
    requires
        call_ensures(tab_bytes, (record, tab), size),
        call_ensures(render_tab, (record, tab, pretty), shown),
    ensures
        tab is Value ==> size == part_size(record.value_bytes()) && (shown.0@, shown.1) == rendered(
            record.value_bytes(),
            pretty,
        ),
        tab is Key ==> size == part_size(record.key_bytes()) && (shown.0@, shown.1) == rendered(
            record.key_bytes(),
            pretty,
        ),
        tab is Headers ==> size == headers_size(record.header_views()) && !shown.1,
        tab is Headers && record.header_views().len() == 0 ==> shown.0@ == "<no headers>"@,
        tab is Headers && record.header_views().len() == 1 ==> shown.0@ == header_line(record.header_views()[0]),
{
    each_tab_shows_its_part(*record, pretty);
}

/// The layout that is chosen counts for the message that is shown, at once; one that is chosen
/// already changes nothing.
pub proof fn a_chosen_layout_counts_at_once(
    view: &mut MessageDetailView,
    pretty: bool,
    step: DetailStep,
    other: &mut MessageDetailView,
    change: Option<DetailStep>,
)
    requires
        old(view).generation < u64::MAX,
        old(other).generation < u64::MAX,
        call_ensures(MessageDetailView::set_pretty, (view, pretty), step),
        call_ensures(MessageDetailView::set_pretty_default, (other, pretty), change),
    ensures
        final(view).pretty == pretty && final(view).record == old(view).record && final(view).tab == old(view).tab,
        old(view).record matches Some(r) ==> (tab_size(*r, old(view).tab) <= 0x1_0000 ==> (step matches DetailStep::Show {
            text,
            json,
        } && (text@, json) == tab_text(*r, old(view).tab, pretty))),
        final(other).pretty == pretty && final(other).record == old(other).record && final(other).tab == old(other).tab,
        change is Some <==> old(other).pretty != pretty,
        change is None ==> *final(other) == *old(other),
{
}

/// The headers are shown where they are asked for, and the same message stays.
pub proof fn headers_are_shown_where_asked_for(
    view: &mut MessageDetailView,
    step: DetailStep,
    other: &mut MessageDetailView,
    again: DetailStep,
    can: bool,
)
    requires
        old(view).generation < u64::MAX,
        old(other).generation < u64::MAX,
        call_ensures(MessageDetailView::show_headers, (view,), step),
        call_ensures(MessageDetailView::refresh_text, (other,), again),
        call_ensures(MessageDetailView::can_focus, (&*final(view),), can),
    ensures
        final(view).tab is Headers && final(view).record == old(view).record && final(view).pretty == old(view).pretty,
        final(other).tab == old(other).tab && final(other).record == old(other).record && final(other).pretty
            == old(other).pretty && final(other).generation != old(other).generation,
        can <==> old(view).record is Some,
        old(view).record is None ==> (step matches DetailStep::Show { text, .. } && text@.len() == 0),
{
}

/// A text is marked as JSON where it is, and the marking changes only where the kind does.
pub proof fn json_is_marked_as_such(view: &mut MessageDetailView, json: bool, highlighter: Option<&'static str>)
    requires
        call_ensures(MessageDetailView::show, (view, json), highlighter),
    ensures
        final(view).json == json,
        highlighter is Some <==> old(view).json != json,
        highlighter matches Some(name) ==> (json <==> name@ == "json"@),
        final(view).record == old(view).record && final(view).generation == old(view).generation,
{
    reveal_strlit("json");
    reveal_strlit("text");
    assert("json"@[0] != "text"@[0]);
}

/// The line above a message names its partition and its offset first.
pub proof fn a_line_names_the_message(view: &MessageDetailView, record: &MessageRecord, text: String)
    requires
        call_ensures(MessageDetailView::meta_text, (view, record), text),
    ensures
        starts_with(
            text@,
            "partition "@ + decimal(record.partition as int) + "  offset "@ + decimal(record.offset as int) + "  "@
                + record.time_line() + "  "@ + decimal(part_size(record.value_bytes()) as int) + " bytes"@,
        ),
{
    a_message_is_named_by_its_place(*view, *record);
}

} // verus!
