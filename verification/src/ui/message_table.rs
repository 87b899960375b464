//! The table of messages: what is searched and sorted, and what each cell shows.

use std::sync::Arc;

use vstd::prelude::*;

use crate::model::message::{
    all_wf, format_timestamp, given_headers, headers_are_read_plainly, hit_count, hit_count_is_bounded, hit_rows, hits_hold_the_term, is_hit, is_read_plainly,
    kept_within, lossy_text, one_more_is_read_plainly, read_lossily, rows_are_counted, rows_are_the_hits, shows_timestamp, total_size,
    HeaderView, MessageRecord, MessageStore,
};
use crate::model::search::{
    a_message_is_found_by_each_of_its_parts, a_query_is_found_where_it_stands, differ_by_case, lowered, message_holds, needle,
};
use crate::order::{
    a_stable_sort_goes_up, arranged, is_not_after, is_stable_order, is_stable_sort, pairs_rank_by_their_first, precedes,
    precedes_from, sort_by_rank, text_rank, texts_rank_by_their_characters, triples_rank_by_their_first, Ranked,
};
use crate::text::{
    chars_of, decimal, decimal_is_read_back, decimal_text, join_all, joined3, joined_with, parsed_int, views, views_grow,
};

verus! {

pub const MAX_MESSAGES: usize = 10_000;

pub const MAX_BYTES: usize = 0x1000_0000;

#[derive(Debug, Clone, Copy, PartialEq, Eq, Structural)]
pub enum MessageColumn {
    Partition,
    Offset,
    Timestamp,
    Key,
    Value,
}

#[derive(Debug, Clone, Copy, PartialEq, Eq, Structural)]
pub enum SortDirection {
    Ascending,
    Descending,
}

/// The messages as a table shows them.
pub struct MessageTableDelegate {
    pub store: MessageStore,
    pub columns: Vec<MessageColumn>,
    pub sort: Option<(MessageColumn, SortDirection)>,
    /// Display row to store row, after the search term and the sort apply.
    pub rows: Vec<usize>,
    pub rows_dirty: bool,
}

/// A row of the store, with the numbers that it is sorted by.
pub struct RowKey {
    pub row: usize,
    pub key: Vec<i64>,
}

/// Numbers as a rank.
pub open spec fn numbers_rank(key: Seq<i64>) -> Seq<int> {
    key.map_values(|n: i64| n as int)
}

impl Ranked for RowKey {
    open spec fn rank(&self) -> Seq<int> {
        numbers_rank(self.key@)
    }

    fn ranks_before(&self, other: &Self) -> (before: bool) {
        let ghost x = self.rank();
        let ghost y = other.rank();
        let mut i: usize = 0;
        while i < self.key.len() && i < other.key.len() && self.key[i] == other.key[i]
            invariant
                i <= self.key@.len(),
                i <= other.key@.len(),
                x == numbers_rank(self.key@),
                y == numbers_rank(other.key@),
                precedes(x, y) == precedes_from(x, y, i as int),
            decreases self.key.len() - i,
        {
            i = i + 1;
        }
        if i >= other.key.len() {
            false
        } else if i >= self.key.len() {
            true
        } else {
            self.key[i] < other.key[i]
        }
    }
}

/// When a message was made, as a rank: a message without a timestamp is before all
/// others, and the offset decides between equal times.
pub open spec fn time_rank(record: MessageRecord) -> Seq<int> {
    match record.timestamp_ms {
        Some(ms) => seq![1, ms as int, record.offset as int],
        None => seq![0, 0, record.offset as int],
    }
}

/// What a message is sorted by in a column.
pub open spec fn sort_rank(record: MessageRecord, column: MessageColumn) -> Seq<int> {
    match column {
        MessageColumn::Partition => seq![record.partition as int, record.offset as int],
        MessageColumn::Offset => seq![record.offset as int, record.partition as int],
        MessageColumn::Timestamp => time_rank(record),
        MessageColumn::Key => text_rank(record.key_line()),
        MessageColumn::Value => text_rank(record.value_line()),
    }
}

/// The message of a store row.
pub open spec fn record_of_row(records: Seq<MessageRecord>, row: int) -> MessageRecord {
    records[records.len() - 1 - row]
}

/// Whether row keys are those of rows in a column.
pub open spec fn keys_are(
    keyed: Seq<RowKey>,
    rows: Seq<usize>,
    records: Seq<MessageRecord>,
    column: MessageColumn,
) -> bool {
    &&& keyed.len() == rows.len()
    &&& forall|i: int|
        0 <= i < rows.len() ==> (#[trigger] keyed[i]).row == rows[i] && keyed[i].rank() == sort_rank(
            record_of_row(records, rows[i] as int),
            column,
        )
}

/// Whether rows are others, stably sorted by a column.
pub open spec fn sorted_by(
    sorted: Seq<usize>,
    rows: Seq<usize>,
    records: Seq<MessageRecord>,
    column: MessageColumn,
) -> bool {
    exists|keyed: Seq<RowKey>, order: Seq<RowKey>|
        #![trigger keys_are(keyed, rows, records, column), is_stable_sort(keyed, order)]
        keys_are(keyed, rows, records, column) && is_stable_sort(keyed, order) && sorted == order.map_values(
            |k: RowKey| k.row,
        )
}

/// Whether rows are what a table shows: the hits of the search, newest first, or
/// sorted by a column, from the end where the order is descending.
pub open spec fn rows_show(
    rows: Seq<usize>,
    records: Seq<MessageRecord>,
    query: Option<Seq<u8>>,
    sort: Option<(MessageColumn, SortDirection)>,
) -> bool {
    exists|hits: Seq<usize>|
        #![trigger row_numbers(hits)]
        row_numbers(hits) == hit_rows(query, records, 0) && match sort {
            None => rows == hits,
            Some((column, SortDirection::Ascending)) => sorted_by(rows, hits, records, column),
            Some((column, SortDirection::Descending)) => sorted_by(rows.reverse(), hits, records, column),
        }
}

/// Rows as numbers.
pub open spec fn row_numbers(rows: Seq<usize>) -> Seq<int> {
    rows.map_values(|row: usize| row as int)
}

/// Whether a text is what a message shows in a column. The time is that of the place at
/// which it is asked for.
pub open spec fn is_cell(text: Seq<char>, record: MessageRecord, column: MessageColumn) -> bool {
    match column {
        MessageColumn::Partition => text == decimal(record.partition as int),
        MessageColumn::Offset => text == decimal(record.offset as int),
        MessageColumn::Timestamp => shows_timestamp(text, record.timestamp_ms),
        MessageColumn::Key => text == record.key_line(),
        MessageColumn::Value => text == record.value_line(),
    }
}

/// Whether texts are what a message shows in columns.
pub open spec fn are_cells(texts: Seq<Seq<char>>, record: MessageRecord, columns: Seq<MessageColumn>) -> bool {
    &&& texts.len() == columns.len()
    &&& forall|k: int| 0 <= k < texts.len() ==> is_cell(#[trigger] texts[k], record, columns[k])
}

/// The columns in the order in which they stand at first.
pub open spec fn first_columns() -> Seq<MessageColumn> {
    seq![
        MessageColumn::Partition,
        MessageColumn::Offset,
        MessageColumn::Timestamp,
        MessageColumn::Key,
        MessageColumn::Value,
    ]
}

fn code_point(c: char) -> (n: i64)
    ensures
        n == c as int,
{
    c as u32 as i64
}

fn char_numbers(text: &str) -> (numbers: Vec<i64>)
    ensures
        numbers_rank(numbers@) == text_rank(text@),
{
    let chars = chars_of(text);
    let mut numbers: Vec<i64> = Vec::new();
    let mut i: usize = 0;
    while i < chars.len()
        invariant
            i <= chars@.len(),
            chars@ == text@,
            numbers@.len() == i,
            forall|k: int| 0 <= k < i ==> numbers@[k] == chars@[k] as int,
        decreases chars.len() - i,
    {
        numbers.push(code_point(chars[i]));
        i = i + 1;
    }
    assert(numbers_rank(numbers@) =~= text_rank(text@));
    numbers
}

fn sort_key(record: &MessageRecord, column: MessageColumn) -> (key: Vec<i64>)
    ensures
        numbers_rank(key@) == sort_rank(*record, column),
{
    let mut key: Vec<i64> = Vec::new();
    match column {
        MessageColumn::Partition => {
            key.push(record.partition as i64);
            key.push(record.offset);
        },
        MessageColumn::Offset => {
            key.push(record.offset);
            key.push(record.partition as i64);
        },
        MessageColumn::Timestamp => {
            match record.timestamp_ms {
                Some(ms) => {
                    key.push(1);
                    key.push(ms);
                },
                None => {
                    key.push(0);
                    key.push(0);
                },
            }
            key.push(record.offset);
        },
        MessageColumn::Key => {
            return char_numbers(record.key_preview());
        },
        MessageColumn::Value => {
            return char_numbers(record.value_preview());
        },
    }
    assert(numbers_rank(key@) =~= sort_rank(*record, column));
    key
}

/// Whether one message is newer than another: by time, and then by offset.
pub open spec fn is_newer(a: MessageRecord, b: MessageRecord) -> bool {
    precedes(time_rank(b), time_rank(a))
}

fn newer(a: &MessageRecord, b: &MessageRecord) -> (is: bool)
    ensures
        is == is_newer(*a, *b),
{
    let x = RowKey { row: 0, key: sort_key(a, MessageColumn::Timestamp) };
    let y = RowKey { row: 0, key: sort_key(b, MessageColumn::Timestamp) };
    y.ranks_before(&x)
}

/// Whether one message is preferred to another: it is newer, or older.
pub open spec fn is_better(a: MessageRecord, b: MessageRecord, newest: bool) -> bool {
    if newest {
        is_newer(a, b)
    } else {
        is_newer(b, a)
    }
}

proof fn better_is_an_order(a: MessageRecord, b: MessageRecord, c: MessageRecord, newest: bool)
    ensures
        !is_better(a, a, newest),
        is_better(a, b, newest) && is_better(b, c, newest) ==> is_better(a, c, newest),
        is_better(a, b, newest) ==> !is_better(b, a, newest),
        !is_better(b, a, newest) && is_better(b, c, newest) ==> is_better(a, c, newest),
{
    let x = time_rank(a);
    let y = time_rank(b);
    let z = time_rank(c);
    crate::order::precedes_is_a_total_order(x, y, z);
    crate::order::precedes_is_a_total_order(z, y, x);
    crate::order::precedes_is_a_total_order(y, x, z);
    crate::order::precedes_is_a_total_order(y, z, x);
    crate::order::precedes_is_a_total_order(z, x, y);
    crate::order::precedes_is_a_total_order(x, z, y);
}

/// Whether a table is another one with its rows up to date.
pub open spec fn rows_built(table: MessageTableDelegate, before: MessageTableDelegate) -> bool {
    &&& table.store == before.store
    &&& table.columns == before.columns
    &&& table.sort == before.sort
    &&& !table.rows_dirty
    &&& if before.rows_dirty {
        rows_show(table.rows@, before.records(), before.store.query(), before.sort)
    } else {
        table.rows == before.rows
    }
}

/// Whether a display row holds the newest, or the oldest, message that a table shows;
/// of several it is the first.
pub open spec fn is_extreme(table: MessageTableDelegate, best: int, newest: bool) -> bool {
    &&& table.shows_at(best)
    &&& forall|row: int|
        #[trigger] table.shows_at(row) ==> !is_better(table.shown(row), table.shown(best), newest)
    &&& forall|row: int|
        row < best && #[trigger] table.shows_at(row) ==> is_better(table.shown(best), table.shown(row), newest)
}

impl MessageTableDelegate {
    /// The messages of the store, oldest first.
    pub open spec fn records(&self) -> Seq<MessageRecord> {
        self.store.records()
    }

    /// Whether a display row shows a message.
    pub open spec fn shows_at(&self, row: int) -> bool {
        0 <= row < self.rows@.len() && self.rows@[row] < self.records().len()
    }

    /// The message of a display row.
    pub open spec fn shown(&self, row: int) -> MessageRecord {
        record_of_row(self.records(), self.rows@[row] as int)
    }

    pub open spec fn wf(&self) -> bool {
        self.store.wf()
    }

    pub fn new() -> (table: Self)
        ensures
            table.wf(),
            table.records() == Seq::<MessageRecord>::empty(),
            table.store.query() is None,
            table.store.message_limit() == MAX_MESSAGES,
            table.store.byte_limit() == MAX_BYTES,
            table.store.received() == 0,
            table.columns@ == first_columns(),
            table.sort is None,
            table.rows@.len() == 0,
            table.rows_dirty,
    {
        let mut columns: Vec<MessageColumn> = Vec::new();
        columns.push(MessageColumn::Partition);
        columns.push(MessageColumn::Offset);
        columns.push(MessageColumn::Timestamp);
        columns.push(MessageColumn::Key);
        columns.push(MessageColumn::Value);
        assert(columns@ =~= first_columns());
        MessageTableDelegate {
            store: MessageStore::new(MAX_MESSAGES, MAX_BYTES),
            columns,
            sort: None,
            rows: Vec::new(),
            rows_dirty: true,
        }
    }

    /// Adds messages.
    pub fn push_batch(&mut self, batch: Vec<MessageRecord>)
        requires
            old(self).wf(),
            all_wf(batch@),
            total_size(old(self).records() + batch@) <= usize::MAX,
            old(self).store.received() + batch@.len() <= u64::MAX,
        ensures
            final(self).wf(),
            final(self).records() == kept_within(
                old(self).records() + batch@,
                old(self).store.message_limit(),
                old(self).store.byte_limit(),
            ),
            final(self).store.received() == old(self).store.received() + batch@.len(),
            final(self).store.same_but_messages(&old(self).store),
            final(self).rows_dirty,
            final(self).rows == old(self).rows,
            final(self).columns == old(self).columns,
            final(self).sort == old(self).sort,
    {
        self.store.push_batch(batch);
        self.rows_dirty = true;
    }

    /// Lets all messages go.
    pub fn clear(&mut self)
        requires
            old(self).wf(),
        ensures
            final(self).wf(),
            final(self).records() == Seq::<MessageRecord>::empty(),
            final(self).store.received() == old(self).store.received(),
            final(self).store.same_but_messages(&old(self).store),
            final(self).rows@.len() == 0,
            final(self).rows_dirty,
            final(self).columns == old(self).columns,
            final(self).sort == old(self).sort,
    {
        self.store.clear();
        self.rows = Vec::new();
        self.rows_dirty = true;
    }

    /// Searches for a query. An empty one shows all messages.
    pub fn set_query(&mut self, query: &str)
        requires
            old(self).wf(),
        ensures
            final(self).wf(),
            final(self).store.query() == (if query@.len() == 0 {
                None
            } else {
                Some(lowered(vstd::utf8::encode_utf8(query@)))
            }),
            final(self).records() == old(self).records(),
            final(self).store.received() == old(self).store.received(),
            final(self).store.message_limit() == old(self).store.message_limit(),
            final(self).store.byte_limit() == old(self).store.byte_limit(),
            final(self).rows_dirty,
            final(self).rows == old(self).rows,
            final(self).columns == old(self).columns,
            final(self).sort == old(self).sort,
    {
        self.store.set_query(needle(query));
        self.rows_dirty = true;
    }

    /// The rows are to be built anew.
    pub fn mark_dirty(&mut self)
        ensures
            *final(self) == (MessageTableDelegate { rows_dirty: true, ..*old(self) }),
    {
        self.rows_dirty = true;
    }

    /// Rows of the store with their keys in a column.
    fn keyed(&self, rows: &Vec<usize>, column: MessageColumn) -> (keyed: Vec<RowKey>)
        requires
            forall|i: int| 0 <= i < rows@.len() ==> (#[trigger] rows@[i]) < self.records().len(),
        ensures
            keys_are(keyed@, rows@, self.records(), column),
    {
        let mut keyed: Vec<RowKey> = Vec::new();
        let mut i: usize = 0;
        while i < rows.len()
            invariant
                i <= rows@.len(),
                forall|k: int| 0 <= k < rows@.len() ==> (#[trigger] rows@[k]) < self.records().len(),
                keyed@.len() == i,
                forall|k: int|
                    0 <= k < i ==> (#[trigger] keyed@[k]).row == rows@[k] && keyed@[k].rank() == sort_rank(
                        record_of_row(self.records(), rows@[k] as int),
                        column,
                    ),
            decreases rows.len() - i,
        {
            let row: usize = rows[i];
            assert(rows@[i as int] < self.records().len());
            let key: Vec<i64> = match self.store.get(row) {
                Some(record) => sort_key(record, column),
                None => Vec::new(),
            };
            keyed.push(RowKey { row, key });
            i = i + 1;
        }
        keyed
    }

    /// Builds the visible rows anew where they are out of date.
    pub fn ensure_rows(&mut self)
        requires
            old(self).wf(),
        ensures
            rows_built(*final(self), *old(self)),
    {
        if !self.rows_dirty {
            return;
        }
        self.rows_dirty = false;
        let hits = self.store.matched_rows();
        let ghost found = hits@;
        let ghost records = self.records();
        let ghost query = self.store.query();
        proof {
            crate::model::message::rows_are_the_hits(query, records, 0);
            assert forall|i: int| 0 <= i < found.len() implies (#[trigger] found[i]) < records.len() by {
                assert(row_numbers(found)[i] == found[i] as int);
                assert(hit_rows(query, records, 0)[i] == found[i] as int);
            }
            assert(row_numbers(found) == hit_rows(query, records, 0));
        }
        match self.sort {
            None => {
                self.rows = hits;
            },
            Some((column, direction)) => {
                let keyed = self.keyed(&hits, column);
                let ghost keys = keyed@;
                let order = sort_by_rank(keyed);
                let ghost wanted = order@.map_values(|k: RowKey| k.row);
                let mut rows: Vec<usize> = Vec::new();
                let mut i: usize = 0;
                while i < order.len()
                    invariant
                        i <= order@.len(),
                        wanted == order@.map_values(|k: RowKey| k.row),
                        rows@ == wanted.take(i as int),
                    decreases order.len() - i,
                {
                    assert(wanted.take(i + 1) =~= wanted.take(i as int).push(order@[i as int].row));
                    rows.push(order[i].row);
                    i = i + 1;
                }
                assert(rows@ =~= wanted);
                assert(keys_are(keys, found, records, column));
                assert(sorted_by(rows@, found, records, column));
                if direction == SortDirection::Descending {
                    let turned = crate::order::reversed(rows);
                    assert(turned@.reverse() =~= wanted);
                    self.rows = turned;
                } else {
                    self.rows = rows;
                }
            },
        }
        assert(row_numbers(found) == hit_rows(query, records, 0));
    }

    /// The number of rows that the table shows, after the search term applies.
    pub fn visible_rows(&self) -> (n: usize)
        ensures
            n == self.rows@.len(),
    {
        self.rows.len()
    }

    /// The number of rows that the table has room for: the hits of a search, or all.
    pub fn rows_count(&self) -> (n: usize)
        requires
            self.wf(),
        ensures
            n == (if self.store.query() is Some {
                hit_count(self.store.query(), self.records())
            } else {
                self.records().len()
            }),
    {
        if self.store.has_query() {
            self.store.matched_len()
        } else {
            self.store.len()
        }
    }

    /// The message of a display row.
    pub fn record_at_row(&self, row: usize) -> (record: Option<&Arc<MessageRecord>>)
        ensures
            match record {
                Some(r) => self.shows_at(row as int) && **r == self.shown(row as int),
                None => !self.shows_at(row as int),
            },
    {
        if row < self.rows.len() {
            self.store.get(self.rows[row])
        } else {
            None
        }
    }

    /// The visible row that holds the newest or the oldest message; of several the
    /// first.
    pub fn extreme_row(&self, newest: bool) -> (found: Option<usize>)
        ensures
            match found {
                Some(best) => is_extreme(*self, best as int, newest),
                None => forall|row: int| !#[trigger] self.shows_at(row),
            },
    {
        let mut best: Option<usize> = None;
        let mut i: usize = 0;
        while i < self.rows.len()
            invariant
                i <= self.rows@.len(),
                match best {
                    Some(b) => {
                        &&& b < i
                        &&& self.shows_at(b as int)
                        &&& forall|row: int|
                            row < i && #[trigger] self.shows_at(row) ==> !is_better(
                                self.shown(row),
                                self.shown(b as int),
                                newest,
                            )
                        &&& forall|row: int|
                            row < b && #[trigger] self.shows_at(row) ==> is_better(
                                self.shown(b as int),
                                self.shown(row),
                                newest,
                            )
                    },
                    None => forall|row: int| row < i ==> !#[trigger] self.shows_at(row),
                },
            decreases self.rows.len() - i,
        {
            match self.record_at_row(i) {
                Some(record) => {
                    let better: bool = match best {
                        Some(b) => match self.record_at_row(b) {
                            Some(current) => {
                                if newest {
                                    newer(record, current)
                                } else {
                                    newer(current, record)
                                }
                            },
                            None => true,
                        },
                        None => true,
                    };
                    proof {
                        better_is_an_order(self.shown(i as int), self.shown(i as int), self.shown(i as int), newest);
                        if best is Some {
                            let b = best->0 as int;
                            assert forall|row: int| row < i && #[trigger] self.shows_at(row) && better implies is_better(
                                self.shown(i as int),
                                self.shown(row),
                                newest,
                            ) by {
                                better_is_an_order(self.shown(row), self.shown(i as int), self.shown(b), newest);
                                better_is_an_order(self.shown(i as int), self.shown(b), self.shown(row), newest);
                                better_is_an_order(self.shown(b), self.shown(i as int), self.shown(row), newest);
                                not_better_is_transitive(
                                    self.shown(row),
                                    self.shown(b),
                                    self.shown(i as int),
                                    newest,
                                );
                            }
                            assert forall|row: int| row < i && #[trigger] self.shows_at(row) && better implies !is_better(
                                self.shown(row),
                                self.shown(i as int),
                                newest,
                            ) by {
                                better_is_an_order(self.shown(i as int), self.shown(row), self.shown(b), newest);
                            }
                        }
                    }
                    if better {
                        best = Some(i);
                    }
                },
                None => {},
            }
            i = i + 1;
        }
        best
    }

    /// What a message shows in a column.
    pub fn text_for(&self, record: &MessageRecord, column: usize) -> (text: String)
        ensures
            if column < self.columns@.len() {
                is_cell(text@, *record, self.columns@[column as int])
            } else {
                text@ == Seq::<char>::empty()
            },
    {
        if column >= self.columns.len() {
            let text = String::new();
            assert(text@ =~= Seq::empty());
            return text;
        }
        match self.columns[column] {
            MessageColumn::Partition => decimal_text(record.partition as i128),
            MessageColumn::Offset => decimal_text(record.offset as i128),
            MessageColumn::Timestamp => format_timestamp(record.timestamp_ms),
            MessageColumn::Key => record.key_preview().as_str().to_owned(),
            MessageColumn::Value => record.value_preview().as_str().to_owned(),
        }
    }

    /// What a cell shows.
    pub fn cell_text(&self, row: usize, column: usize) -> (text: String)
        ensures
            if self.shows_at(row as int) && column < self.columns@.len() {
                is_cell(text@, self.shown(row as int), self.columns@[column as int])
            } else {
                text@ == Seq::<char>::empty()
            },
    {
        match self.record_at_row(row) {
            Some(record) => self.text_for(record, column),
            None => {
                let text = String::new();
                assert(text@ =~= Seq::empty());
                text
            },
        }
    }

    /// A row in one line: its cells with tabs between them.
    pub fn row_text(&self, row: usize) -> (text: String)
        requires
            self.shows_at(row as int),
        ensures
            exists|cells: Seq<Seq<char>>| #[trigger]
                are_cells(cells, self.shown(row as int), self.columns@) && text@ == joined_with(cells, "\t"@),
    {
        let mut parts: Vec<String> = Vec::new();
        let mut i: usize = 0;
        while i < self.columns.len()
            invariant
                i <= self.columns@.len(),
                self.shows_at(row as int),
                parts@.len() == i,
                forall|k: int|
                    0 <= k < i ==> is_cell((#[trigger] parts@[k])@, self.shown(row as int), self.columns@[k]),
            decreases self.columns.len() - i,
        {
            parts.push(self.cell_text(row, i));
            i = i + 1;
        }
        assert(are_cells(views(parts@), self.shown(row as int), self.columns@));
        join_all(&parts, "\t")
    }

    /// Sorts by a column, or not at all.
    pub fn perform_sort(&mut self, column: usize, direction: Option<SortDirection>)
        ensures
            final(self).sort == (match direction {
                Some(d) if column < old(self).columns@.len() => Some((old(self).columns@[column as int], d)),
                _ => None,
            }),
            final(self).rows_dirty,
            final(self).store == old(self).store,
            final(self).rows == old(self).rows,
            final(self).columns == old(self).columns,
    {
        self.sort = match direction {
            Some(d) => {
                if column < self.columns.len() {
                    Some((self.columns[column], d))
                } else {
                    None
                }
            },
            None => None,
        };
        self.rows_dirty = true;
    }

    /// Moves a column to another place.
    pub fn move_column(&mut self, from: usize, to: usize)
        ensures
            final(self).columns@ == (if from < old(self).columns@.len() && to < old(self).columns@.len() {
                old(self).columns@.remove(from as int).insert(to as int, old(self).columns@[from as int])
            } else {
                old(self).columns@
            }),
            final(self).store == old(self).store,
            final(self).rows == old(self).rows,
            final(self).sort == old(self).sort,
            final(self).rows_dirty == old(self).rows_dirty,
    {
        if from < self.columns.len() && to < self.columns.len() {
            let column: MessageColumn = self.columns.remove(from);
            self.columns.insert(to, column);
        }
    }
}

proof fn not_better_is_transitive(a: MessageRecord, b: MessageRecord, c: MessageRecord, newest: bool)
    requires
        !is_better(a, b, newest),
        is_better(c, b, newest),
    ensures
        is_better(c, a, newest),
{
    let x = time_rank(a);
    let y = time_rank(b);
    let z = time_rank(c);
    crate::order::precedes_is_a_total_order(x, y, z);
    crate::order::precedes_is_a_total_order(z, y, x);
    crate::order::precedes_is_a_total_order(y, x, z);
    crate::order::precedes_is_a_total_order(x, y, x);
}

/// What a part holds as text; a part that is not there holds nothing.
pub open spec fn part_text(part: Option<Seq<u8>>) -> Seq<char> {
    match part {
        Some(bytes) => lossy_text(bytes),
        None => Seq::empty(),
    }
}

/// A key or a value as text, to be copied.
pub fn copied_part(part: Option<&[u8]>) -> (text: String)
    ensures
        text@ == part_text(crate::model::message::bytes_view(part)),
        part matches Some(bytes) ==> is_read_plainly(bytes@),
{
    match part {
        Some(bytes) => read_lossily(bytes),
        None => {
            let text = String::new();
            assert(text@ =~= Seq::empty());
            text
        },
    }
}

/// The headers as text, to be copied: one in a line, behind its name.
pub open spec fn headers_text(headers: Seq<HeaderView>) -> Seq<char> {
    joined_with(headers.map_values(|h: HeaderView| h.name + ": "@ + part_text(h.value)), "\n"@)
}

/// The headers of a message as text, to be copied.
pub fn copied_headers(record: &MessageRecord) -> (text: String)
    requires
        record.wf(),
    ensures
        text@ == headers_text(record.header_views()),
        headers_are_read_plainly(record.header_views()),
{
    let headers = record.headers();
    let ghost lines = record.header_views().map_values(|h: HeaderView| h.name + ": "@ + part_text(h.value));
    let mut parts: Vec<String> = Vec::new();
    let mut i: usize = 0;
    while i < headers.len()
        invariant
            i <= headers@.len(),
            headers@.len() == record.header_views().len(),
            given_headers(headers@) == record.header_views(),
            lines == record.header_views().map_values(|h: HeaderView| h.name + ": "@ + part_text(h.value)),
            views(parts@) == lines.take(i as int),
            headers_are_read_plainly(record.header_views().take(i as int)),
        decreases headers.len() - i,
    {
        let (name, value) = headers[i];
        let ghost before = parts@;
        assert(given_headers(headers@)[i as int] == record.header_views()[i as int]);
        let line = joined3(name, ": ", &copied_part(value));
        proof {
            views_grow(before, line);
            assert(lines.take(i + 1) =~= lines.take(i as int).push(line@));
            one_more_is_read_plainly(record.header_views(), i as int);
        }
        parts.push(line);
        i = i + 1;
    }
    assert(lines.take(i as int) =~= lines);
    assert(record.header_views().take(i as int) =~= record.header_views());
    join_all(&parts, "\n")
}

/// Sorting a table neither hides a hit nor shows a message twice.
pub proof fn sorting_keeps_the_rows(
    sorted: Seq<usize>,
    rows: Seq<usize>,
    records: Seq<MessageRecord>,
    column: MessageColumn,
)
    requires
        sorted_by(sorted, rows, records, column),
        rows.len() <= usize::MAX,
    ensures
        sorted.len() == rows.len(),
        forall|row: usize| rows.contains(row) ==> #[trigger] sorted.contains(row),
        forall|row: usize| #[trigger] sorted.contains(row) ==> rows.contains(row),
{
    let (keyed, out) = choose|keyed: Seq<RowKey>, out: Seq<RowKey>|
        #![trigger keys_are(keyed, rows, records, column), is_stable_sort(keyed, out)]
        keys_are(keyed, rows, records, column) && is_stable_sort(keyed, out) && sorted == out.map_values(
            |k: RowKey| k.row,
        );
    let order = choose|order: Seq<usize>| #[trigger] is_stable_order(keyed, order) && out == arranged(keyed, order);
    assert forall|row: usize| rows.contains(row) implies #[trigger] sorted.contains(row) by {
        let i = choose|i: int| 0 <= i < rows.len() && rows[i] == row;
        crate::order::each_place_is_in_the_order(keyed, order, i as usize);
        let k = choose|k: int| 0 <= k < order.len() && order[k] == i as usize;
        assert(sorted[k] == keyed[i].row);
    }
    assert forall|row: usize| #[trigger] sorted.contains(row) implies rows.contains(row) by {
        let k = choose|k: int| 0 <= k < sorted.len() && sorted[k] == row;
        assert(sorted[k] == keyed[order[k] as int].row);
        assert(rows[order[k] as int] == row);
    }
}

/// Of rows that are sorted by a column, an upper one does not come after a lower one in that
/// column; rows that the column does not tell apart stay in the order they had.
proof fn sorted_rows_go_up(
    sorted: Seq<usize>,
    rows: Seq<usize>,
    records: Seq<MessageRecord>,
    column: MessageColumn,
    i: int,
    j: int,
)
    requires
        sorted_by(sorted, rows, records, column),
        0 <= i < j < sorted.len(),
        forall|k: int, l: int| #![trigger rows[k], rows[l]] 0 <= k < l < rows.len() ==> rows[k] < rows[l],
    ensures
        ({
            let x = sort_rank(record_of_row(records, sorted[i] as int), column);
            let y = sort_rank(record_of_row(records, sorted[j] as int), column);
            &&& !precedes(y, x)
            &&& x == y ==> sorted[i] < sorted[j]
        }),
{
    let (keyed, out) = choose|keyed: Seq<RowKey>, out: Seq<RowKey>|
        #![trigger keys_are(keyed, rows, records, column), is_stable_sort(keyed, out)]
        keys_are(keyed, rows, records, column) && is_stable_sort(keyed, out) && sorted == out.map_values(
            |k: RowKey| k.row,
        );
    let order = choose|order: Seq<usize>| #[trigger] is_stable_order(keyed, order) && out == arranged(keyed, order);
    a_stable_sort_goes_up(keyed, order, i, j);
    let a = order[i] as int;
    let b = order[j] as int;
    assert(out[i] == keyed[a] && out[j] == keyed[b]);
    assert(keyed[a].row == rows[a] && keyed[b].row == rows[b]);
}

/// What is told of two messages of which a column sorts the second not before the first.
proof fn ranks_tell_the_columns(a: MessageRecord, b: MessageRecord, column: MessageColumn)
    requires
        !precedes(sort_rank(b, column), sort_rank(a, column)),
    ensures
        column is Partition ==> a.partition <= b.partition,
        column is Partition && a.partition == b.partition ==> a.offset <= b.offset,
        column is Offset ==> a.offset <= b.offset,
        column is Offset && a.offset == b.offset ==> a.partition <= b.partition,
        column is Timestamp ==> (a.timestamp_ms matches Some(x) ==> b.timestamp_ms matches Some(y) && x <= y),
        column is Timestamp && a.timestamp_ms == b.timestamp_ms ==> a.offset <= b.offset,
        column is Key ==> is_not_after(a.key_line(), b.key_line()),
        column is Value ==> is_not_after(a.value_line(), b.value_line()),
{
    let x = sort_rank(a, column);
    let y = sort_rank(b, column);
    match column {
        MessageColumn::Partition | MessageColumn::Offset => {
            pairs_rank_by_their_first(x, y);
        },
        MessageColumn::Timestamp => {
            triples_rank_by_their_first(x, y);
        },
        MessageColumn::Key => {
            texts_rank_by_their_characters(a.key_line(), b.key_line());
        },
        MessageColumn::Value => {
            texts_rank_by_their_characters(a.value_line(), b.value_line());
        },
    }
}

/// The rows that a table builds: each shows a message that the search keeps, none is shown
/// twice, and none that it keeps is missing.
pub proof fn a_table_shows_each_hit_once(table: MessageTableDelegate, before: MessageTableDelegate)
    requires
        rows_built(table, before),
        before.rows_dirty,
        before.records().len() <= usize::MAX,
    ensures
        forall|i: int|
            0 <= i < table.rows@.len() ==> #[trigger] table.shows_at(i) && is_hit(before.store.query(), table.shown(i)),
        forall|row: int|
            0 <= row < before.records().len() && is_hit(
                before.store.query(),
                #[trigger] record_of_row(before.records(), row),
            ) ==> table.rows@.contains(row as usize),
        table.rows@.no_duplicates(),
        table.records() == before.records(),
{
    let records = before.records();
    let query = before.store.query();
    let rows = table.rows@;
    let hits = choose|hits: Seq<usize>|
        #![trigger row_numbers(hits)]
        row_numbers(hits) == hit_rows(query, records, 0) && match before.sort {
            None => rows == hits,
            Some((column, SortDirection::Ascending)) => sorted_by(rows, hits, records, column),
            Some((column, SortDirection::Descending)) => sorted_by(rows.reverse(), hits, records, column),
        };
    hits_go_up(query, records, hits);
    rows_are_counted(query, records);
    hit_count_is_bounded(query, records);
    assert(hits.len() == row_numbers(hits).len());
    let up = if before.sort matches Some((_, SortDirection::Descending)) {
        rows.reverse()
    } else {
        rows
    };
    assert forall|row: usize| hits.contains(row) == #[trigger] up.contains(row) by {
        if before.sort is Some {
            sorting_keeps_the_rows(up, hits, records, (before.sort->0).0);
        }
    }
    assert(up.no_duplicates()) by {
        assert forall|i: int, j: int| 0 <= i < j < up.len() implies up[i] != up[j] by {
            if before.sort is Some {
                sorted_rows_go_up(up, hits, records, (before.sort->0).0, i, j);
                if up[i] == up[j] {
                    let x = sort_rank(record_of_row(records, up[i] as int), (before.sort->0).0);
                    assert(up[i] < up[j]);
                }
            }
        }
    }
    assert forall|row: usize| hits.contains(row) == #[trigger] rows.contains(row) by {
        turned_rows_are_the_same(rows, row);
        assert(up.contains(row) == hits.contains(row));
    }
    assert(rows.no_duplicates()) by {
        assert forall|i: int, j: int| 0 <= i < j < rows.len() implies rows[i] != rows[j] by {
            let n = rows.len() as int;
            if up != rows {
                assert(up[n - 1 - j] == rows[j] && up[n - 1 - i] == rows[i]);
            }
        }
    }
    assert forall|i: int| 0 <= i < rows.len() implies #[trigger] table.shows_at(i) && is_hit(query, table.shown(i)) by {
        assert(rows.contains(rows[i]));
        assert(hits.contains(rows[i]));
        let k = choose|k: int| 0 <= k < hits.len() && hits[k] == rows[i];
        assert(row_numbers(hits)[k] == hits[k] as int);
    }
    assert forall|row: int|
        0 <= row < records.len() && is_hit(query, #[trigger] record_of_row(records, row)) implies rows.contains(
        row as usize,
    ) by {
        rows_are_the_hits(query, records, 0);
        assert(is_hit(query, records[records.len() - 1 - row]));
        let k = choose|k: int| 0 <= k < hit_rows(query, records, 0).len() && hit_rows(query, records, 0)[k] == row;
        assert(row_numbers(hits)[k] == hits[k] as int);
        assert(hits[k] == row as usize);
        assert(hits.contains(row as usize));
    }
}

proof fn turned_rows_are_the_same(rows: Seq<usize>, row: usize)
    ensures
        rows.reverse().contains(row) == rows.contains(row),
{
    let n = rows.len() as int;
    if rows.contains(row) {
        let k = choose|k: int| 0 <= k < rows.len() && rows[k] == row;
        assert(rows.reverse()[n - 1 - k] == row);
    }
    if rows.reverse().contains(row) {
        let k = choose|k: int| 0 <= k < rows.len() && rows.reverse()[k] == row;
        assert(rows[n - 1 - k] == row);
    }
}

proof fn hits_go_up(query: Option<Seq<u8>>, records: Seq<MessageRecord>, hits: Seq<usize>)
    requires
        row_numbers(hits) == hit_rows(query, records, 0),
    ensures
        forall|k: int, l: int| #![trigger hits[k], hits[l]] 0 <= k < l < hits.len() ==> hits[k] < hits[l],
        forall|k: int|
            0 <= k < hits.len() ==> (#[trigger] hits[k]) < records.len() && is_hit(
                query,
                record_of_row(records, hits[k] as int),
            ),
{
    rows_are_the_hits(query, records, 0);
    assert forall|k: int, l: int| #![trigger hits[k], hits[l]] 0 <= k < l < hits.len() implies hits[k] < hits[l] by {
        assert(row_numbers(hits)[k] == hits[k] as int);
        assert(row_numbers(hits)[l] == hits[l] as int);
    }
    assert forall|k: int| 0 <= k < hits.len() implies (#[trigger] hits[k]) < records.len() && is_hit(
        query,
        record_of_row(records, hits[k] as int),
    ) by {
        assert(row_numbers(hits)[k] == hits[k] as int);
    }
}

/// A table that is not sorted shows the newest message first: an upper row shows a message
/// that came later than that of a lower one.
pub proof fn an_unsorted_table_shows_the_newest_first(
    table: MessageTableDelegate,
    before: MessageTableDelegate,
    i: int,
    j: int,
)
    requires
        rows_built(table, before),
        before.rows_dirty,
        before.sort is None,
        0 <= i < j < table.rows@.len(),
    ensures
        exists|a: int, b: int|
            #![trigger before.records()[a], before.records()[b]]
            0 <= b < a < before.records().len() && table.shown(i) == before.records()[a] && table.shown(j)
                == before.records()[b],
{
    let records = before.records();
    hits_go_up(before.store.query(), records, table.rows@);
    let a = records.len() - 1 - table.rows@[i];
    let b = records.len() - 1 - table.rows@[j];
    assert(table.shown(i) == records[a]);
    assert(table.shown(j) == records[b]);
}

/// A table that is sorted by a column goes by what that column shows. With an ascending sort
/// it does not fall from an upper row to a lower one: neither the number of a partition or an
/// offset, nor the time, where messages without one come first, nor the line of a key or a
/// value, by its characters. With a descending sort it does not rise.
pub proof fn a_sorted_table_goes_by_its_column(
    table: MessageTableDelegate,
    before: MessageTableDelegate,
    column: MessageColumn,
    direction: SortDirection,
    i: int,
    j: int,
)
    requires
        rows_built(table, before),
        before.rows_dirty,
        before.sort == Some((column, direction)),
        0 <= i < j < table.rows@.len(),
    ensures
        ({
            let a = if direction is Ascending { table.shown(i) } else { table.shown(j) };
            let b = if direction is Ascending { table.shown(j) } else { table.shown(i) };
            &&& column is Partition ==> a.partition <= b.partition
            &&& column is Partition && a.partition == b.partition ==> a.offset <= b.offset
            &&& column is Offset ==> a.offset <= b.offset
            &&& column is Offset && a.offset == b.offset ==> a.partition <= b.partition
            &&& column is Timestamp ==> (a.timestamp_ms matches Some(x) ==> b.timestamp_ms matches Some(y) && x <= y)
            &&& column is Timestamp && a.timestamp_ms == b.timestamp_ms ==> a.offset <= b.offset
            &&& column is Key ==> is_not_after(a.key_line(), b.key_line())
            &&& column is Value ==> is_not_after(a.value_line(), b.value_line())
        }),
{
    let records = before.records();
    let query = before.store.query();
    let rows = table.rows@;
    let n = rows.len() as int;
    let hits = choose|hits: Seq<usize>|
        #![trigger row_numbers(hits)]
        row_numbers(hits) == hit_rows(query, records, 0) && match before.sort {
            None => rows == hits,
            Some((column, SortDirection::Ascending)) => sorted_by(rows, hits, records, column),
            Some((column, SortDirection::Descending)) => sorted_by(rows.reverse(), hits, records, column),
        };
    hits_go_up(query, records, hits);
    if direction is Ascending {
        sorted_rows_go_up(rows, hits, records, column, i, j);
        ranks_tell_the_columns(table.shown(i), table.shown(j), column);
    } else {
        let up = rows.reverse();
        sorted_rows_go_up(up, hits, records, column, n - 1 - j, n - 1 - i);
        assert(up[n - 1 - j] == rows[j] && up[n - 1 - i] == rows[i]);
        ranks_tell_the_columns(table.shown(j), table.shown(i), column);
    }
}

/// Messages that a sorted column does not tell apart stay as they came: the newest first, or
/// last where the sort is descending.
pub proof fn equal_lines_stay_as_they_came(
    table: MessageTableDelegate,
    before: MessageTableDelegate,
    column: MessageColumn,
    direction: SortDirection,
    i: int,
    j: int,
)
    requires
        rows_built(table, before),
        before.rows_dirty,
        before.sort == Some((column, direction)),
        0 <= i < j < table.rows@.len(),
        column is Key && table.shown(i).key_line() == table.shown(j).key_line() || column is Value && table.shown(
            i,
        ).value_line() == table.shown(j).value_line(),
    ensures
        direction is Ascending ==> table.rows@[i] < table.rows@[j],
        direction is Descending ==> table.rows@[j] < table.rows@[i],
{
    let records = before.records();
    let query = before.store.query();
    let rows = table.rows@;
    let n = rows.len() as int;
    let hits = choose|hits: Seq<usize>|
        #![trigger row_numbers(hits)]
        row_numbers(hits) == hit_rows(query, records, 0) && match before.sort {
            None => rows == hits,
            Some((column, SortDirection::Ascending)) => sorted_by(rows, hits, records, column),
            Some((column, SortDirection::Descending)) => sorted_by(rows.reverse(), hits, records, column),
        };
    hits_go_up(query, records, hits);
    if direction is Ascending {
        sorted_rows_go_up(rows, hits, records, column, i, j);
    } else {
        let up = rows.reverse();
        sorted_rows_go_up(up, hits, records, column, n - 1 - j, n - 1 - i);
        assert(up[n - 1 - j] == rows[j] && up[n - 1 - i] == rows[i]);
    }
}

/// The row of the newest message: no row shows a later time, and of those with its time none
/// has a larger offset. Of the oldest message it is the other way round. A message without a
/// time is older than any other.
pub proof fn the_extreme_row_is_the_newest_or_the_oldest(
    table: MessageTableDelegate,
    best: int,
    row: int,
    newest: bool,
)
    requires
        is_extreme(table, best, newest),
        table.shows_at(row),
    ensures
        ({
            let earlier = if newest { table.shown(row) } else { table.shown(best) };
            let later = if newest { table.shown(best) } else { table.shown(row) };
            &&& earlier.timestamp_ms matches Some(x) ==> later.timestamp_ms matches Some(y) && x <= y
            &&& earlier.timestamp_ms == later.timestamp_ms ==> earlier.offset <= later.offset
        }),
{
    assert(!is_better(table.shown(row), table.shown(best), newest));
    if newest {
        triples_rank_by_their_first(time_rank(table.shown(row)), time_rank(table.shown(best)));
    } else {
        triples_rank_by_their_first(time_rank(table.shown(best)), time_rank(table.shown(row)));
    }
}

/// A table that builds its rows after it was sorted by a column goes by what that column
/// shows: ascending it does not fall down the rows, descending it does not rise.
pub proof fn a_sort_puts_the_rows_in_order(
    table: &mut MessageTableDelegate,
    column: usize,
    direction: SortDirection,
    built: &mut MessageTableDelegate,
    i: int,
    j: int,
)
    requires
        call_ensures(MessageTableDelegate::perform_sort, (table, column, Some(direction)), ()),
        column < old(table).columns@.len(),
        *old(built) == *final(table),
        call_ensures(MessageTableDelegate::ensure_rows, (built,), ()),
        0 <= i < j < final(built).rows@.len(),
    ensures
        ({
            let by = old(table).columns@[column as int];
            let a = if direction is Ascending { final(built).shown(i) } else { final(built).shown(j) };
            let b = if direction is Ascending { final(built).shown(j) } else { final(built).shown(i) };
            &&& by is Partition ==> a.partition <= b.partition
            &&& by is Offset ==> a.offset <= b.offset
            &&& by is Timestamp ==> (a.timestamp_ms matches Some(x) ==> b.timestamp_ms matches Some(y) && x <= y)
            &&& by is Key ==> is_not_after(a.key_line(), b.key_line())
            &&& by is Value ==> is_not_after(a.value_line(), b.value_line())
        }),
        final(built).records() == old(table).records(),
        final(built).columns@ == old(table).columns@,
{
    a_sorted_table_goes_by_its_column(
        *final(built),
        *old(built),
        old(table).columns@[column as int],
        direction,
        i,
        j,
    );
}

/// Without a direction a table is not sorted any more.
pub proof fn a_sort_can_be_taken_back(table: &mut MessageTableDelegate, column: usize)
    requires
        call_ensures(MessageTableDelegate::perform_sort, (table, column, None::<SortDirection>), ()),
    ensures
        final(table).sort is None,
        final(table).rows_dirty,
        final(table).store == old(table).store,
        final(table).columns == old(table).columns,
{
}

/// A moved column comes to its new place, and the others keep their order: without it, the
/// columns are what they were without it.
pub proof fn a_moved_column_comes_to_its_place(table: &mut MessageTableDelegate, from: usize, to: usize)
    requires
        call_ensures(MessageTableDelegate::move_column, (table, from, to), ()),
        from < old(table).columns@.len(),
        to < old(table).columns@.len(),
    ensures
        final(table).columns@.len() == old(table).columns@.len(),
        final(table).columns@[to as int] == old(table).columns@[from as int],
        final(table).columns@.remove(to as int) == old(table).columns@.remove(from as int),
        final(table).sort == old(table).sort,
        final(table).rows == old(table).rows,
{
    assert(final(table).columns@.remove(to as int) =~= old(table).columns@.remove(from as int));
}

/// A cell shows what its message has in that column: numbers so that they are read back, and
/// the lines of the key and the value as they are.
pub proof fn cells_show_their_message(text: Seq<char>, record: MessageRecord, column: MessageColumn)
    requires
        is_cell(text, record, column),
    ensures
        column is Partition ==> parsed_int(text, i32::MIN as int, i32::MAX as int) == Some(record.partition as int),
        column is Offset ==> parsed_int(text, i64::MIN as int, i64::MAX as int) == Some(record.offset as int),
        column is Key ==> text == record.key_line(),
        column is Value ==> text == record.value_line(),
        column is Timestamp && record.timestamp_ms is None ==> text == "-"@,
{
    decimal_is_read_back(record.partition as int, i32::MIN as int, i32::MAX as int);
    decimal_is_read_back(record.offset as int, i64::MIN as int, i64::MAX as int);
}

/// What is copied of a part that is valid UTF-8 is what it encodes, and of a part that is not
/// there nothing.
pub proof fn copied_parts_are_what_they_encode(part: Option<&[u8]>, text: String)
    requires
        call_ensures(copied_part, (part,), text),
    ensures
        part matches Some(bytes) ==> (vstd::utf8::valid_utf8(bytes@) ==> text@ == vstd::utf8::decode_utf8(bytes@)),
        part is None ==> text@.len() == 0,
{
}

/// A search shows the messages that hold the query, in any case of its ASCII letters: one
/// whose value holds it is shown, and each one that is shown holds it somewhere.
pub proof fn a_search_shows_what_holds_the_query(
    table: &mut MessageTableDelegate,
    query: &str,
    built: &mut MessageTableDelegate,
    row: int,
    before: Seq<u8>,
    part: Seq<u8>,
    behind: Seq<u8>,
)
    requires
        call_ensures(MessageTableDelegate::set_query, (table, query), ()),
        *old(built) == *final(table),
        call_ensures(MessageTableDelegate::ensure_rows, (built,), ()),
        query@.len() > 0,
        old(table).records().len() <= usize::MAX,
        0 <= row < old(table).records().len(),
        record_of_row(old(table).records(), row).value_bytes() == Some(before + part + behind)
            || record_of_row(old(table).records(), row).key_bytes() == Some(before + part + behind),
        part.len() == vstd::utf8::encode_utf8(query@).len(),
        forall|k: int|
            0 <= k < part.len() ==> #[trigger] part[k] == vstd::utf8::encode_utf8(query@)[k] || differ_by_case(
                part[k],
                vstd::utf8::encode_utf8(query@)[k],
            ),
    ensures
        final(built).records() == old(table).records(),
        final(built).rows@.contains(row as usize),
        forall|i: int|
            0 <= i < final(built).rows@.len() ==> message_holds(
                record_of_row(old(table).records(), #[trigger] final(built).rows@[i] as int),
                lowered(vstd::utf8::encode_utf8(query@)),
            ),
{
    let wanted = vstd::utf8::encode_utf8(query@);
    a_table_shows_each_hit_once(*final(built), *old(built));
    a_query_is_found_where_it_stands(before, part, behind, wanted);
    let record = record_of_row(old(table).records(), row);
    a_message_is_found_by_each_of_its_parts(record, lowered(wanted));
    hits_hold_the_term(record, lowered(wanted));
    assert(is_hit(old(built).store.query(), record));
    assert forall|i: int| 0 <= i < final(built).rows@.len() implies message_holds(
        record_of_row(old(table).records(), #[trigger] final(built).rows@[i] as int),
        lowered(vstd::utf8::encode_utf8(query@)),
    ) by {
        assert(final(built).shows_at(i));
        hits_hold_the_term(final(built).shown(i), lowered(wanted));
    }
}

/// An empty query shows every message.
pub proof fn an_empty_query_shows_all(
    table: &mut MessageTableDelegate,
    query: &str,
    built: &mut MessageTableDelegate,
    row: int,
)
    requires
        call_ensures(MessageTableDelegate::set_query, (table, query), ()),
        *old(built) == *final(table),
        call_ensures(MessageTableDelegate::ensure_rows, (built,), ()),
        query@.len() == 0,
        0 <= row < old(table).records().len() <= usize::MAX,
    ensures
        final(built).rows@.contains(row as usize),
{
    a_table_shows_each_hit_once(*final(built), *old(built));
    hits_hold_the_term(record_of_row(old(table).records(), row), Seq::empty());
    assert(is_hit(old(built).store.query(), record_of_row(old(built).records(), row)));
}

/// A cell shows the part of the message in its row that its column is for, and a cell beyond the
/// table is empty.
pub proof fn a_cell_shows_its_part(table: &MessageTableDelegate, row: usize, column: usize, text: String, cell: String)
    requires
        table.shows_at(row as int),
        call_ensures(MessageTableDelegate::cell_text, (table, row, column), text),
        call_ensures(MessageTableDelegate::text_for, (table, &table.shown(row as int), column), cell),
    ensures
        column >= table.columns@.len() ==> text@.len() == 0 && cell@.len() == 0,
        column < table.columns@.len() ==> ({
            let record = table.shown(row as int);
            let of = table.columns@[column as int];
            &&& of is Partition ==> text@ == decimal(record.partition as int) && cell@ == text@
            &&& of is Offset ==> text@ == decimal(record.offset as int) && cell@ == text@
            &&& of is Key ==> text@ == record.key_line() && cell@ == text@
            &&& of is Value ==> text@ == record.value_line() && cell@ == text@
            &&& of is Timestamp && record.timestamp_ms is None ==> text@ == "-"@ && cell@ == text@
        }),
{
    if column < table.columns@.len() {
        cells_show_their_message(text@, table.shown(row as int), table.columns@[column as int]);
        cells_show_their_message(cell@, table.shown(row as int), table.columns@[column as int]);
    }
}

/// The message in a row is the one that the row shows, and as many rows are counted as messages
/// are shown: all of them, or those that hold what is searched for.
pub proof fn rows_are_counted_as_they_are_shown(
    table: &MessageTableDelegate,
    row: usize,
    record: Option<&Arc<MessageRecord>>,
    count: usize,
    visible: usize,
)
    requires
        call_ensures(MessageTableDelegate::record_at_row, (table, row), record),
        call_ensures(MessageTableDelegate::rows_count, (table,), count),
        call_ensures(MessageTableDelegate::visible_rows, (table,), visible),
    ensures
        record matches Some(r) ==> **r == table.shown(row as int),
        record is Some <==> table.shows_at(row as int),
        visible == table.rows@.len(),
        table.store.query() is None ==> count == table.records().len(),
        table.store.query() is Some ==> count == hit_count(table.store.query(), table.records()),
        count <= table.records().len(),
{
    crate::model::message::hit_count_is_bounded(table.store.query(), table.records());
}

/// The row that is found is the one of the newest message, or of the oldest, of those that are
/// shown; it is found where any is shown.
pub proof fn the_found_row_is_extreme(table: &MessageTableDelegate, newest: bool, found: Option<usize>, row: int)
    requires
        call_ensures(MessageTableDelegate::extreme_row, (table, newest), found),
        table.shows_at(row),
    ensures
        found matches Some(best) && ({
            let earlier = if newest {
                table.shown(row)
            } else {
                table.shown(best as int)
            };
            let later = if newest {
                table.shown(best as int)
            } else {
                table.shown(row)
            };
            &&& earlier.timestamp_ms matches Some(x) ==> later.timestamp_ms matches Some(y) && x <= y
            &&& earlier.timestamp_ms == later.timestamp_ms ==> earlier.offset <= later.offset
        }),
{
    the_extreme_row_is_the_newest_or_the_oldest(*table, found->0 as int, row, newest);
}

/// Clearing takes all messages away; what the table is sorted by and its columns stay.
pub proof fn a_cleared_table_is_empty(table: &mut MessageTableDelegate, marked: &mut MessageTableDelegate)
    requires
        call_ensures(MessageTableDelegate::clear, (table,), ()),
        call_ensures(MessageTableDelegate::mark_dirty, (marked,), ()),
    ensures
        final(table).records().len() == 0 && final(table).rows@.len() == 0,
        final(table).sort == old(table).sort && final(table).columns == old(table).columns,
        final(table).store.query() == old(table).store.query(),
        final(marked).rows_dirty && final(marked).store == old(marked).store && final(marked).sort == old(marked).sort
            && final(marked).columns == old(marked).columns,
{
}

/// A row is copied cell by cell, with tabs between: as many tabs as there are columns, less one,
/// where no cell holds one.
pub proof fn a_row_is_copied_cell_by_cell(table: &MessageTableDelegate, row: usize, text: String)
    requires
        table.shows_at(row as int),
        table.columns@.len() == 2,
        table.columns@[0] is Partition,
        table.columns@[1] is Offset,
        call_ensures(MessageTableDelegate::row_text, (table, row), text),
    ensures
        text@ == decimal(table.shown(row as int).partition as int) + "\t"@ + decimal(
            table.shown(row as int).offset as int,
        ),
{
    let cells = choose|cells: Seq<Seq<char>>| #[trigger]
        are_cells(cells, table.shown(row as int), table.columns@) && text@ == joined_with(cells, "\t"@);
    assert(is_cell(cells[0], table.shown(row as int), table.columns@[0]));
    assert(is_cell(cells[1], table.shown(row as int), table.columns@[1]));
    reveal_with_fuel(joined_with, 3);
    assert(cells.drop_last().drop_last() =~= Seq::empty());
    assert(cells.drop_last()[0] == cells[0]);
    assert(text@ =~= cells[0] + "\t"@ + cells[1]);
}

/// Headers are copied line by line, each as its name, a colon and its value; a message without
/// headers gives nothing.
pub proof fn a_header_is_copied_with_its_name(record: &MessageRecord, text: String)
    requires
        call_ensures(copied_headers, (record,), text),
    ensures
        record.header_views().len() == 0 ==> text@.len() == 0,
        record.header_views().len() == 1 ==> text@ == record.header_views()[0].name + ": "@ + part_text(
            record.header_views()[0].value,
        ),
{
    let lines = record.header_views().map_values(|h: HeaderView| h.name + ": "@ + part_text(h.value));
    reveal_with_fuel(joined_with, 2);
    if lines.len() == 1 {
        assert(lines.drop_last() =~= Seq::empty());
        assert(text@ =~= lines[0]);
    }
}

} // verus!
