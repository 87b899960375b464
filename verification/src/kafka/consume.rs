//! Reading a topic: where to start, how messages are gathered into batches, and the
//! steps of a reading session.

use vstd::prelude::*;

use crate::model::message::{part_size, MessageRecord};
use crate::text::{chars_of, find_from, joined, joined3, place_from_is_first};

verus! {

/// How many messages a batch holds at most.
pub const BATCH_MAX_MESSAGES: usize = 256;

/// How old a batch gets at most, in nanoseconds.
pub const BATCH_MAX_AGE: u64 = 16_000_000;

/// How long a poll waits with an empty batch, in milliseconds.
pub const IDLE_POLL_MS: u64 = 100;

/// How long a poll waits with messages at hand, in milliseconds.
pub const BUSY_POLL_MS: u64 = 5;

#[derive(Debug, Clone, Copy, PartialEq, Eq, Structural)]
pub enum StartFrom {
    Newest(i64),
    Latest,
    Beginning,
    Offset(i64),
    Timestamp(i64),
}

#[derive(Debug, Clone, Copy, PartialEq, Eq, Structural)]
pub struct PartitionPosition {
    pub partition: i32,
    pub first: i64,
    pub last: i64,
    pub high: i64,
}

// ---- where to start ----

/// An offset at which a partition is read.
#[derive(Debug, Clone, Copy, PartialEq, Eq, Structural)]
pub enum StartOffset {
    At(i64),
    Beginning,
    End,
}

/// What is to be asked of the cluster before a topic can be read.
#[derive(Debug, PartialEq, Eq)]
pub enum AssignmentPlan {
    /// Nothing: each partition starts here.
    Ready(Vec<(i32, StartOffset)>),
    /// The watermarks of each partition.
    NeedsWatermarks(i64),
    /// The offsets of each partition at a time.
    NeedsTimes(Vec<(i32, i64)>),
}

/// The same start for each partition.
pub open spec fn all_start_at(partitions: Seq<i32>, start: StartOffset) -> Seq<(i32, StartOffset)> {
    partitions.map_values(|p: i32| (p, start))
}

pub open spec fn not_negative(n: i64) -> i64 {
    if n >= 0 {
        n
    } else {
        0
    }
}

fn clamped(n: i64) -> (m: i64)
    ensures
        m == not_negative(n),
{
    if n >= 0 {
        n
    } else {
        0
    }
}

fn every_partition(partitions: &[i32], start: StartOffset) -> (list: Vec<(i32, StartOffset)>)
    ensures
        list@ == all_start_at(partitions@, start),
{
    let mut list: Vec<(i32, StartOffset)> = Vec::new();
    let mut i: usize = 0;
    while i < partitions.len()
        invariant
            i <= partitions@.len(),
            list@ == all_start_at(partitions@, start).take(i as int),
        decreases partitions.len() - i,
    {
        assert(all_start_at(partitions@, start).take(i + 1) =~= list@.push((partitions@[i as int], start)));
        list.push((partitions[i], start));
        i = i + 1;
    }
    assert(list@ =~= all_start_at(partitions@, start));
    list
}

/// How the partitions of a topic are to be assigned.
pub fn plan_assignment(start: StartFrom, partitions: &[i32]) -> (plan: AssignmentPlan)
    ensures
        match start {
            StartFrom::Newest(count) => plan == AssignmentPlan::NeedsWatermarks(not_negative(count)),
            StartFrom::Latest => plan matches AssignmentPlan::Ready(list) && list@ == all_start_at(
                partitions@,
                StartOffset::End,
            ),
            StartFrom::Beginning => plan matches AssignmentPlan::Ready(list) && list@ == all_start_at(
                partitions@,
                StartOffset::Beginning,
            ),
            StartFrom::Offset(n) => plan matches AssignmentPlan::Ready(list) && list@ == all_start_at(
                partitions@,
                StartOffset::At(not_negative(n)),
            ),
            StartFrom::Timestamp(ms) => plan matches AssignmentPlan::NeedsTimes(list) && list@ == partitions@.map_values(
                |p: i32| (p, not_negative(ms)),
            ),
        },
{
    match start {
        StartFrom::Newest(count) => AssignmentPlan::NeedsWatermarks(clamped(count)),
        StartFrom::Latest => AssignmentPlan::Ready(every_partition(partitions, StartOffset::End)),
        StartFrom::Beginning => AssignmentPlan::Ready(every_partition(partitions, StartOffset::Beginning)),
        StartFrom::Offset(n) => AssignmentPlan::Ready(every_partition(partitions, StartOffset::At(clamped(n)))),
        StartFrom::Timestamp(ms) => {
            let ghost wanted = partitions@.map_values(|p: i32| (p, not_negative(ms)));
            let mut list: Vec<(i32, i64)> = Vec::new();
            let mut i: usize = 0;
            while i < partitions.len()
                invariant
                    i <= partitions@.len(),
                    wanted == partitions@.map_values(|p: i32| (p, not_negative(ms))),
                    list@ == wanted.take(i as int),
                decreases partitions.len() - i,
            {
                assert(wanted.take(i + 1) =~= list@.push((partitions@[i as int], not_negative(ms))));
                list.push((partitions[i], clamped(ms)));
                i = i + 1;
            }
            assert(list@ =~= wanted);
            AssignmentPlan::NeedsTimes(list)
        },
    }
}

/// The offset from which the newest messages are read: as many before the end, but
/// none that is gone.
pub open spec fn newest_offset(low: int, high: int, count: int) -> int {
    if high - count >= low {
        high - count
    } else {
        low
    }
}

/// Where a partition starts when its newest messages are wanted.
pub fn newest_start(low: i64, high: i64, count: i64) -> (start: StartOffset)
    requires
        count >= 0,
        high - count >= i64::MIN,
    ensures
        start == StartOffset::At(newest_offset(low as int, high as int, count as int) as i64),
{
    let from: i64 = high - count;
    StartOffset::At(if from >= low { from } else { low })
}

/// Where a partition starts at a time: at the offset that was found, or else at the
/// end.
pub fn start_at_time(found: Option<i64>) -> (start: StartOffset)
    ensures
        start == (match found {
            Some(offset) => StartOffset::At(offset),
            None => StartOffset::End,
        }),
{
    match found {
        Some(offset) => StartOffset::At(offset),
        None => StartOffset::End,
    }
}

/// Reading the newest messages starts between the watermarks and reads no more than
/// were asked for.
pub proof fn the_newest_lie_between_the_watermarks(low: int, high: int, count: int)
    requires
        low <= high,
        0 <= count,
    ensures
        low <= newest_offset(low, high, count) <= high,
        high - newest_offset(low, high, count) <= count,
        high - low >= count ==> high - newest_offset(low, high, count) == count,
{
}

/// The high watermark that a client remembers, where it knows one.
pub fn cached_high_watermark(known: bool, high: i64) -> (mark: Option<i64>)
    ensures
        mark == (if known && high >= 0 { Some(high) } else { None }),
{
    if known && high >= 0 {
        Some(high)
    } else {
        None
    }
}

// ---- batches ----

/// Messages that are handed over together, with the place of each partition among
/// them.
pub struct Batch {
    pub records: Vec<MessageRecord>,
    pub bytes: usize,
    pub positions: Vec<PartitionPosition>,
}

/// A batch's contents.
pub struct BatchView {
    pub records: Seq<MessageRecord>,
    pub bytes: int,
    pub positions: Seq<PartitionPosition>,
}

impl View for Batch {
    type V = BatchView;

    open spec fn view(&self) -> BatchView {
        BatchView { records: self.records@, bytes: self.bytes as int, positions: self.positions@ }
    }
}

/// A batch that holds nothing.
pub open spec fn empty_batch() -> BatchView {
    BatchView { records: Seq::empty(), bytes: 0, positions: Seq::empty() }
}

/// The first place of a partition from a place on, or the end.
pub open spec fn position_from(positions: Seq<PartitionPosition>, partition: i32, i: int) -> int
    decreases positions.len() - i,
{
    if i >= positions.len() {
        positions.len() as int
    } else if positions[i].partition == partition {
        i
    } else {
        position_from(positions, partition, i + 1)
    }
}

/// Positions after one more message: its partition ends there, and starts there where
/// it is new.
pub open spec fn noted(positions: Seq<PartitionPosition>, partition: i32, offset: i64) -> Seq<PartitionPosition> {
    let i = position_from(positions, partition, 0);
    if i < positions.len() {
        positions.update(i, PartitionPosition { last: offset, ..positions[i] })
    } else {
        positions.push(PartitionPosition { partition, first: offset, last: offset, high: (-1) as i64 })
    }
}

/// How many bytes a message counts in a batch: its key and its value.
pub open spec fn counted_bytes(record: MessageRecord) -> int {
    (part_size(record.key_bytes()) + part_size(record.value_bytes())) as int
}

/// A batch with one more message.
pub open spec fn with_message(batch: BatchView, record: MessageRecord) -> BatchView {
    BatchView {
        records: batch.records.push(record),
        bytes: batch.bytes + counted_bytes(record),
        positions: noted(batch.positions, record.partition, record.offset),
    }
}

/// Positions with the high watermarks that are known.
pub open spec fn with_highs(positions: Seq<PartitionPosition>, highs: Seq<Option<i64>>) -> Seq<PartitionPosition> {
    Seq::new(
        positions.len(),
        |i: int| if i < highs.len() && highs[i] is Some {
            PartitionPosition { high: highs[i]->0, ..positions[i] }
        } else {
            positions[i]
        },
    )
}

impl Batch {
    pub fn new() -> (batch: Self)
        ensures
            batch@ == empty_batch(),
    {
        let batch = Batch { records: Vec::new(), bytes: 0, positions: Vec::new() };
        assert(batch@.records =~= Seq::empty());
        assert(batch@.positions =~= Seq::empty());
        batch
    }

    /// Adds a message.
    pub fn push(&mut self, record: MessageRecord)
        requires
            record.wf(),
            old(self)@.bytes + counted_bytes(record) <= usize::MAX,
        ensures
            final(self)@ == with_message(old(self)@, record),
    {
        let key_size: usize = match record.key() {
            Some(bytes) => bytes.len(),
            None => 0,
        };
        let value_size: usize = match record.value() {
            Some(bytes) => bytes.len(),
            None => 0,
        };
        self.bytes = self.bytes + (key_size + value_size);
        let ghost before = self.positions@;
        let mut i: usize = 0;
        while i < self.positions.len() && self.positions[i].partition != record.partition
            invariant
                i <= self.positions@.len(),
                self.positions@ == before,
                self.records == old(self).records,
                self.bytes == old(self).bytes + counted_bytes(record),
                position_from(before, record.partition, 0) == position_from(before, record.partition, i as int),
            decreases self.positions.len() - i,
        {
            i = i + 1;
        }
        if i < self.positions.len() {
            self.positions[i].last = record.offset;
        } else {
            self.positions.push(
                PartitionPosition {
                    partition: record.partition,
                    first: record.offset,
                    last: record.offset,
                    high: -1,
                },
            );
        }
        assert(self.positions@ =~= noted(before, record.partition, record.offset));
        self.records.push(record);
    }

    /// The partitions that the batch holds messages of, in the order of their first.
    pub fn partitions(&self) -> (list: Vec<i32>)
        ensures
            list@ == self@.positions.map_values(|p: PartitionPosition| p.partition),
    {
        let ghost all = self@.positions.map_values(|p: PartitionPosition| p.partition);
        let mut list: Vec<i32> = Vec::new();
        let mut i: usize = 0;
        while i < self.positions.len()
            invariant
                i <= self.positions@.len(),
                all == self.positions@.map_values(|p: PartitionPosition| p.partition),
                list@ == all.take(i as int),
            decreases self.positions.len() - i,
        {
            assert(all.take(i + 1) =~= list@.push(self.positions@[i as int].partition));
            list.push(self.positions[i].partition);
            i = i + 1;
        }
        assert(list@ =~= all);
        list
    }

    /// Notes the high watermarks of the partitions, in their order; one that is not
    /// known changes nothing.
    pub fn set_highs(&mut self, highs: &Vec<Option<i64>>)
        ensures
            final(self)@ == (BatchView { positions: with_highs(old(self)@.positions, highs@), ..old(self)@ }),
    {
        let ghost before = self.positions@;
        let mut i: usize = 0;
        while i < self.positions.len()
            invariant
                i <= self.positions@.len(),
                self.positions@.len() == before.len(),
                self.records == old(self).records,
                self.bytes == old(self).bytes,
                forall|k: int| 0 <= k < i ==> self.positions@[k] == with_highs(before, highs@)[k],
                forall|k: int| i <= k < before.len() ==> self.positions@[k] == before[k],
            decreases self.positions.len() - i,
        {
            if i < highs.len() {
                match highs[i] {
                    Some(high) => {
                        self.positions[i].high = high;
                    },
                    None => {},
                }
            }
            i = i + 1;
        }
        assert(self.positions@ =~= with_highs(before, highs@));
    }
}

/// The positions of messages that come one after the other.
pub open spec fn positions_of(records: Seq<MessageRecord>) -> Seq<PartitionPosition>
    decreases records.len(),
{
    if records.len() == 0 {
        Seq::empty()
    } else {
        noted(positions_of(records.drop_last()), records.last().partition, records.last().offset)
    }
}

proof fn position_from_finds(positions: Seq<PartitionPosition>, partition: i32, i: int)
    requires
        0 <= i <= positions.len(),
    ensures
        i <= position_from(positions, partition, i) <= positions.len(),
        position_from(positions, partition, i) < positions.len() ==> positions[position_from(
            positions,
            partition,
            i,
        )].partition == partition,
        forall|k: int| i <= k < position_from(positions, partition, i) ==> positions[k].partition != partition,
    decreases positions.len() - i,
{
    if i < positions.len() && positions[i].partition != partition {
        position_from_finds(positions, partition, i + 1);
    }
}

/// Whether positions hold one of a partition.
pub open spec fn has_position(positions: Seq<PartitionPosition>, partition: i32) -> bool {
    exists|i: int| 0 <= i < positions.len() && (#[trigger] positions[i]).partition == partition
}

/// Whether no partition has two positions.
pub open spec fn one_position_each(positions: Seq<PartitionPosition>) -> bool {
    forall|i: int, j: int|
        #![trigger positions[i], positions[j]]
        0 <= i < j < positions.len() ==> positions[i].partition != positions[j].partition
}

proof fn noting_keeps_positions(positions: Seq<PartitionPosition>, partition: i32, offset: i64)
    requires
        one_position_each(positions),
    ensures
        one_position_each(noted(positions, partition, offset)),
        has_position(noted(positions, partition, offset), partition),
        forall|p: i32|
            has_position(positions, p) ==> #[trigger] has_position(noted(positions, partition, offset), p),
{
    position_from_finds(positions, partition, 0);
    let at = position_from(positions, partition, 0);
    let after = noted(positions, partition, offset);
    assert(after[at].partition == partition);
    assert forall|i: int| 0 <= i < positions.len() implies (#[trigger] after[i]).partition == positions[i].partition by {}
    assert forall|i: int, j: int| #![trigger after[i], after[j]] 0 <= i < j < after.len() implies after[i].partition
        != after[j].partition by {
        if j < positions.len() {
            assert(positions[i].partition != positions[j].partition);
        } else {
            assert(positions[i].partition != partition);
        }
    }
    assert forall|p: i32| has_position(positions, p) implies #[trigger] has_position(after, p) by {
        let i = choose|i: int| 0 <= i < positions.len() && (#[trigger] positions[i]).partition == p;
        assert(after[i].partition == p);
    }
}

/// Each partition has one position in a batch, and the partition of each message has
/// one.
pub proof fn each_partition_has_one_position(records: Seq<MessageRecord>)
    ensures
        one_position_each(positions_of(records)),
        forall|k: int|
            0 <= k < records.len() ==> has_position(positions_of(records), (#[trigger] records[k]).partition),
    decreases records.len(),
{
    if records.len() > 0 {
        let rest = records.drop_last();
        let r = records.last();
        each_partition_has_one_position(rest);
        noting_keeps_positions(positions_of(rest), r.partition, r.offset);
        assert forall|k: int| 0 <= k < records.len() implies has_position(
            positions_of(records),
            (#[trigger] records[k]).partition,
        ) by {
            if k < rest.len() {
                assert(rest[k] == records[k]);
            }
        }
    }
}

/// The first place of a partition's messages from a place on, or the end.
pub open spec fn first_place(records: Seq<MessageRecord>, partition: i32, i: int) -> int
    decreases records.len() - i,
{
    if i >= records.len() {
        records.len() as int
    } else if records[i].partition == partition {
        i
    } else {
        first_place(records, partition, i + 1)
    }
}

/// The last place of a partition's messages, or -1.
pub open spec fn last_place(records: Seq<MessageRecord>, partition: i32) -> int
    decreases records.len(),
{
    if records.len() == 0 {
        -1
    } else if records.last().partition == partition {
        records.len() - 1
    } else {
        last_place(records.drop_last(), partition)
    }
}

/// How many bytes messages count in a batch.
pub open spec fn counted_in_all(records: Seq<MessageRecord>) -> int
    decreases records.len(),
{
    if records.len() == 0 {
        0
    } else {
        counted_in_all(records.drop_last()) + counted_bytes(records.last())
    }
}

/// The batch of messages that come one after the other.
pub open spec fn batch_of(records: Seq<MessageRecord>) -> BatchView {
    BatchView { records, bytes: counted_in_all(records), positions: positions_of(records) }
}

/// A batch that is filled with one message after the other holds these messages, their
/// bytes and their positions.
pub proof fn batches_are_made_of_messages(records: Seq<MessageRecord>, record: MessageRecord)
    ensures
        batch_of(Seq::empty()) == empty_batch(),
        with_message(batch_of(records), record) == batch_of(records.push(record)),
{
    assert(records.push(record).drop_last() =~= records);
}

proof fn first_places_stay(records: Seq<MessageRecord>, partition: i32, i: int)
    requires
        records.len() > 0,
        0 <= i < records.len(),
    ensures
        ({
            let before = first_place(records.drop_last(), partition, i);
            let after = first_place(records, partition, i);
            &&& i <= before < records.len()
            &&& after == (if before < records.len() - 1 {
                before
            } else if records.last().partition == partition {
                records.len() - 1
            } else {
                records.len() as int
            })
        }),
    decreases records.len() - i,
{
    if i < records.len() - 1 {
        assert(records.drop_last()[i] == records[i]);
        if records[i].partition != partition {
            first_places_stay(records, partition, i + 1);
        }
    } else {
        assert(first_place(records, partition, i + 1) == records.len());
    }
}

/// What the position of a partition says of messages: where the partition's first message
/// stands and where its last. The high watermark is not known yet.
pub open spec fn spans(records: Seq<MessageRecord>, position: PartitionPosition) -> bool {
    let first = first_place(records, position.partition, 0);
    let last = last_place(records, position.partition);
    &&& 0 <= first <= last < records.len()
    &&& position.first == records[first].offset
    &&& position.last == records[last].offset
    &&& position.high == -1
}

/// A position that one more message leaves as it is.
proof fn other_positions_stay(records: Seq<MessageRecord>, position: PartitionPosition)
    requires
        records.len() > 0,
        spans(records.drop_last(), position),
        position.partition != records.last().partition,
    ensures
        spans(records, position),
        first_place(records, position.partition, 0) == first_place(records.drop_last(), position.partition, 0),
{
    first_places_stay(records, position.partition, 0);
}

/// A position that one more message moves.
proof fn a_position_moves(records: Seq<MessageRecord>, position: PartitionPosition)
    requires
        records.len() > 0,
        spans(records.drop_last(), position),
        position.partition == records.last().partition,
    ensures
        spans(records, PartitionPosition { last: records.last().offset, ..position }),
        first_place(records, position.partition, 0) == first_place(records.drop_last(), position.partition, 0),
{
    first_places_stay(records, position.partition, 0);
}

/// The position of a partition that one more message is the first of.
proof fn a_position_begins(records: Seq<MessageRecord>)
    requires
        records.len() > 0,
        !has_position(positions_of(records.drop_last()), records.last().partition),
    ensures
        ({
            let r = records.last();
            &&& spans(
                records,
                PartitionPosition { partition: r.partition, first: r.offset, last: r.offset, high: (-1) as i64 },
            )
            &&& first_place(records, r.partition, 0) == records.len() - 1
        }),
{
    let rest = records.drop_last();
    let partition = records.last().partition;
    each_partition_has_one_position(rest);
    first_place_finds(rest, partition, 0);
    first_places_stay(records, partition, 0);
    let first = first_place(rest, partition, 0);
    if first < rest.len() {
        assert(has_position(positions_of(rest), rest[first].partition));
    }
}

/// Whether positions come in the order of their partitions' first messages.
pub open spec fn in_order_of_appearance(records: Seq<MessageRecord>, positions: Seq<PartitionPosition>) -> bool {
    forall|j: int, k: int|
        #![trigger positions[j], positions[k]]
        0 <= j < k < positions.len() ==> first_place(records, positions[j].partition, 0) < first_place(
            records,
            positions[k].partition,
            0,
        )
}

/// A batch's positions give the first and the last offset of each partition, and come in
/// the order of the partitions' first messages.
pub proof fn positions_span_their_messages(records: Seq<MessageRecord>)
    ensures
        forall|k: int| 0 <= k < positions_of(records).len() ==> spans(records, #[trigger] positions_of(records)[k]),
        in_order_of_appearance(records, positions_of(records)),
    decreases records.len(),
{
    if records.len() > 0 {
        let rest = records.drop_last();
        let r = records.last();
        let before = positions_of(rest);
        let after = positions_of(records);
        positions_span_their_messages(rest);
        each_partition_has_one_position(rest);
        position_from_finds(before, r.partition, 0);
        let at = position_from(before, r.partition, 0);
        assert forall|k: int| 0 <= k < after.len() implies spans(records, #[trigger] after[k]) by {
            if k == before.len() {
                assert(!has_position(before, r.partition));
                a_position_begins(records);
            } else {
                assert(spans(rest, before[k]));
                if k == at {
                    a_position_moves(records, before[k]);
                } else {
                    if at < k {
                        assert(before[at].partition != before[k].partition);
                    }
                    other_positions_stay(records, before[k]);
                }
            }
        }
        positions_stay_in_order(records);
    }
}

proof fn positions_stay_in_order(records: Seq<MessageRecord>)
    requires
        records.len() > 0,
        in_order_of_appearance(records.drop_last(), positions_of(records.drop_last())),
        forall|k: int|
            0 <= k < positions_of(records.drop_last()).len() ==> spans(
                records.drop_last(),
                #[trigger] positions_of(records.drop_last())[k],
            ),
    ensures
        in_order_of_appearance(records, positions_of(records)),
{
    let rest = records.drop_last();
    let r = records.last();
    let before = positions_of(rest);
    let after = positions_of(records);
    position_from_finds(before, r.partition, 0);
    assert forall|j: int, k: int| #![trigger after[j], after[k]] 0 <= j < k < after.len() implies first_place(
        records,
        after[j].partition,
        0,
    ) < first_place(records, after[k].partition, 0) by {
        assert(spans(rest, before[j]));
        assert(after[j].partition == before[j].partition);
        first_places_stay(records, before[j].partition, 0);
        if k < before.len() {
            assert(spans(rest, before[k]));
            assert(after[k].partition == before[k].partition);
            first_places_stay(records, before[k].partition, 0);
        } else {
            assert(!has_position(before, r.partition));
            a_position_begins(records);
        }
    }
}

proof fn first_place_finds(records: Seq<MessageRecord>, partition: i32, i: int)
    requires
        0 <= i <= records.len(),
    ensures
        i <= first_place(records, partition, i) <= records.len(),
        first_place(records, partition, i) < records.len() ==> records[first_place(records, partition, i)].partition
            == partition,
    decreases records.len() - i,
{
    if i < records.len() && records[i].partition != partition {
        first_place_finds(records, partition, i + 1);
    }
}

// ---- a reading session ----

/// What a session tells its listener.
pub enum ConsumeEvent {
    Assigned(Vec<i32>),
    Batch(Batch),
    Eof(i32),
    Error(String),
}

/// What a session tells its listener, as values.
pub enum ConsumeEventView {
    Assigned(Seq<i32>),
    Batch(BatchView),
    Eof(i32),
    Error(Seq<char>),
}

impl View for ConsumeEvent {
    type V = ConsumeEventView;

    open spec fn view(&self) -> ConsumeEventView {
        match self {
            ConsumeEvent::Assigned(partitions) => ConsumeEventView::Assigned(partitions@),
            ConsumeEvent::Batch(batch) => ConsumeEventView::Batch(batch@),
            ConsumeEvent::Eof(partition) => ConsumeEventView::Eof(*partition),
            ConsumeEvent::Error(message) => ConsumeEventView::Error(message@),
        }
    }
}

/// What a session waits for.
#[derive(Debug, Clone, Copy, PartialEq, Eq, Structural)]
pub enum Phase {
    Creating,
    Finding,
    Planning,
    Assigning,
    Announcing,
    Polling,
    /// The high watermarks of a batch are read; a partition's end is told behind it.
    ReadingHighs(Option<i32>),
    SendingBatch(Option<i32>),
    SendingEof,
    SendingError,
    Failing,
    Done,
}

/// What has happened to a session.
pub enum LoopEvent {
    Created,
    Failed(String),
    TopicFound(Vec<i32>),
    TopicMissing,
    Planned,
    Assigned,
    /// The listener took what was sent.
    Sent,
    /// The listener is gone.
    Closed,
    /// A message came, at a time in nanoseconds.
    Message(MessageRecord, u64),
    Eof(i32),
    PollError(String),
    Nothing,
    StopRequested,
    Highs(Vec<Option<i64>>),
}

/// What has happened to a session, as values.
pub enum LoopEventView {
    Created,
    Failed(Seq<char>),
    TopicFound(Seq<i32>),
    TopicMissing,
    Planned,
    Assigned,
    Sent,
    Closed,
    Message(MessageRecord, int),
    Eof(i32),
    PollError(Seq<char>),
    Nothing,
    StopRequested,
    Highs(Seq<Option<i64>>),
}

impl View for LoopEvent {
    type V = LoopEventView;

    open spec fn view(&self) -> LoopEventView {
        match self {
            LoopEvent::Created => LoopEventView::Created,
            LoopEvent::Failed(reason) => LoopEventView::Failed(reason@),
            LoopEvent::TopicFound(partitions) => LoopEventView::TopicFound(partitions@),
            LoopEvent::TopicMissing => LoopEventView::TopicMissing,
            LoopEvent::Planned => LoopEventView::Planned,
            LoopEvent::Assigned => LoopEventView::Assigned,
            LoopEvent::Sent => LoopEventView::Sent,
            LoopEvent::Closed => LoopEventView::Closed,
            LoopEvent::Message(record, now) => LoopEventView::Message(*record, *now as int),
            LoopEvent::Eof(partition) => LoopEventView::Eof(*partition),
            LoopEvent::PollError(reason) => LoopEventView::PollError(reason@),
            LoopEvent::Nothing => LoopEventView::Nothing,
            LoopEvent::StopRequested => LoopEventView::StopRequested,
            LoopEvent::Highs(highs) => LoopEventView::Highs(highs@),
        }
    }
}

/// What a session does next.
pub enum LoopAction {
    Create,
    FindTopic,
    Plan,
    Assign,
    Send(ConsumeEvent),
    Poll(u64),
    ReadHighs(Vec<i32>),
    /// The assignment is given back, and the session is over.
    Unassign,
    Finish,
}

/// What a session does next, as values.
pub enum LoopActionView {
    Create,
    FindTopic,
    Plan,
    Assign,
    Send(ConsumeEventView),
    Poll(int),
    ReadHighs(Seq<i32>),
    Unassign,
    Finish,
}

impl View for LoopAction {
    type V = LoopActionView;

    open spec fn view(&self) -> LoopActionView {
        match self {
            LoopAction::Create => LoopActionView::Create,
            LoopAction::FindTopic => LoopActionView::FindTopic,
            LoopAction::Plan => LoopActionView::Plan,
            LoopAction::Assign => LoopActionView::Assign,
            LoopAction::Send(event) => LoopActionView::Send(event@),
            LoopAction::Poll(ms) => LoopActionView::Poll(*ms as int),
            LoopAction::ReadHighs(partitions) => LoopActionView::ReadHighs(partitions@),
            LoopAction::Unassign => LoopActionView::Unassign,
            LoopAction::Finish => LoopActionView::Finish,
        }
    }
}

/// A session: its topic, the batch that it gathers, and what it waits for.
pub struct ConsumeLoop {
    pub topic: String,
    pub partitions: Vec<i32>,
    pub batch: Batch,
    pub batch_started: u64,
    pub phase: Phase,
}

/// A session as values.
pub struct LoopView {
    pub topic: Seq<char>,
    pub partitions: Seq<i32>,
    pub batch: BatchView,
    pub batch_started: int,
    pub phase: Phase,
}

impl View for ConsumeLoop {
    type V = LoopView;

    open spec fn view(&self) -> LoopView {
        LoopView {
            topic: self.topic@,
            partitions: self.partitions@,
            batch: self.batch@,
            batch_started: self.batch_started as int,
            phase: self.phase,
        }
    }
}

/// Whether an event can come in a phase.
pub open spec fn expected(phase: Phase, event: LoopEventView) -> bool {
    match phase {
        Phase::Creating => event is Created || event is Failed,
        Phase::Finding => event is TopicFound || event is TopicMissing || event is Failed,
        Phase::Planning => event is Planned || event is Failed,
        Phase::Assigning => event is Assigned || event is Failed,
        Phase::Polling => event is Message || event is Eof || event is PollError || event is Nothing
            || event is StopRequested,
        Phase::ReadingHighs(_) => event is Highs,
        Phase::Announcing | Phase::SendingBatch(_) | Phase::SendingEof | Phase::SendingError | Phase::Failing => event is Sent
            || event is Closed,
        Phase::Done => false,
    }
}

/// A session in another phase.
pub open spec fn in_phase(state: LoopView, phase: Phase) -> LoopView {
    LoopView { phase, ..state }
}

/// A session that tells an error and ends.
pub open spec fn failing(state: LoopView, message: Seq<char>) -> (LoopView, LoopActionView) {
    (in_phase(state, Phase::Failing), LoopActionView::Send(ConsumeEventView::Error(message)))
}

/// A session that polls. It waits for less where messages are at hand.
pub open spec fn polling(state: LoopView) -> (LoopView, LoopActionView) {
    (
        in_phase(state, Phase::Polling),
        LoopActionView::Poll(if state.batch.records.len() == 0 { IDLE_POLL_MS as int } else { BUSY_POLL_MS as int }),
    )
}

/// A session that hands over its batch, and behind it tells a partition's end.
pub open spec fn flushing(state: LoopView, eof: Option<i32>) -> (LoopView, LoopActionView) {
    if state.batch.records.len() > 0 {
        (
            in_phase(state, Phase::ReadingHighs(eof)),
            LoopActionView::ReadHighs(state.batch.positions.map_values(|p: PartitionPosition| p.partition)),
        )
    } else {
        match eof {
            Some(partition) => telling_eof(state, partition),
            None => polling(state),
        }
    }
}

pub open spec fn telling_eof(state: LoopView, partition: i32) -> (LoopView, LoopActionView) {
    (in_phase(state, Phase::SendingEof), LoopActionView::Send(ConsumeEventView::Eof(partition)))
}

/// A session with one more message. The age of a batch counts from its first.
pub open spec fn gathered(state: LoopView, record: MessageRecord, now: int) -> LoopView {
    LoopView {
        batch: with_message(state.batch, record),
        batch_started: if state.batch.records.len() == 0 {
            now
        } else {
            state.batch_started
        },
        ..state
    }
}

/// Whether a batch is handed over: it is full, or old enough.
pub open spec fn batch_ready(state: LoopView, now: int) -> bool {
    state.batch.records.len() >= BATCH_MAX_MESSAGES || now - state.batch_started >= BATCH_MAX_AGE
}

/// The next state of a session, and what it does.
pub open spec fn next_step(state: LoopView, event: LoopEventView) -> (LoopView, LoopActionView) {
    match (state.phase, event) {
        (Phase::Creating, LoopEventView::Created) => if state.partitions.len() == 0 {
            (in_phase(state, Phase::Finding), LoopActionView::FindTopic)
        } else {
            (in_phase(state, Phase::Planning), LoopActionView::Plan)
        },
        (Phase::Creating, LoopEventView::Failed(reason)) => failing(state, "consumer: "@ + reason),
        (Phase::Finding, LoopEventView::TopicFound(partitions)) => (
            LoopView { partitions, ..in_phase(state, Phase::Planning) },
            LoopActionView::Plan,
        ),
        (Phase::Finding, LoopEventView::TopicMissing) => failing(state, "topic "@ + state.topic + " not found"@),
        (Phase::Finding, LoopEventView::Failed(reason)) => failing(state, "metadata: "@ + reason),
        (Phase::Planning, LoopEventView::Planned) => (in_phase(state, Phase::Assigning), LoopActionView::Assign),
        (Phase::Planning, LoopEventView::Failed(reason)) => failing(state, "offsets: "@ + reason),
        (Phase::Assigning, LoopEventView::Assigned) => (
            in_phase(state, Phase::Announcing),
            LoopActionView::Send(ConsumeEventView::Assigned(state.partitions)),
        ),
        (Phase::Assigning, LoopEventView::Failed(reason)) => failing(state, "assign: "@ + reason),
        (Phase::Announcing, LoopEventView::Sent) => if state.topic.contains('\0') {
            failing(state, "topic name "@ + state.topic + " holds a NUL byte"@)
        } else {
            polling(state)
        },
        (Phase::Polling, LoopEventView::Message(record, now)) => {
            let more = gathered(state, record, now);
            if batch_ready(more, now) {
                flushing(more, None)
            } else {
                polling(more)
            }
        },
        (Phase::Polling, LoopEventView::Eof(partition)) => flushing(state, Some(partition)),
        (Phase::Polling, LoopEventView::PollError(reason)) => (
            in_phase(state, Phase::SendingError),
            LoopActionView::Send(ConsumeEventView::Error(reason)),
        ),
        (Phase::Polling, LoopEventView::Nothing) => flushing(state, None),
        (Phase::ReadingHighs(eof), LoopEventView::Highs(highs)) => (
            LoopView { batch: empty_batch(), ..in_phase(state, Phase::SendingBatch(eof)) },
            LoopActionView::Send(
                ConsumeEventView::Batch(
                    BatchView { positions: with_highs(state.batch.positions, highs), ..state.batch },
                ),
            ),
        ),
        (Phase::SendingBatch(Some(partition)), LoopEventView::Sent) => telling_eof(state, partition),
        (Phase::SendingBatch(None), LoopEventView::Sent) => polling(state),
        (Phase::SendingEof, LoopEventView::Sent) => polling(state),
        (Phase::SendingError, LoopEventView::Sent) => polling(state),
        (Phase::Failing, _) => (in_phase(state, Phase::Done), LoopActionView::Finish),
        (Phase::Announcing, _) => (in_phase(state, Phase::Done), LoopActionView::Finish),
        _ => (in_phase(state, Phase::Done), LoopActionView::Unassign),
    }
}

/// Whether the message of an event can still be counted.
pub open spec fn has_room(state: LoopView, event: LoopEventView) -> bool {
    event matches LoopEventView::Message(record, _) ==> record.wf() && state.batch.bytes + counted_bytes(record)
        <= usize::MAX
}

impl ConsumeLoop {
    /// A session for a topic. Without partitions it reads all of them.
    pub fn new(topic: String, partitions: Vec<i32>) -> (first: (Self, LoopAction))
        ensures
            first.0@ == (LoopView {
                topic: topic@,
                partitions: partitions@,
                batch: empty_batch(),
                batch_started: 0,
                phase: Phase::Creating,
            }),
            first.1@ == LoopActionView::Create,
    {
        (
            ConsumeLoop { topic, partitions, batch: Batch::new(), batch_started: 0, phase: Phase::Creating },
            LoopAction::Create,
        )
    }

    fn fail(&mut self, message: String) -> (action: LoopAction)
        ensures
            (final(self)@, action@) == failing(old(self)@, message@),
    {
        self.phase = Phase::Failing;
        LoopAction::Send(ConsumeEvent::Error(message))
    }

    fn poll(&mut self) -> (action: LoopAction)
        ensures
            (final(self)@, action@) == polling(old(self)@),
    {
        self.phase = Phase::Polling;
        LoopAction::Poll(if self.batch.records.len() == 0 { IDLE_POLL_MS } else { BUSY_POLL_MS })
    }

    fn tell_eof(&mut self, partition: i32) -> (action: LoopAction)
        ensures
            (final(self)@, action@) == telling_eof(old(self)@, partition),
    {
        self.phase = Phase::SendingEof;
        LoopAction::Send(ConsumeEvent::Eof(partition))
    }

    fn flush(&mut self, eof: Option<i32>) -> (action: LoopAction)
        ensures
            (final(self)@, action@) == flushing(old(self)@, eof),
    {
        if self.batch.records.len() > 0 {
            self.phase = Phase::ReadingHighs(eof);
            LoopAction::ReadHighs(self.batch.partitions())
        } else {
            match eof {
                Some(partition) => self.tell_eof(partition),
                None => self.poll(),
            }
        }
    }

    fn gather(&mut self, record: MessageRecord, now: u64) -> (action: LoopAction)
        requires
            record.wf(),
            old(self)@.batch.bytes + counted_bytes(record) <= usize::MAX,
        ensures
            ({
                let more = gathered(old(self)@, record, now as int);
                (final(self)@, action@) == if batch_ready(more, now as int) {
                    flushing(more, None)
                } else {
                    polling(more)
                }
            }),
    {
        if self.batch.records.len() == 0 {
            self.batch_started = now;
        }
        self.batch.push(record);
        let old_enough: bool = now >= self.batch_started && now - self.batch_started >= BATCH_MAX_AGE;
        if self.batch.records.len() >= BATCH_MAX_MESSAGES || old_enough {
            self.flush(None)
        } else {
            self.poll()
        }
    }

    fn hand_over(&mut self, eof: Option<i32>, highs: &Vec<Option<i64>>) -> (action: LoopAction)
        ensures
            final(self)@ == (LoopView { batch: empty_batch(), ..in_phase(old(self)@, Phase::SendingBatch(eof)) }),
            action@ == LoopActionView::Send(
                ConsumeEventView::Batch(
                    (BatchView { positions: with_highs(old(self)@.batch.positions, highs@), ..old(self)@.batch }),
                ),
            ),
    {
        let mut ready = Batch::new();
        std::mem::swap(&mut ready, &mut self.batch);
        ready.set_highs(highs);
        self.phase = Phase::SendingBatch(eof);
        LoopAction::Send(ConsumeEvent::Batch(ready))
    }

    /// One step of the session.
    pub fn step(&mut self, event: LoopEvent) -> (action: LoopAction)
        requires
            expected(old(self)@.phase, event@),
            has_room(old(self)@, event@),
        ensures
            (final(self)@, action@) == next_step(old(self)@, event@),
    {
        match (self.phase, event) {
            (Phase::Creating, LoopEvent::Created) => {
                if self.partitions.len() == 0 {
                    self.phase = Phase::Finding;
                    LoopAction::FindTopic
                } else {
                    self.phase = Phase::Planning;
                    LoopAction::Plan
                }
            },
            (Phase::Creating, LoopEvent::Failed(reason)) => self.fail(joined("consumer: ", &reason)),
            (Phase::Finding, LoopEvent::TopicFound(partitions)) => {
                self.partitions = partitions;
                self.phase = Phase::Planning;
                LoopAction::Plan
            },
            (Phase::Finding, LoopEvent::TopicMissing) => {
                let message = joined3("topic ", &self.topic, " not found");
                self.fail(message)
            },
            (Phase::Finding, LoopEvent::Failed(reason)) => self.fail(joined("metadata: ", &reason)),
            (Phase::Planning, LoopEvent::Planned) => {
                self.phase = Phase::Assigning;
                LoopAction::Assign
            },
            (Phase::Planning, LoopEvent::Failed(reason)) => self.fail(joined("offsets: ", &reason)),
            (Phase::Assigning, LoopEvent::Assigned) => {
                self.phase = Phase::Announcing;
                LoopAction::Send(ConsumeEvent::Assigned(self.partitions.clone()))
            },
            (Phase::Assigning, LoopEvent::Failed(reason)) => self.fail(joined("assign: ", &reason)),
            (Phase::Announcing, LoopEvent::Sent) => {
                let chars = chars_of(&self.topic);
                let place: usize = find_from(&chars, '\0', 0);
                proof {
                    place_from_is_first(chars@, '\0', 0);
                    if self.topic@.contains('\0') {
                        let k = choose|k: int| 0 <= k < chars@.len() && chars@[k] == '\0';
                        assert(place <= k);
                    }
                }
                if place < chars.len() {
                    assert(self.topic@[place as int] == '\0');
                    let message = joined3("topic name ", &self.topic, " holds a NUL byte");
                    self.fail(message)
                } else {
                    self.poll()
                }
            },
            (Phase::Polling, LoopEvent::Message(record, now)) => self.gather(record, now),
            (Phase::Polling, LoopEvent::Eof(partition)) => self.flush(Some(partition)),
            (Phase::Polling, LoopEvent::PollError(reason)) => {
                self.phase = Phase::SendingError;
                LoopAction::Send(ConsumeEvent::Error(reason))
            },
            (Phase::Polling, LoopEvent::Nothing) => self.flush(None),
            (Phase::ReadingHighs(eof), LoopEvent::Highs(highs)) => self.hand_over(eof, &highs),
            (Phase::SendingBatch(Some(partition)), LoopEvent::Sent) => self.tell_eof(partition),
            (Phase::SendingBatch(None), LoopEvent::Sent) => self.poll(),
            (Phase::SendingEof, LoopEvent::Sent) => self.poll(),
            (Phase::SendingError, LoopEvent::Sent) => self.poll(),
            (Phase::Failing, _) => {
                self.phase = Phase::Done;
                LoopAction::Finish
            },
            (Phase::Announcing, _) => {
                self.phase = Phase::Done;
                LoopAction::Finish
            },
            _ => {
                self.phase = Phase::Done;
                LoopAction::Unassign
            },
        }
    }
}

// ---- laws ----

/// The messages that an event brings.
pub open spec fn received(event: LoopEventView) -> Seq<MessageRecord> {
    match event {
        LoopEventView::Message(record, _) => seq![record],
        _ => Seq::empty(),
    }
}

/// The messages that an action hands over.
pub open spec fn handed_over(action: LoopActionView) -> Seq<MessageRecord> {
    match action {
        LoopActionView::Send(ConsumeEventView::Batch(batch)) => batch.records,
        _ => Seq::empty(),
    }
}

/// What holds of a session at all times: while it polls, its batch is not full, and
/// while it tells something else than messages at an end, it holds none.
pub open spec fn session_ok(state: LoopView) -> bool {
    &&& state.batch.records.len() <= BATCH_MAX_MESSAGES
    &&& state.phase == Phase::Polling || state.phase == Phase::SendingError ==> state.batch.records.len()
        < BATCH_MAX_MESSAGES
    &&& state.phase is ReadingHighs ==> state.batch.records.len() > 0
    &&& (state.phase is SendingBatch || state.phase is SendingEof) ==> state.batch.records.len() == 0
    &&& (state.phase is Creating || state.phase is Finding || state.phase is Planning || state.phase is Assigning
        || state.phase is Announcing) ==> state.batch.records.len() == 0
}

/// A session keeps its invariant, and no batch is larger than it may be.
pub proof fn sessions_stay_ok(state: LoopView, event: LoopEventView)
    requires
        session_ok(state),
        expected(state.phase, event),
    ensures
        session_ok(next_step(state, event).0),
        handed_over(next_step(state, event).1).len() <= BATCH_MAX_MESSAGES,
{
}

/// No message is lost, repeated or moved: what was at hand and what came is what is
/// handed over and what is at hand then, in this order. Only a session that is over
/// hands nothing over any more.
pub proof fn no_message_is_lost(state: LoopView, event: LoopEventView)
    requires
        session_ok(state),
        expected(state.phase, event),
    ensures
        ({
            let (after, action) = next_step(state, event);
            state.batch.records + received(event) == handed_over(action) + after.batch.records
        }),
{
    let (after, action) = next_step(state, event);
    assert(state.batch.records + received(event) =~= handed_over(action) + after.batch.records);
}

/// The end of a partition is told only when the messages before it are handed over.
pub proof fn ends_are_told_behind_messages(state: LoopView, event: LoopEventView)
    requires
        session_ok(state),
        expected(state.phase, event),
        next_step(state, event).1 matches LoopActionView::Send(told) && told is Eof,
    ensures
        next_step(state, event).0.batch.records.len() == 0,
{
}

/// A session that was asked to stop, or whose listener is gone, ends at once.
pub proof fn sessions_end_when_told(state: LoopView, event: LoopEventView)
    requires
        expected(state.phase, event),
        event is StopRequested || event is Closed,
    ensures
        next_step(state, event).0.phase == Phase::Done,
        next_step(state, event).1 is Unassign || next_step(state, event).1 is Finish,
{
}

/// A session ends only where it was asked to stop, where its listener is gone, or where it
/// has told why it failed.
pub proof fn sessions_end_for_a_reason(state: LoopView, event: LoopEventView)
    requires
        expected(state.phase, event),
    ensures
        ({
            let (after, action) = next_step(state, event);
            &&& after.phase is Done <==> (action is Unassign || action is Finish)
            &&& after.phase is Done <==> (event is StopRequested || event is Closed || state.phase is Failing)
        }),
{
}

/// A session whose listener took what was sent goes on: it polls, or behind a batch first
/// tells the end of the partition that was reached.
pub proof fn sessions_go_on_reading(state: LoopView)
    requires
        state.phase is SendingBatch || state.phase is SendingEof || state.phase is SendingError,
    ensures
        ({
            let (after, action) = next_step(state, LoopEventView::Sent);
            &&& state.phase matches Phase::SendingBatch(Some(partition)) ==> action == LoopActionView::Send(
                ConsumeEventView::Eof(partition),
            ) && after.phase is SendingEof
            &&& !(state.phase matches Phase::SendingBatch(Some(_))) ==> action is Poll && after.phase is Polling
            &&& after.batch == state.batch
            &&& after.topic == state.topic
            &&& after.partitions == state.partitions
        }),
{
}

/// A poll waits for long where no message is at hand, and for a short time where one is.
pub proof fn polls_are_short_with_messages_at_hand(state: LoopView, event: LoopEventView)
    requires
        expected(state.phase, event),
    ensures
        next_step(state, event).1 matches LoopActionView::Poll(ms) ==> ms == (if next_step(
            state,
            event,
        ).0.batch.records.len() == 0 {
            100int
        } else {
            5
        }) && next_step(state, event).0.phase is Polling,
{
}

/// A message is kept, and the batch is handed over exactly where it is full or its first
/// message came long enough ago; or else the session polls again.
pub proof fn full_and_old_batches_are_handed_over(state: LoopView, record: MessageRecord, now: int)
    requires
        state.phase is Polling,
    ensures
        ({
            let (after, action) = next_step(state, LoopEventView::Message(record, now));
            let held = state.batch.records.len();
            &&& after.batch.records == state.batch.records.push(record)
            &&& after.batch_started == (if held == 0 { now } else { state.batch_started })
            &&& if held + 1 >= 256 || held > 0 && now - state.batch_started >= 16_000_000 {
                after.phase == Phase::ReadingHighs(None) && action is ReadHighs
            } else {
                after.phase is Polling && action is Poll
            }
        }),
{
}

/// Where no message comes for a while, what is at hand is handed over.
pub proof fn a_pause_hands_over_what_is_at_hand(state: LoopView)
    requires
        state.phase is Polling,
    ensures
        ({
            let (after, action) = next_step(state, LoopEventView::Nothing);
            &&& after.batch == state.batch
            &&& state.batch.records.len() > 0 ==> after.phase == Phase::ReadingHighs(None) && action is ReadHighs
            &&& state.batch.records.len() == 0 ==> after.phase is Polling && action is Poll
        }),
{
}

/// From the end of a partition on: the messages that are at hand are handed over, with the
/// high watermarks that were asked for, then the end is told, and then the session polls.
pub proof fn an_end_is_told_and_reading_goes_on(state: LoopView, partition: i32, highs: Seq<Option<i64>>)
    requires
        state.phase is Polling,
    ensures
        ({
            let told = LoopActionView::Send(ConsumeEventView::Eof(partition));
            let (first, asked) = next_step(state, LoopEventView::Eof(partition));
            if state.batch.records.len() == 0 {
                asked == told && next_step(first, LoopEventView::Sent).1 is Poll
            } else {
                let (second, sent) = next_step(first, LoopEventView::Highs(highs));
                let (third, end) = next_step(second, LoopEventView::Sent);
                &&& asked is ReadHighs
                &&& asked->ReadHighs_0.len() == state.batch.positions.len()
                &&& forall|k: int|
                    0 <= k < state.batch.positions.len() ==> #[trigger] asked->ReadHighs_0[k]
                        == state.batch.positions[k].partition
                &&& sent matches LoopActionView::Send(ConsumeEventView::Batch(batch)) && batch.records
                    == state.batch.records
                &&& second.batch.records.len() == 0
                &&& end == told
                &&& next_step(third, LoopEventView::Sent).1 is Poll
            }
        }),
{
}

/// A batch is handed over with its messages, its bytes and its places; each partition's high
/// watermark is noted where it is known, in the order in which it was asked for.
pub proof fn a_batch_is_handed_over_whole(state: LoopView, eof: Option<i32>, highs: Seq<Option<i64>>)
    requires
        state.phase == Phase::ReadingHighs(eof),
        highs.len() == state.batch.positions.len(),
    ensures
        ({
            let (after, action) = next_step(state, LoopEventView::Highs(highs));
            &&& after.phase == Phase::SendingBatch(eof)
            &&& after.batch.records.len() == 0 && after.batch.bytes == 0 && after.batch.positions.len() == 0
            &&& action matches LoopActionView::Send(ConsumeEventView::Batch(batch)) && {
                &&& batch.records == state.batch.records
                &&& batch.bytes == state.batch.bytes
                &&& batch.positions.len() == state.batch.positions.len()
                &&& forall|k: int|
                    0 <= k < highs.len() ==> {
                        let place = #[trigger] batch.positions[k];
                        &&& place.partition == state.batch.positions[k].partition
                        &&& place.first == state.batch.positions[k].first
                        &&& place.last == state.batch.positions[k].last
                        &&& highs[k] matches Some(high) ==> place.high == high
                        &&& highs[k] is None ==> place.high == state.batch.positions[k].high
                    }
            }
        }),
{
}

/// An error while polling is told in its own words, and what is at hand stays at hand.
pub proof fn a_poll_error_is_told(state: LoopView, reason: Seq<char>)
    requires
        state.phase is Polling,
    ensures
        ({
            let (after, action) = next_step(state, LoopEventView::PollError(reason));
            &&& action == LoopActionView::Send(ConsumeEventView::Error(reason))
            &&& after.batch == state.batch
            &&& next_step(after, LoopEventView::Sent).0.phase is Polling
            &&& next_step(after, LoopEventView::Sent).0.batch == state.batch
        }),
{
}

/// A failure before the first poll is told, with its reason at the end, and ends the
/// session.
pub proof fn a_failure_is_told_and_ends_the_session(state: LoopView, reason: Seq<char>)
    requires
        state.phase is Creating || state.phase is Finding || state.phase is Planning || state.phase is Assigning,
    ensures
        ({
            let (after, action) = next_step(state, LoopEventView::Failed(reason));
            &&& action matches LoopActionView::Send(ConsumeEventView::Error(text)) && text.len() > reason.len()
                && text.skip(text.len() - reason.len()) == reason
            &&& next_step(after, LoopEventView::Sent).0.phase is Done
            &&& next_step(after, LoopEventView::Closed).0.phase is Done
        }),
{
    reveal_strlit("consumer: ");
    reveal_strlit("metadata: ");
    reveal_strlit("offsets: ");
    reveal_strlit("assign: ");
    let (after, action) = next_step(state, LoopEventView::Failed(reason));
    let text = action->Send_0->Error_0;
    assert(text.skip(text.len() - reason.len()) =~= reason);
}

/// A session that meets no failure reads: it asks for the partitions where none are given,
/// plans, assigns, tells which partitions it reads, and polls.
pub proof fn a_session_starts_to_read(state: LoopView, found: Seq<i32>)
    requires
        state.phase is Creating,
        !state.topic.contains('\0'),
    ensures
        ({
            let (created, first) = next_step(state, LoopEventView::Created);
            let (ready, second) = if state.partitions.len() == 0 {
                next_step(created, LoopEventView::TopicFound(found))
            } else {
                (created, first)
            };
            let read = if state.partitions.len() == 0 {
                found
            } else {
                state.partitions
            };
            let (planned, third) = next_step(ready, LoopEventView::Planned);
            let (assigned, told) = next_step(planned, LoopEventView::Assigned);
            let (reading, fifth) = next_step(assigned, LoopEventView::Sent);
            &&& state.partitions.len() == 0 ==> first is FindTopic
            &&& second is Plan
            &&& third is Assign
            &&& told == LoopActionView::Send(ConsumeEventView::Assigned(read))
            &&& fifth is Poll
            &&& reading.phase is Polling
            &&& reading.partitions == read
            &&& reading.topic == state.topic
            &&& reading.batch == state.batch
        }),
{
}

/// Each partition that is to be read starts where the choice says: at the end, at the
/// beginning, or at the offset that was given, which counts from zero.
pub proof fn each_partition_starts_as_chosen(start: StartFrom, partitions: &[i32], plan: AssignmentPlan)
    requires
        call_ensures(plan_assignment, (start, partitions), plan),
        start is Latest || start is Beginning || start is Offset,
    ensures
        plan matches AssignmentPlan::Ready(list) && list@.len() == partitions@.len() && forall|k: int|
            0 <= k < partitions@.len() ==> (#[trigger] list@[k]).0 == partitions@[k] && match start {
                StartFrom::Latest => list@[k].1 is End,
                StartFrom::Beginning => list@[k].1 is Beginning,
                StartFrom::Offset(n) => list@[k].1 matches StartOffset::At(at) && at >= 0 && (n >= 0 ==> at == n) && (n
                    < 0 ==> at == 0),
                _ => false,
            },
{
}

/// A start at a time asks for the offset of that time in each partition; it starts at what
/// was found, and where nothing is that late, at the end.
pub proof fn a_time_is_looked_up_in_each_partition(
    ms: i64,
    partitions: &[i32],
    plan: AssignmentPlan,
    found: Option<i64>,
    at: StartOffset,
)
    requires
        call_ensures(plan_assignment, (StartFrom::Timestamp(ms), partitions), plan),
        call_ensures(start_at_time, (found,), at),
        ms >= 0,
    ensures
        plan matches AssignmentPlan::NeedsTimes(list) && list@.len() == partitions@.len() && forall|k: int|
            0 <= k < partitions@.len() ==> #[trigger] list@[k] == (partitions@[k], ms),
        found matches Some(offset) ==> at == StartOffset::At(offset),
        found is None ==> at is End,
{
}

/// A start with the newest messages asks for the watermarks, and starts each partition so
/// that as many messages are read as were asked for, or all where there are fewer.
pub proof fn the_newest_messages_are_read(
    count: i64,
    partitions: &[i32],
    plan: AssignmentPlan,
    low: i64,
    high: i64,
    at: StartOffset,
)
    requires
        call_ensures(plan_assignment, (StartFrom::Newest(count), partitions), plan),
        count >= 0,
        low <= high,
        high - count >= i64::MIN,
        call_ensures(newest_start, (low, high, count), at),
    ensures
        plan == AssignmentPlan::NeedsWatermarks(count),
        at matches StartOffset::At(from) && low <= from <= high && (high - low >= count ==> high - from == count) && (
        high - low < count ==> from == low),
{
    the_newest_lie_between_the_watermarks(low as int, high as int, count as int);
}

/// A high watermark is remembered where the client knows one that is no placeholder.
pub proof fn known_watermarks_are_remembered(known: bool, high: i64, mark: Option<i64>)
    requires
        call_ensures(cached_high_watermark, (known, high), mark),
    ensures
        mark matches Some(n) ==> known && n == high && n >= 0,
        mark is None ==> !known || high < 0,
{
}

/// A session steps to its end only where it was asked to stop, where its listener is gone, or
/// where it has told why it failed; one whose listener took a batch, an end or an error polls
/// again, unless the end of a partition is still to be told.
pub proof fn a_step_ends_a_session_for_a_reason(session: &mut ConsumeLoop, event: LoopEvent, action: LoopAction)
    requires
        expected(old(session)@.phase, event@),
        call_ensures(ConsumeLoop::step, (session, event), action),
    ensures
        final(session)@.phase is Done <==> (action is Unassign || action is Finish),
        final(session)@.phase is Done <==> (event is StopRequested || event is Closed || old(session)@.phase is Failing),
        event is Sent && (old(session)@.phase == Phase::SendingBatch(None) || old(session)@.phase is SendingEof || old(session)@.phase is SendingError) ==> action is Poll && final(session)@.phase is Polling,
        old(session)@.phase matches Phase::SendingBatch(Some(partition)) ==> (event is Sent ==> (action
            matches LoopAction::Send(ConsumeEvent::Eof(told)) && told == partition)),
{
    sessions_end_for_a_reason(old(session)@, event@);
    assert(next_step(old(session)@, event@) == (final(session)@, action@));
    assert(action@ is Unassign <==> action is Unassign);
    assert(action@ is Finish <==> action is Finish);
    assert(event@ is StopRequested <==> event is StopRequested);
    assert(event@ is Closed <==> event is Closed);
    if event is Sent && (old(session)@.phase is SendingBatch || old(session)@.phase is SendingEof || old(session)@.phase is SendingError) {
        assert(event@ == LoopEventView::Sent);
        sessions_go_on_reading(old(session)@);
    }
}

/// A message that a session takes is handed over, or stays at hand: none is lost on a step.
pub proof fn a_step_loses_no_message(session: &mut ConsumeLoop, event: LoopEvent, action: LoopAction)
    requires
        session_ok(old(session)@),
        expected(old(session)@.phase, event@),
        call_ensures(ConsumeLoop::step, (session, event), action),
    ensures
        session_ok(final(session)@),
        old(session)@.batch.records + received(event@) == handed_over(action@) + final(session)@.batch.records,
{
    sessions_stay_ok(old(session)@, event@);
    no_message_is_lost(old(session)@, event@);
}

/// A batch counts the bytes of the keys and the values of its messages: of one message those
/// of its key and its value, and of two rows of messages those of both.
pub proof fn batch_bytes_add_up(first: Seq<MessageRecord>, second: Seq<MessageRecord>, record: MessageRecord)
    ensures
        batch_of(first + second).bytes == batch_of(first).bytes + batch_of(second).bytes,
        batch_of(seq![record]).bytes == (match record.key_bytes() {
            Some(key) => key.len() as int,
            None => 0,
        }) + (match record.value_bytes() {
            Some(value) => value.len() as int,
            None => 0,
        }),
    decreases second.len(),
{
    assert(seq![record].drop_last() =~= Seq::empty());
    assert(counted_in_all(seq![record].drop_last()) == 0);
    if second.len() == 0 {
        assert(first + second =~= first);
    } else {
        batch_bytes_add_up(first, second.drop_last(), record);
        assert((first + second).drop_last() =~= first + second.drop_last());
    }
}

/// A batch that takes a message has it at the end, behind the messages that it had; the
/// message's partition is then told to end there.
pub proof fn a_pushed_message_comes_last(batch: &mut Batch, record: MessageRecord)
    requires
        call_ensures(Batch::push, (batch, record), ()),
    ensures
        final(batch)@.records == old(batch)@.records.push(record),
        exists|i: int|
            0 <= i < final(batch)@.positions.len() && (#[trigger] final(batch)@.positions[i]).partition == record.partition
                && final(batch)@.positions[i].last == record.offset,
        final(batch)@.positions.len() >= old(batch)@.positions.len(),
{
    let before = old(batch)@.positions;
    position_from_finds(before, record.partition, 0);
    let i = position_from(before, record.partition, 0);
    assert(final(batch)@.positions[i].partition == record.partition);
}

/// The partitions whose watermarks are read are those of the batch, in its order.
pub proof fn watermarks_are_read_of_each_partition(batch: &Batch, list: Vec<i32>)
    requires
        call_ensures(Batch::partitions, (batch,), list),
    ensures
        list@.len() == batch@.positions.len(),
        forall|k: int| 0 <= k < list@.len() ==> #[trigger] list@[k] == batch@.positions[k].partition,
{
}

} // verus!
