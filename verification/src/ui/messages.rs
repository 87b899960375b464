//! The view of a topic's messages: where reading starts, what a session brings, and
//! what is said about it.

use std::sync::Arc;

use vstd::prelude::*;

use crate::kafka::consume::{ConsumeEvent, StartFrom};
use crate::kafka::metadata::TopicInfo;
use crate::model::message::{
    all_wf, hit_count, kept_within, share, the_newest_are_kept, total_size, what_fits_is_kept, MessageRecord,
};
use crate::model::settings::{default_settings, Settings};
use crate::text::{
    a_number_is_trimmed, decimal, decimal_is_read_back, decimal_text, ends_with, join_all, joined, joined3, joined_with,
    option_view, parse_i64, parsed_int, same_text, starts_with, trim, trimmed, views, views_grow,
};
use crate::ui::consumers::SEPARATOR;
use crate::ui::message_table::{first_columns, is_extreme, rows_built, MessageTableDelegate, MAX_BYTES, MAX_MESSAGES};

verus! {

/// How many of the newest messages of a partition are read.
pub const NEWEST_PER_PARTITION: i64 = 200;

/// The ways to start reading.
pub const START_MODES: [&'static str; 5] = ["Newest 200", "Latest", "Beginning", "Offset", "Timestamp"];

// ---- scrolling ----

/// How long the scroll wheel stays quiet behind a drag, in milliseconds.
pub const SCROLL_TAIL_MS: u64 = 250;

/// Holds the scroll wheel still while the mouse drags, and a moment longer.
#[derive(Debug, Clone, Copy, PartialEq, Eq, Structural)]
pub struct ScrollGuard {
    pub held: bool,
    pub quiet_until: Option<u64>,
}

impl ScrollGuard {
    pub fn new() -> (guard: Self)
        ensures
            guard == (ScrollGuard { held: false, quiet_until: None }),
    {
        ScrollGuard { held: false, quiet_until: None }
    }

    /// The button goes down.
    pub fn press(&mut self)
        ensures
            *final(self) == (ScrollGuard { held: true, quiet_until: None }),
    {
        self.quiet_until = None;
        self.held = true;
    }

    /// The button goes up, at a time in milliseconds. Whether a drag ended.
    pub fn release(&mut self, now: u64) -> (ended: bool)
        requires
            now <= u64::MAX - SCROLL_TAIL_MS,
        ensures
            ended == old(self).held,
            *final(self) == (if ended {
                ScrollGuard { held: false, quiet_until: Some((now + SCROLL_TAIL_MS) as u64) }
            } else {
                *old(self)
            }),
    {
        if !self.held {
            return false;
        }
        self.held = false;
        self.quiet_until = Some(now + SCROLL_TAIL_MS);
        true
    }

    /// Whether the wheel is held still at a time.
    pub fn holds(&self, now: u64) -> (still: bool)
        ensures
            still == (self.held || (self.quiet_until matches Some(end) && now < end)),
    {
        self.held || match self.quiet_until {
            Some(end) => now < end,
            None => false,
        }
    }
}

// ---- timestamps ----

/// A date and time without a zone, as seconds since 1970 and nanoseconds.
pub type CivilTime = (i64, u32);

/// What `chrono` reads in a string as a date with a time.
pub uninterp spec fn civil_time(value: Seq<char>, format: Seq<char>) -> Option<CivilTime>;

/// What `chrono` reads in a string as a date: its day, counted from the first of 1970.
pub uninterp spec fn civil_date(value: Seq<char>, format: Seq<char>) -> Option<i32>;

/// `chrono::NaiveDateTime::parse_from_str`: a function of the text and the format,
/// with the time as if it were in UTC. Which texts fit is not stated.
#[verifier::external_body]
fn read_time(value: &str, format: &str) -> (time: Option<CivilTime>)
    ensures
        time == civil_time(value@, format@),
{
    let utc = chrono::NaiveDateTime::parse_from_str(value, format).ok()?.and_utc();
    Some((utc.timestamp(), utc.timestamp_subsec_nanos()))
}

/// `chrono::NaiveDate::parse_from_str`: a function of the text and the format, with the
/// day that `chrono::NaiveDate::to_epoch_days` counts. Which texts fit is not stated.
#[verifier::external_body]
fn read_date(value: &str, format: &str) -> (day: Option<i32>)
    ensures
        day == civil_date(value@, format@),
{
    Some(chrono::NaiveDate::parse_from_str(value, format).ok()?.to_epoch_days())
}

/// The start of a day.
pub open spec fn midnight_of(day: Option<i32>) -> Option<CivilTime> {
    match day {
        Some(n) => Some(((n * 86_400) as i64, 0)),
        None => None,
    }
}

/// The start of a day, counted from the first of 1970.
pub fn midnight(day: i32) -> (time: CivilTime)
    ensures
        Some(time) == midnight_of(Some(day)),
{
    (day as i64 * 86_400, 0)
}

/// Whether a time in milliseconds is that of a civil time in some zone. A zone differs
/// from UTC by whole seconds, and by less than a day.
pub open spec fn in_some_zone(ms: int, time: CivilTime) -> bool {
    let utc = time.0 * 1000 + time.1 / 1_000_000;
    utc - 86_400_000 < ms < utc + 86_400_000 && (utc - ms) % 1000 == 0
}

/// When a civil time is in a zone: never, where clocks skip it; at one moment; or at two,
/// where clocks are set back over it. Moments are in milliseconds.
#[derive(Debug, Clone, Copy, PartialEq, Eq, Structural)]
pub enum LocalMoment {
    Missing,
    One(i64),
    Two(i64, i64),
}

/// Whether all moments are those of a civil time in some zone.
pub open spec fn moments_in_some_zone(found: LocalMoment, time: CivilTime) -> bool {
    match found {
        LocalMoment::Missing => true,
        LocalMoment::One(ms) => in_some_zone(ms as int, time),
        LocalMoment::Two(a, b) => in_some_zone(a as int, time) && in_some_zone(b as int, time),
    }
}

/// `chrono::NaiveDateTime::and_local_timezone` in the `Local` zone: the moments of a civil
/// time there; a time that chrono's calendar does not hold has none. Zones differ from UTC
/// by whole seconds, and by less than a day; which zone it is, and so how many moments
/// there are, depends on the machine and is not stated.
#[verifier::external_body]
fn local_moment(time: CivilTime) -> (found: LocalMoment)
    ensures
        moments_in_some_zone(found, time),
{
    let utc = chrono::DateTime::from_timestamp(time.0, time.1);
    match utc.map(|utc| utc.naive_utc().and_local_timezone(chrono::Local)) {
        Some(chrono::MappedLocalTime::Single(at)) => LocalMoment::One(at.timestamp_millis()),
        Some(chrono::MappedLocalTime::Ambiguous(a, b)) => LocalMoment::Two(a.timestamp_millis(), b.timestamp_millis()),
        Some(chrono::MappedLocalTime::None) | None => LocalMoment::Missing,
    }
}

/// The civil times that a text can mean, in the order in which they are tried.
pub open spec fn readings(value: Seq<char>) -> Seq<Option<CivilTime>> {
    seq![
        civil_time(value, "%Y-%m-%d %H:%M:%S"@),
        civil_time(value, "%Y-%m-%dT%H:%M:%S"@),
        civil_time(value, "%Y-%m-%d %H:%M"@),
        midnight_of(civil_date(value, "%Y-%m-%d"@)),
    ]
}

/// The civil times that a text can mean, in the order in which they are tried: a date with
/// a time, in one of three forms, or a date alone, which means its start.
pub fn civil_readings(value: &str) -> (found: Vec<Option<CivilTime>>)
    ensures
        found@ == readings(value@),
{
    let mut found: Vec<Option<CivilTime>> = Vec::new();
    found.push(read_time(value, "%Y-%m-%d %H:%M:%S"));
    found.push(read_time(value, "%Y-%m-%dT%H:%M:%S"));
    found.push(read_time(value, "%Y-%m-%d %H:%M"));
    found.push(
        match read_date(value, "%Y-%m-%d") {
            Some(day) => Some(midnight(day)),
            None => None,
        },
    );
    assert(found@ =~= readings(value@));
    found
}

/// The first single moment, from a place on. A civil time that is skipped or doubled in the
/// zone is passed over.
pub open spec fn first_single(moments: Seq<LocalMoment>, i: int) -> Option<i64>
    decreases moments.len() - i,
{
    if i >= moments.len() {
        None
    } else {
        match moments[i] {
            LocalMoment::One(ms) => Some(ms),
            _ => first_single(moments, i + 1),
        }
    }
}

proof fn the_first_single_is_one_of_them(moments: Seq<LocalMoment>, i: int)
    requires
        0 <= i,
    ensures
        first_single(moments, i) matches Some(ms) ==> exists|k: int|
            i <= k < moments.len() && #[trigger] moments[k] == LocalMoment::One(ms),
    decreases moments.len() - i,
{
    if i < moments.len() && moments[i] !is One {
        the_first_single_is_one_of_them(moments, i + 1);
    }
}

/// The moment that a timestamp means, out of the moments of its readings, in the order in
/// which these are tried: the first that is a single one.
pub fn chosen_moment(moments: &Vec<LocalMoment>) -> (moment: Result<i64, String>)
    ensures
        match moment {
            Ok(ms) => first_single(moments@, 0) == Some(ms),
            Err(message) => first_single(moments@, 0) is None && message@
                == "Timestamp must be unix milliseconds or YYYY-MM-DD HH:MM:SS"@,
        },
{
    let mut i: usize = 0;
    while i < moments.len()
        invariant
            i <= moments@.len(),
            first_single(moments@, 0) == first_single(moments@, i as int),
        decreases moments.len() - i,
    {
        match moments[i] {
            LocalMoment::One(ms) => {
                return Ok(ms);
            },
            _ => {},
        }
        i = i + 1;
    }
    Err("Timestamp must be unix milliseconds or YYYY-MM-DD HH:MM:SS".to_owned())
}

/// Whether moments can be those of a reading in the zone of a machine: a time that was not
/// read has none.
pub open spec fn can_be_of(found: LocalMoment, reading: Option<CivilTime>) -> bool {
    match reading {
        Some(time) => moments_in_some_zone(found, time),
        None => found == LocalMoment::Missing,
    }
}

/// The moments of a civil time in the zone of the machine. A time that was not read has
/// none.
fn moment_of(reading: Option<CivilTime>) -> (found: LocalMoment)
    ensures
        can_be_of(found, reading),
{
    match reading {
        Some(time) => local_moment(time),
        None => LocalMoment::Missing,
    }
}

/// The moments of readings in the zone of the machine, one behind the other.
pub open spec fn can_be_of_all(moments: Seq<LocalMoment>, found: Seq<Option<CivilTime>>) -> bool {
    &&& moments.len() == found.len()
    &&& forall|k: int| 0 <= k < moments.len() ==> can_be_of(#[trigger] moments[k], found[k])
}

/// Whether a text that is no number is read as a timestamp by a machine: its four readings
/// have moments in the machine's zone, and the first single one counts.
pub open spec fn is_read_by_the_zone(value: Seq<char>, ms: Result<i64, String>) -> bool {
    exists|moments: Seq<LocalMoment>| #[trigger]
        can_be_of_all(moments, readings(value)) && match ms {
            Ok(v) => first_single(moments, 0) == Some(v),
            Err(message) => first_single(moments, 0) is None && message@
                == "Timestamp must be unix milliseconds or YYYY-MM-DD HH:MM:SS"@,
        }
}

/// What is read by a zone lies less than a day from one of the readings.
pub proof fn a_read_moment_is_near_a_reading(value: Seq<char>, ms: i64)
    requires
        is_read_by_the_zone(value, Ok(ms)),
    ensures
        exists|i: int|
            0 <= i < 4 && #[trigger] readings(value)[i] is Some && in_some_zone(ms as int, readings(value)[i]->0),
{
    let moments = choose|moments: Seq<LocalMoment>| #[trigger]
        can_be_of_all(moments, readings(value)) && first_single(moments, 0) == Some(ms);
    the_first_single_is_one_of_them(moments, 0);
    let k = choose|k: int| 0 <= k < moments.len() && #[trigger] moments[k] == LocalMoment::One(ms);
    assert(can_be_of(moments[k], readings(value)[k]));
}

/// Reads a timestamp: a number of milliseconds, or a date with or without a time in the
/// zone of the machine.
pub fn parse_timestamp(value: &str) -> (ms: Result<i64, String>)
    ensures
        value@.len() == 0 ==> (ms matches Err(message) && message@
            == "Enter a timestamp as unix milliseconds or YYYY-MM-DD HH:MM:SS"@),
        parsed_int(value@, i64::MIN as int, i64::MAX as int) matches Some(n) ==> (ms matches Ok(v) && v == n),
        value@.len() > 0 && parsed_int(value@, i64::MIN as int, i64::MAX as int) is None ==> is_read_by_the_zone(
            value@,
            ms,
        ),
{
    if value.is_empty() {
        assert(parsed_int(value@, i64::MIN as int, i64::MAX as int) is None);
        return Err("Enter a timestamp as unix milliseconds or YYYY-MM-DD HH:MM:SS".to_owned());
    }
    match parse_i64(value) {
        Some(ms) => {
            return Ok(ms);
        },
        None => {},
    }
    let found = civil_readings(value);
    let mut moments: Vec<LocalMoment> = Vec::new();
    let mut i: usize = 0;
    while i < found.len()
        invariant
            i <= found@.len(),
            moments@.len() == i,
            forall|k: int| 0 <= k < i ==> can_be_of(#[trigger] moments@[k], found@[k]),
        decreases found.len() - i,
    {
        moments.push(moment_of(found[i]));
        i = i + 1;
    }
    assert(can_be_of_all(moments@, readings(value@)));
    chosen_moment(&moments)
}

// ---- where reading starts ----

/// Whether a start, or what is said where there is none, is what a mode and the text that
/// goes with it stand for. The moment that a date stands for depends on the machine's
/// zone.
pub open spec fn stands_for(mode: usize, text: Seq<char>, start: Result<StartFrom, String>) -> bool {
    match mode {
        0 => start == Ok::<StartFrom, String>(StartFrom::Newest(NEWEST_PER_PARTITION)),
        1 => start == Ok::<StartFrom, String>(StartFrom::Latest),
        2 => start == Ok::<StartFrom, String>(StartFrom::Beginning),
        3 => match parsed_int(trim(text), i64::MIN as int, i64::MAX as int) {
            Some(n) => start == Ok::<StartFrom, String>(StartFrom::Offset(n as i64)),
            None => start matches Err(message) && message@ == "Enter a numeric offset"@,
        },
        _ => match parsed_int(trim(text), i64::MIN as int, i64::MAX as int) {
            Some(n) => start == Ok::<StartFrom, String>(StartFrom::Timestamp(n as i64)),
            None => match start {
                Ok(from) => from matches StartFrom::Timestamp(ms) && is_read_by_the_zone(trim(text), Ok(ms)),
                Err(message) => if trim(text).len() == 0 {
                    message@ == "Enter a timestamp as unix milliseconds or YYYY-MM-DD HH:MM:SS"@
                } else {
                    is_read_by_the_zone(trim(text), Err(message))
                },
            },
        },
    }
}

/// Where reading starts, from the mode and the text that goes with it.
pub fn parse_start(mode: usize, text: &str) -> (start: Result<StartFrom, String>)
    ensures
        stands_for(mode, text@, start),
{
    if mode == 0 {
        return Ok(StartFrom::Newest(NEWEST_PER_PARTITION));
    }
    if mode == 1 {
        return Ok(StartFrom::Latest);
    }
    if mode == 2 {
        return Ok(StartFrom::Beginning);
    }
    let value = trimmed(text);
    if mode == 3 {
        match parse_i64(&value) {
            Some(n) => Ok(StartFrom::Offset(n)),
            None => Err("Enter a numeric offset".to_owned()),
        }
    } else {
        match parse_timestamp(&value) {
            Ok(ms) => Ok(StartFrom::Timestamp(ms)),
            Err(message) => Err(message),
        }
    }
}

/// The items of a choice of partitions: one for all, and one for each.
pub open spec fn partition_items(all: Seq<char>, topic: Option<Arc<TopicInfo>>) -> Seq<Seq<char>> {
    seq![all] + match topic {
        Some(t) => t.partitions@.map_values(
            |p: crate::kafka::metadata::PartitionInfo| "Partition "@ + decimal(p.id as int),
        ),
        None => Seq::empty(),
    }
}

/// The items of a choice of partitions.
pub fn partition_labels(all: &str, topic: &Option<Arc<TopicInfo>>) -> (items: Vec<String>)
    ensures
        views(items@) == partition_items(all@, *topic),
{
    let ghost wanted = partition_items(all@, *topic);
    let mut items: Vec<String> = Vec::new();
    items.push(all.to_owned());
    assert(views(items@) =~= seq![all@]);
    match topic {
        Some(t) => {
            let mut i: usize = 0;
            assert(wanted.take(1) =~= seq![all@]);
            while i < t.partitions.len()
                invariant
                    i <= t.partitions@.len(),
                    *topic == Some(*t),
                    wanted == partition_items(all@, *topic),
                    views(items@) == wanted.take(i + 1),
                decreases t.partitions.len() - i,
            {
                let ghost before = items@;
                let label = joined("Partition ", &decimal_text(t.partitions[i].id as i128));
                proof {
                    views_grow(before, label);
                    assert(wanted[i + 1] == label@);
                    assert(wanted.take(i + 2) =~= wanted.take(i + 1).push(wanted[i + 1]));
                }
                items.push(label);
                i = i + 1;
            }
            assert(wanted.take(i + 1) =~= wanted);
        },
        None => {
            assert(seq![all@] + Seq::<Seq<char>>::empty() =~= seq![all@]);
        },
    }
    items
}

/// The partitions that an item of the choice stands for: none for all.
pub open spec fn chosen_partitions(topic: Option<Arc<TopicInfo>>, item: int) -> Seq<i32> {
    match topic {
        Some(t) => if 1 <= item <= t.partitions@.len() {
            seq![t.partitions@[item - 1].id]
        } else {
            Seq::empty()
        },
        None => Seq::empty(),
    }
}

/// The partitions that an item of the choice stands for.
pub fn selected_partitions(topic: &Option<Arc<TopicInfo>>, item: usize) -> (partitions: Vec<i32>)
    ensures
        partitions@ == chosen_partitions(*topic, item as int),
{
    let mut partitions: Vec<i32> = Vec::new();
    match topic {
        Some(t) => {
            if item >= 1 && item <= t.partitions.len() {
                partitions.push(t.partitions[item - 1].id);
            }
        },
        None => {},
    }
    assert(partitions@ =~= chosen_partitions(*topic, item as int));
    partitions
}

// ---- the view ----

/// The messages of a topic, and the session that reads them.
pub struct MessagesView {
    /// The connection that messages come from, by a number that no other has.
    pub worker: Option<u64>,
    pub topic: Option<Arc<TopicInfo>>,
    pub table: MessageTableDelegate,
    pub settings: Settings,
    pub memory_limit: usize,
    pub open_newest_pending: bool,
    pub dev_jump_done: bool,
    pub generation: u64,
    pub placeholder_mode: usize,
    /// Whether a session was started and not stopped.
    pub session: bool,
    pub running: bool,
    pub assigned: Vec<i32>,
    /// The partitions that are read to the end, each once.
    pub eof: Vec<i32>,
    pub last_error: Option<String>,
}

/// The view as values. The table stays as it is.
pub struct MessagesState {
    pub worker: Option<u64>,
    pub topic: Option<Arc<TopicInfo>>,
    pub table: MessageTableDelegate,
    pub settings: Settings,
    pub memory_limit: usize,
    pub open_newest_pending: bool,
    pub dev_jump_done: bool,
    pub generation: u64,
    pub placeholder_mode: usize,
    pub session: bool,
    pub running: bool,
    pub assigned: Seq<i32>,
    pub eof: Seq<i32>,
    pub last_error: Option<Seq<char>>,
}

impl View for MessagesView {
    type V = MessagesState;

    open spec fn view(&self) -> MessagesState {
        MessagesState {
            worker: self.worker,
            topic: self.topic,
            table: self.table,
            settings: self.settings,
            memory_limit: self.memory_limit,
            open_newest_pending: self.open_newest_pending,
            dev_jump_done: self.dev_jump_done,
            generation: self.generation,
            placeholder_mode: self.placeholder_mode,
            session: self.session,
            running: self.running,
            assigned: self.assigned@,
            eof: self.eof@,
            last_error: option_view(self.last_error),
        }
    }
}

/// What follows from an event of a session.
#[derive(Debug, Clone, Copy, PartialEq, Eq, Structural)]
pub struct FollowUp {
    /// All partitions are at their end for the first time.
    pub first_catch_up: bool,
    /// The newest message is to be opened.
    pub open_newest: bool,
}

/// The partitions at their end, with one more.
pub open spec fn with_end(eof: Seq<i32>, partition: i32) -> Seq<i32> {
    if eof.contains(partition) {
        eof
    } else {
        eof.push(partition)
    }
}

/// Whether all partitions are read to the end.
pub open spec fn caught_up(state: MessagesState) -> bool {
    state.assigned.len() > 0 && state.eof.len() >= state.assigned.len()
}

/// The view when a partition is at its end.
pub open spec fn at_end(state: MessagesState, partition: i32) -> (MessagesState, FollowUp) {
    let ended = MessagesState { eof: with_end(state.eof, partition), ..state };
    let first = caught_up(ended) && !state.dev_jump_done;
    let open = caught_up(ended) && state.open_newest_pending;
    (
        MessagesState {
            dev_jump_done: state.dev_jump_done || caught_up(ended),
            open_newest_pending: state.open_newest_pending && !caught_up(ended),
            ..ended
        },
        FollowUp { first_catch_up: first, open_newest: open },
    )
}

/// Whether two views of a topic are of the same one: the same name on the same
/// connection, or none at all.
pub open spec fn stays_on_topic(state: MessagesState, worker: Option<u64>, topic: Option<Arc<TopicInfo>>) -> bool {
    match (state.topic, topic) {
        (Some(a), Some(b)) => a.name@ == b.name@ && state.worker == worker,
        (None, None) => true,
        _ => false,
    }
}

pub open spec fn at_least_one(n: int) -> int {
    if n >= 1 {
        n
    } else {
        1
    }
}

/// Whether a table is another one with nothing but its limits changed, and what no
/// longer fits gone.
pub open spec fn with_limits(
    table: MessageTableDelegate,
    before: MessageTableDelegate,
    max_messages: int,
    max_bytes: int,
) -> bool {
    &&& table.wf()
    &&& table.store.message_limit() == at_least_one(max_messages)
    &&& table.store.byte_limit() == at_least_one(max_bytes)
    &&& table.records() == kept_within(before.records(), at_least_one(max_messages), at_least_one(max_bytes))
    &&& table.store.query() == before.store.query()
    &&& table.store.received() == before.store.received()
    &&& table.rows_dirty
    &&& table.rows == before.rows
    &&& table.columns == before.columns
    &&& table.sort == before.sort
}

/// What has to be read for a session. Its events come back under its number.
pub struct ConsumeOrder {
    pub worker: u64,
    pub generation: u64,
    pub topic: Arc<TopicInfo>,
    pub start: StartFrom,
    /// The partitions to read; none for all.
    pub partitions: Vec<i32>,
}

/// Whether a view is another one in which a session began, where there is a connection
/// and a topic, and an order is what has to be read for it.
pub open spec fn begun(
    before: MessagesState,
    after: MessagesState,
    start: StartFrom,
    partitions: Seq<i32>,
    order: Option<ConsumeOrder>,
) -> bool {
    match order {
        Some(o) => {
            &&& before.worker == Some(o.worker)
            &&& before.topic == Some(o.topic)
            &&& o.generation == before.generation + 1
            &&& o.start == start
            &&& o.partitions@ == partitions
            &&& after == (MessagesState {
                generation: o.generation,
                session: true,
                running: true,
                assigned: Seq::empty(),
                eof: Seq::empty(),
                last_error: None,
                open_newest_pending: before.settings.open_newest_message,
                ..before
            })
        },
        None => (before.worker is None || before.topic is None) && after == before,
    }
}

/// Whether a table is another one without its messages.
pub open spec fn emptied(table: MessageTableDelegate, before: MessageTableDelegate) -> bool {
    &&& table.wf()
    &&& table.records() == Seq::<MessageRecord>::empty()
    &&& table.store.received() == before.store.received()
    &&& table.store.same_but_messages(&before.store)
    &&& table.rows@.len() == 0
    &&& table.rows_dirty
    &&& table.columns == before.columns
    &&& table.sort == before.sort
}

impl MessagesView {
    pub open spec fn wf(&self) -> bool {
        &&& self.table.wf()
        &&& self.eof@.no_duplicates()
    }

    pub fn new() -> (view: Self)
        ensures
            view.wf(),
            view@ == (MessagesState {
                worker: None,
                topic: None,
                table: view.table,
                settings: default_settings(),
                memory_limit: MAX_BYTES,
                open_newest_pending: false,
                dev_jump_done: false,
                generation: 0,
                placeholder_mode: 0,
                session: false,
                running: false,
                assigned: Seq::empty(),
                eof: Seq::empty(),
                last_error: None,
            }),
            view.table.records() == Seq::<MessageRecord>::empty(),
            view.table.store.query() is None,
            view.table.store.message_limit() == MAX_MESSAGES,
            view.table.store.byte_limit() == MAX_BYTES,
            view.table.store.received() == 0,
            view.table.columns@ == first_columns(),
            view.table.sort is None,
            view.table.rows@.len() == 0,
            view.table.rows_dirty,
    {
        let view = MessagesView {
            worker: None,
            topic: None,
            table: MessageTableDelegate::new(),
            settings: Settings::default(),
            memory_limit: MAX_BYTES,
            open_newest_pending: false,
            dev_jump_done: false,
            generation: 0,
            placeholder_mode: 0,
            session: false,
            running: false,
            assigned: Vec::new(),
            eof: Vec::new(),
            last_error: None,
        };
        assert(view@.assigned =~= Seq::empty());
        assert(view@.eof =~= Seq::empty());
        view
    }

    /// Takes new settings. The limits count at once.
    pub fn apply_settings(&mut self, settings: &Settings)
        requires
            old(self).wf(),
        ensures
            final(self).wf(),
            final(self)@ == (MessagesState { settings: *settings, table: final(self).table, ..old(self)@ }),
            with_limits(
                final(self).table,
                old(self).table,
                settings.max_messages as int,
                old(self)@.memory_limit as int,
            ),
    {
        self.settings = *settings;
        self.table.store.set_limits(settings.max_messages, self.memory_limit);
        self.table.mark_dirty();
    }

    /// Takes a new share of the memory.
    pub fn set_memory_limit(&mut self, bytes: usize)
        requires
            old(self).wf(),
        ensures
            final(self).wf(),
            final(self)@ == (MessagesState { memory_limit: bytes, table: final(self).table, ..old(self)@ }),
            if old(self)@.memory_limit == bytes {
                final(self).table == old(self).table
            } else {
                with_limits(
                    final(self).table,
                    old(self).table,
                    old(self)@.settings.max_messages as int,
                    bytes as int,
                )
            },
    {
        if self.memory_limit == bytes {
            return;
        }
        self.memory_limit = bytes;
        self.table.store.set_limits(self.settings.max_messages, bytes);
        self.table.mark_dirty();
    }

    /// Where reading starts when a topic is opened.
    pub fn default_start(&self) -> (start: StartFrom)
        ensures
            start == StartFrom::Newest(at_least_one(self@.settings.newest_per_partition as int) as i64),
    {
        let newest: i64 = self.settings.newest_per_partition;
        StartFrom::Newest(if newest >= 1 { newest } else { 1 })
    }

    /// The first row that the table shows, whatever the sort order is.
    pub fn go_to_top(&mut self) -> (row: Option<usize>)
        requires
            old(self).wf(),
        ensures
            final(self).wf(),
            final(self)@ == (MessagesState { table: final(self).table, ..old(self)@ }),
            rows_built(final(self).table, old(self).table),
            row == (if final(self).table.rows@.len() > 0 { Some(0usize) } else { None }),
    {
        self.table.ensure_rows();
        if self.table.visible_rows() > 0 {
            Some(0)
        } else {
            None
        }
    }

    /// The last row that the table shows, whatever the sort order is.
    pub fn go_to_bottom(&mut self) -> (row: Option<usize>)
        requires
            old(self).wf(),
        ensures
            final(self).wf(),
            final(self)@ == (MessagesState { table: final(self).table, ..old(self)@ }),
            rows_built(final(self).table, old(self).table),
            match row {
                Some(r) => r == final(self).table.rows@.len() - 1,
                None => final(self).table.rows@.len() == 0,
            },
    {
        self.table.ensure_rows();
        let n: usize = self.table.visible_rows();
        if n > 0 {
            Some(n - 1)
        } else {
            None
        }
    }

    /// The row with the newest message that the table shows.
    pub fn open_newest(&mut self) -> (row: Option<usize>)
        requires
            old(self).wf(),
        ensures
            final(self).wf(),
            final(self)@ == (MessagesState { table: final(self).table, ..old(self)@ }),
            rows_built(final(self).table, old(self).table),
            match row {
                Some(best) => is_extreme(final(self).table, best as int, true),
                None => forall|r: int| !#[trigger] final(self).table.shows_at(r),
            },
    {
        self.table.ensure_rows();
        self.table.extreme_row(true)
    }

    /// Searches for a query.
    pub fn set_search(&mut self, query: &str)
        requires
            old(self).wf(),
        ensures
            final(self).wf(),
            final(self)@ == (MessagesState { table: final(self).table, ..old(self)@ }),
            final(self).table.store.query() == (if query@.len() == 0 {
                None
            } else {
                Some(crate::model::search::lowered(vstd::utf8::encode_utf8(query@)))
            }),
            final(self).table.records() == old(self).table.records(),
            final(self).table.store.received() == old(self).table.store.received(),
            final(self).table.store.message_limit() == old(self).table.store.message_limit(),
            final(self).table.store.byte_limit() == old(self).table.store.byte_limit(),
            final(self).table.rows_dirty,
            final(self).table.rows == old(self).table.rows,
            final(self).table.columns == old(self).table.columns,
            final(self).table.sort == old(self).table.sort,
    {
        self.table.set_query(query);
    }

    /// Shows a topic. Another topic, or another connection, starts afresh: the session
    /// is stopped and the messages go. Whether it is another one.
    pub fn set_topic(&mut self, worker: Option<u64>, topic: Option<Arc<TopicInfo>>) -> (changed: bool)
        requires
            old(self).wf(),
        ensures
            final(self).wf(),
            changed == !stays_on_topic(old(self)@, worker, topic),
            if changed {
                &&& emptied(final(self).table, old(self).table)
                &&& final(self)@ == (MessagesState {
                    worker,
                    topic,
                    table: final(self).table,
                    session: false,
                    running: false,
                    eof: Seq::empty(),
                    last_error: None,
                    ..old(self)@
                })
            } else {
                final(self)@ == (MessagesState { worker, topic, ..old(self)@ })
            },
    {
        let same: bool = match (&self.topic, &topic) {
            (Some(a), Some(b)) => same_text(&a.name, &b.name) && match (self.worker, worker) {
                (Some(x), Some(y)) => x == y,
                (None, None) => true,
                _ => false,
            },
            (None, None) => true,
            _ => false,
        };
        if same {
            self.worker = worker;
            self.topic = topic;
            return false;
        }
        self.stop();
        self.clear();
        self.worker = worker;
        self.topic = topic;
        true
    }

    /// Begins a session, where there is a connection and a topic: what has to be read.
    pub fn start_with(&mut self, start: StartFrom, partitions: Vec<i32>) -> (order: Option<ConsumeOrder>)
        requires
            old(self).wf(),
            old(self)@.generation < u64::MAX,
        ensures
            final(self).wf(),
            begun(old(self)@, final(self)@, start, partitions@, order),
    {
        let (worker, topic): (u64, Arc<TopicInfo>) = match (self.worker, &self.topic) {
            (Some(w), Some(t)) => (w, share(t)),
            _ => {
                return None;
            },
        };
        self.generation = self.generation + 1;
        self.session = true;
        self.running = true;
        self.assigned = Vec::new();
        self.eof = Vec::new();
        self.last_error = None;
        self.open_newest_pending = self.settings.open_newest_message;
        assert(self@.assigned =~= Seq::empty());
        assert(self@.eof =~= Seq::empty());
        Some(ConsumeOrder { worker, generation: self.generation, topic, start, partitions })
    }

    /// Begins a session with the newest messages of all partitions.
    pub fn start_default(&mut self) -> (order: Option<ConsumeOrder>)
        requires
            old(self).wf(),
            old(self)@.generation < u64::MAX,
        ensures
            final(self).wf(),
            begun(
                old(self)@,
                final(self)@,
                StartFrom::Newest(at_least_one(old(self)@.settings.newest_per_partition as int) as i64),
                Seq::empty(),
                order,
            ),
    {
        let partitions: Vec<i32> = Vec::new();
        assert(partitions@ =~= Seq::empty());
        let start = self.default_start();
        self.start_with(start, partitions)
    }

    /// Begins a session as the controls say: from the mode and its text, with the
    /// partitions that the chosen item stands for. What is said where the text means
    /// nothing.
    pub fn start(&mut self, mode: usize, text: &str, item: usize) -> (begun: Result<Option<ConsumeOrder>, String>)
        requires
            old(self).wf(),
            old(self)@.generation < u64::MAX,
        ensures
            final(self).wf(),
            old(self)@.worker is None || old(self)@.topic is None ==> begun == Ok::<_, String>(None::<ConsumeOrder>)
                && final(self)@ == old(self)@,
            old(self)@.worker is Some && old(self)@.topic is Some ==> match begun {
                Ok(order) => order matches Some(o) && stands_for(mode, text@, Ok(o.start)) && self::begun(
                    old(self)@,
                    final(self)@,
                    o.start,
                    chosen_partitions(old(self)@.topic, item as int),
                    order,
                ),
                Err(message) => stands_for(mode, text@, Err(message)) && final(self)@ == old(self)@,
            },
    {
        if self.worker.is_none() || self.topic.is_none() {
            return Ok(None);
        }
        let start: StartFrom = match parse_start(mode, text) {
            Ok(s) => s,
            Err(message) => {
                return Err(message);
            },
        };
        let partitions = selected_partitions(&self.topic, item);
        Ok(self.start_with(start, partitions))
    }

    /// Stops the session. Whether there was one.
    pub fn stop(&mut self) -> (stopped: bool)
        requires
            old(self).wf(),
        ensures
            final(self).wf(),
            stopped == old(self)@.session,
            final(self)@ == (MessagesState { session: false, running: false, ..old(self)@ }),
    {
        let stopped: bool = self.session;
        self.session = false;
        self.running = false;
        stopped
    }

    /// Lets all messages go.
    pub fn clear(&mut self)
        requires
            old(self).wf(),
        ensures
            final(self).wf(),
            emptied(final(self).table, old(self).table),
            final(self)@ == (MessagesState {
                table: final(self).table,
                eof: Seq::empty(),
                last_error: None,
                ..old(self)@
            }),
    {
        self.table.clear();
        self.eof = Vec::new();
        self.last_error = None;
        assert(self@.eof =~= Seq::empty());
    }

    /// Takes an event of a session. Events of an earlier session count no more.
    pub fn on_event(&mut self, generation: u64, event: ConsumeEvent) -> (follow_up: FollowUp)
        requires
            old(self).wf(),
            event matches ConsumeEvent::Batch(batch) ==> all_wf(batch.records@) && total_size(
                old(self).table.records() + batch.records@,
            ) <= usize::MAX && old(self).table.store.received() + batch.records@.len() <= u64::MAX,
        ensures
            final(self).wf(),
            if generation != old(self)@.generation {
                final(self)@ == old(self)@ && follow_up == (FollowUp { first_catch_up: false, open_newest: false })
            } else {
                match event {
                    ConsumeEvent::Assigned(partitions) => {
                        &&& final(self)@ == (MessagesState { assigned: partitions@, ..old(self)@ })
                        &&& follow_up == (FollowUp { first_catch_up: false, open_newest: false })
                    },
                    ConsumeEvent::Batch(batch) => {
                        &&& final(self)@ == (MessagesState { table: final(self).table, ..old(self)@ })
                        &&& final(self).table.records() == kept_within(
                            old(self).table.records() + batch.records@,
                            old(self).table.store.message_limit(),
                            old(self).table.store.byte_limit(),
                        )
                        &&& final(self).table.store.received() == old(self).table.store.received()
                            + batch.records@.len()
                        &&& final(self).table.store.same_but_messages(&old(self).table.store)
                        &&& final(self).table.rows_dirty
                        &&& final(self).table.rows == old(self).table.rows
                        &&& final(self).table.columns == old(self).table.columns
                        &&& final(self).table.sort == old(self).table.sort
                        &&& follow_up == (FollowUp { first_catch_up: false, open_newest: false })
                    },
                    ConsumeEvent::Eof(partition) => (final(self)@, follow_up) == at_end(old(self)@, partition),
                    ConsumeEvent::Error(message) => {
                        &&& final(self)@ == (MessagesState { last_error: Some(message@), ..old(self)@ })
                        &&& follow_up == (FollowUp { first_catch_up: false, open_newest: false })
                    },
                }
            },
    {
        let nothing = FollowUp { first_catch_up: false, open_newest: false };
        if generation != self.generation {
            return nothing;
        }
        match event {
            ConsumeEvent::Assigned(partitions) => {
                self.assigned = partitions;
                nothing
            },
            ConsumeEvent::Batch(batch) => {
                self.table.push_batch(batch.records);
                nothing
            },
            ConsumeEvent::Eof(partition) => self.on_eof(partition),
            ConsumeEvent::Error(message) => {
                self.last_error = Some(message);
                nothing
            },
        }
    }

    fn on_eof(&mut self, partition: i32) -> (follow_up: FollowUp)
        requires
            old(self).wf(),
        ensures
            final(self).wf(),
            (final(self)@, follow_up) == at_end(old(self)@, partition),
    {
        let mut i: usize = 0;
        while i < self.eof.len() && self.eof[i] != partition
            invariant
                i <= self.eof@.len(),
                forall|k: int| 0 <= k < i ==> self.eof@[k] != partition,
            decreases self.eof.len() - i,
        {
            i = i + 1;
        }
        if i == self.eof.len() {
            assert(!self.eof@.contains(partition));
            self.eof.push(partition);
        } else {
            assert(self.eof@[i as int] == partition);
        }
        assert(self.eof@ =~= with_end(old(self).eof@, partition));
        let all: bool = self.assigned.len() > 0 && self.eof.len() >= self.assigned.len();
        let follow_up = FollowUp {
            first_catch_up: all && !self.dev_jump_done,
            open_newest: all && self.open_newest_pending,
        };
        if all {
            self.dev_jump_done = true;
            self.open_newest_pending = false;
        }
        follow_up
    }

    /// Takes the end of a session.
    pub fn on_closed(&mut self, generation: u64)
        requires
            old(self).wf(),
        ensures
            final(self).wf(),
            final(self)@ == (if generation == old(self)@.generation {
                MessagesState { running: false, ..old(self)@ }
            } else {
                old(self)@
            }),
    {
        if self.generation == generation {
            self.running = false;
        }
    }

    /// The hint in the field of the start, where the mode needs the field and the hint
    /// is a new one.
    pub fn placeholder(&mut self, mode: usize) -> (hint: Option<&'static str>)
        ensures
            match hint {
                Some(text) => {
                    &&& mode >= 3 && old(self)@.placeholder_mode != mode
                    &&& text@ == if mode == 3 {
                        "offset"@
                    } else {
                        "unix ms or YYYY-MM-DD HH:MM:SS"@
                    }
                    &&& final(self)@ == (MessagesState { placeholder_mode: mode, ..old(self)@ })
                },
                None => !(mode >= 3 && old(self)@.placeholder_mode != mode) && final(self)@ == old(self)@,
            },
            final(self).wf() == old(self).wf(),
    {
        if mode >= 3 && self.placeholder_mode != mode {
            self.placeholder_mode = mode;
            Some(if mode == 3 { "offset" } else { "unix ms or YYYY-MM-DD HH:MM:SS" })
        } else {
            None
        }
    }

    /// What is going on, in one line. The memory comes as text.
    pub fn status_text(&self, memory: &str) -> (text: String)
        requires
            self.wf(),
        ensures
            text@ == joined_with(status_parts(self@, memory@), SEPARATOR@),
    {
        let mut parts: Vec<String> = Vec::new();
        let shown: usize = self.table.store.len();
        if self.table.store.has_query() {
            parts.push(
                joined3(
                    &decimal_text(self.table.store.matched_len() as i128),
                    " of ",
                    &joined(&decimal_text(shown as i128), " shown"),
                ),
            );
        } else {
            parts.push(joined(&decimal_text(shown as i128), " shown"));
        }
        let ghost first = views(parts@);
        assert(first =~= seq![shown_part(self@)]);
        let received: u64 = self.table.store.total_received();
        if received > shown as u64 {
            parts.push(joined(&decimal_text(received as i128), " received"));
        }
        let ghost second = views(parts@);
        assert(second =~= first + received_part(self@));
        parts.push(memory.to_owned());
        let ghost third = views(parts@);
        assert(third =~= second + seq![memory@]);
        if self.running && self.assigned.len() > 0 {
            parts.push(
                joined3(
                    &joined("caught up ", &decimal_text(self.eof.len() as i128)),
                    "/",
                    &decimal_text(self.assigned.len() as i128),
                ),
            );
        }
        let ghost fourth = views(parts@);
        assert(fourth =~= third + progress_part(self@));
        match &self.last_error {
            Some(reason) => {
                parts.push(joined("error: ", reason));
            },
            None => {},
        }
        assert(views(parts@) =~= fourth + error_part(self@));
        assert(views(parts@) =~= status_parts(self@, memory@));
        join_all(&parts, SEPARATOR)
    }
}

/// How many messages are shown, and of how many where a search is on.
pub open spec fn shown_part(state: MessagesState) -> Seq<char> {
    let all = decimal(state.table.records().len() as int) + " shown"@;
    match state.table.store.query() {
        Some(_) => decimal(hit_count(state.table.store.query(), state.table.records()) as int) + " of "@ + all,
        None => all,
    }
}

/// How many messages were received, where that is more than are kept.
pub open spec fn received_part(state: MessagesState) -> Seq<Seq<char>> {
    if state.table.store.received() > state.table.records().len() {
        seq![decimal(state.table.store.received()) + " received"@]
    } else {
        Seq::empty()
    }
}

/// How many partitions are read to the end, while a session runs.
pub open spec fn progress_part(state: MessagesState) -> Seq<Seq<char>> {
    if state.running && state.assigned.len() > 0 {
        seq![
            "caught up "@ + decimal(state.eof.len() as int) + "/"@ + decimal(state.assigned.len() as int),
        ]
    } else {
        Seq::empty()
    }
}

pub open spec fn error_part(state: MessagesState) -> Seq<Seq<char>> {
    match state.last_error {
        Some(reason) => seq!["error: "@ + reason],
        None => Seq::empty(),
    }
}

/// What is going on: what is shown, received and kept in memory, how far reading is,
/// and the last error.
pub open spec fn status_parts(state: MessagesState, memory: Seq<char>) -> Seq<Seq<char>> {
    seq![shown_part(state)] + received_part(state) + seq![memory] + progress_part(state) + error_part(state)
}

/// The newest message is opened at most once in a session.
pub proof fn the_newest_is_opened_once(state: MessagesState, first: i32, second: i32)
    requires
        at_end(state, first).1.open_newest,
    ensures
        !at_end(at_end(state, first).0, second).1.open_newest,
        !at_end(at_end(state, first).0, second).1.first_catch_up,
{
}

/// A chosen partition is the one that its item names, and the first item stands for all of
/// them.
pub proof fn a_chosen_partition_is_the_one_named(topic: Arc<TopicInfo>, item: int, all: Seq<char>)
    requires
        0 <= item < partition_items(all, Some(topic)).len(),
    ensures
        item == 0 ==> chosen_partitions(Some(topic), item).len() == 0,
        item > 0 ==> chosen_partitions(Some(topic), item).len() == 1 && partition_items(all, Some(topic))[item]
            == "Partition "@ + decimal(chosen_partitions(Some(topic), item)[0] as int),
        chosen_partitions(None, item).len() == 0,
{
}

/// The modes of a start mean what they are called: the newest two hundred, the latest, the
/// beginning, an offset, and a time.
pub proof fn modes_mean_what_they_are_called(mode: usize, text: &str, start: Result<StartFrom, String>)
    requires
        call_ensures(parse_start, (mode, text), start),
    ensures
        mode == 0 ==> (start matches Ok(StartFrom::Newest(n)) && n == 200),
        mode == 1 ==> (start matches Ok(from) && from is Latest),
        mode == 2 ==> (start matches Ok(from) && from is Beginning),
        mode == 3 ==> (start matches Ok(from) ==> from is Offset),
        mode > 3 ==> (start matches Ok(from) ==> from is Timestamp),
{
}

/// An offset or a time that was written as a number is the one that reading starts at.
pub proof fn a_written_number_is_where_reading_starts(mode: usize, text: &str, n: int, start: Result<StartFrom, String>)
    requires
        call_ensures(parse_start, (mode, text), start),
        i64::MIN <= n <= i64::MAX,
        text@ == decimal(n),
    ensures
        mode == 3 ==> (start matches Ok(StartFrom::Offset(at)) && at == n),
        mode > 3 ==> (start matches Ok(StartFrom::Timestamp(ms)) && ms == n),
{
    a_number_is_trimmed(n);
    decimal_is_read_back(n, i64::MIN as int, i64::MAX as int);
}

/// A session reads the topic that is shown through the connection that is shown, from where
/// it was told and the partitions that it was told; what an earlier session still brings does
/// not count for it.
pub proof fn a_session_reads_what_is_shown(
    before: MessagesState,
    after: MessagesState,
    start: StartFrom,
    partitions: Seq<i32>,
    order: Option<ConsumeOrder>,
)
    requires
        begun(before, after, start, partitions, order),
        before.generation < u64::MAX,
    ensures
        order is Some <==> before.worker is Some && before.topic is Some,
        order matches Some(o) ==> {
            &&& Some(o.worker) == before.worker && Some(o.topic) == before.topic
            &&& o.start == start && o.partitions@ == partitions
            &&& o.generation == after.generation && after.generation != before.generation
            &&& after.session && after.running
            &&& after.assigned.len() == 0 && after.eof.len() == 0 && after.last_error is None
            &&& after.table == before.table && after.settings == before.settings
        },
        order is None ==> after == before,
{
}

/// The partitions that are read to the end: one more is among them, those that were stay, and
/// none is counted twice.
pub proof fn ends_are_counted_once(eof: Seq<i32>, partition: i32)
    requires
        eof.no_duplicates(),
    ensures
        with_end(eof, partition).no_duplicates(),
        with_end(eof, partition).contains(partition),
        forall|p: i32| eof.contains(p) ==> #[trigger] with_end(eof, partition).contains(p),
        forall|p: i32| #[trigger] with_end(eof, partition).contains(p) ==> eof.contains(p) || p == partition,
        with_end(with_end(eof, partition), partition) == with_end(eof, partition),
{
    let after = with_end(eof, partition);
    if !eof.contains(partition) {
        assert(after[eof.len() as int] == partition);
        assert forall|p: i32| eof.contains(p) implies #[trigger] after.contains(p) by {
            let k = choose|k: int| 0 <= k < eof.len() && eof[k] == p;
            assert(after[k] == p);
        }
        assert forall|p: i32| #[trigger] after.contains(p) implies eof.contains(p) || p == partition by {
            let k = choose|k: int| 0 <= k < after.len() && after[k] == p;
            if k < eof.len() {
                assert(eof[k] == p);
            }
        }
    }
}

/// The view is caught up when each partition that is read is at its end, and not before: then
/// the newest message is opened where that is pending, and the first time is told.
pub proof fn a_view_catches_up_at_the_last_end(state: MessagesState, partition: i32)
    ensures
        ({
            let (after, follow) = at_end(state, partition);
            let all = state.assigned.len() > 0 && after.eof.len() >= state.assigned.len();
            &&& follow.open_newest <==> all && state.open_newest_pending
            &&& follow.first_catch_up <==> all && !state.dev_jump_done
            &&& after.open_newest_pending <==> state.open_newest_pending && !all
            &&& after.dev_jump_done <==> state.dev_jump_done || all
            &&& after.eof.contains(partition)
            &&& after.table == state.table && after.generation == state.generation && after.running == state.running
        }),
{
    let (after, follow) = at_end(state, partition);
    if !state.eof.contains(partition) {
        assert(after.eof[state.eof.len() as int] == partition);
    }
}

/// Another topic, or the same on another connection, is another view; a topic of the same name
/// on the same connection is not.
pub proof fn topics_are_told_apart_by_connection(
    state: MessagesState,
    worker: Option<u64>,
    topic: Option<Arc<TopicInfo>>,
)
    ensures
        state.topic is Some && topic is Some ==> (stays_on_topic(state, worker, topic) <==> state.topic->0.name@
            == topic->0.name@ && state.worker == worker),
        state.topic is Some != topic is Some ==> !stays_on_topic(state, worker, topic),
        state.topic is None && topic is None ==> stays_on_topic(state, worker, topic),
{
}

/// What a session brings counts only while it is the current one. Its messages come behind
/// those that are kept, an error is shown, and its partitions are those that are waited for.
pub proof fn events_of_the_session_count(
    view: &mut MessagesView,
    generation: u64,
    event: ConsumeEvent,
    follow: FollowUp,
)
    requires
        call_ensures(MessagesView::on_event, (view, generation, event), follow),
    ensures
        generation != old(view)@.generation ==> final(view)@ == old(view)@ && !follow.open_newest
            && !follow.first_catch_up,
        generation == old(view)@.generation ==> {
            &&& event matches ConsumeEvent::Assigned(partitions) ==> final(view)@.assigned == partitions@
            &&& event matches ConsumeEvent::Error(message) ==> final(view)@.last_error == Some(message@)
            &&& event matches ConsumeEvent::Eof(partition) ==> final(view)@.eof.contains(partition)
            &&& event matches ConsumeEvent::Batch(batch) ==> {
                let all = old(view).table.records() + batch.records@;
                let kept = final(view).table.records();
                &&& kept.len() <= all.len() && kept == all.skip(all.len() - kept.len())
                &&& all.len() <= old(view).table.store.message_limit() && total_size(all) <= old(view).table.store.byte_limit() ==> kept == all
                &&& final(view).table.store.received() == old(view).table.store.received() + batch.records@.len()
            }
            &&& final(view)@.generation == old(view)@.generation && final(view)@.topic == old(view)@.topic
        },
{
    if generation == old(view)@.generation {
        match event {
            ConsumeEvent::Batch(batch) => {
                let all = old(view).table.records() + batch.records@;
                let most = old(view).table.store.message_limit();
                let bytes = old(view).table.store.byte_limit();
                the_newest_are_kept(all, most, bytes);
                if all.len() <= most && total_size(all) <= bytes {
                    what_fits_is_kept(all, most, bytes);
                }
            },
            ConsumeEvent::Eof(partition) => {
                a_view_catches_up_at_the_last_end(old(view)@, partition);
            },
            _ => {},
        }
    }
}

/// The status line says how many messages are shown, of how many a search keeps some, and how
/// far reading is, so that the numbers are read back.
pub proof fn the_status_counts_what_is_shown(state: MessagesState)
    ensures
        state.table.store.query() is None ==> starts_with(
            shown_part(state),
            decimal(state.table.records().len() as int) + " "@,
        ),
        state.table.store.query() is Some ==> starts_with(
            shown_part(state),
            decimal(hit_count(state.table.store.query(), state.table.records()) as int) + " of "@ + decimal(
                state.table.records().len() as int,
            ) + " "@,
        ),
        state.table.store.received() > state.table.records().len() ==> received_part(state).len() == 1 && starts_with(
            received_part(state)[0],
            decimal(state.table.store.received()) + " "@,
        ),
        state.table.store.received() == state.table.records().len() ==> received_part(state).len() == 0,
        state.running && state.assigned.len() > 0 ==> progress_part(state).len() == 1 && ends_with(
            progress_part(state)[0],
            " "@ + decimal(state.eof.len() as int) + "/"@ + decimal(state.assigned.len() as int),
        ),
        !state.running ==> progress_part(state).len() == 0,
        state.last_error matches Some(reason) ==> error_part(state).len() == 1 && ends_with(
            error_part(state)[0],
            reason,
        ),
        state.last_error is None ==> error_part(state).len() == 0,
{
    reveal_strlit(" ");
    reveal_strlit(" shown");
    reveal_strlit(" of ");
    reveal_strlit(" received");
    reveal_strlit("caught up ");
    reveal_strlit("error: ");
    let n = decimal(state.table.records().len() as int);
    let h = decimal(hit_count(state.table.store.query(), state.table.records()) as int);
    let r = decimal(state.table.store.received());
    let shown = shown_part(state);
    if state.table.store.query() is None {
        assert(shown.take((n + " "@).len() as int) =~= n + " "@);
    } else {
        assert(shown.take((h + " of "@ + n + " "@).len() as int) =~= h + " of "@ + n + " "@);
    }
    assert((r + " received"@).take((r + " "@).len() as int) =~= r + " "@);
    let tail = " "@ + decimal(state.eof.len() as int) + "/"@ + decimal(state.assigned.len() as int);
    let progress = "caught up "@ + decimal(state.eof.len() as int) + "/"@ + decimal(state.assigned.len() as int);
    assert(progress.skip(progress.len() - tail.len()) =~= tail);
    if state.last_error is Some {
        let reason = state.last_error->0;
        let line = "error: "@ + reason;
        assert(line.skip(line.len() - reason.len()) =~= reason);
    }
}

/// While a drag is under way the wheel is held still, and for a short while behind it; then no
/// more.
pub proof fn the_wheel_is_held_behind_a_drag(guard: &mut ScrollGuard, now: u64, ended: bool, later: u64, still: bool)
    requires
        call_ensures(ScrollGuard::release, (guard, now), ended),
        old(guard).held,
        now <= later,
        call_ensures(ScrollGuard::holds, (&*final(guard), later), still),
        now <= u64::MAX - SCROLL_TAIL_MS,
    ensures
        ended,
        !final(guard).held,
        still <==> later - now < SCROLL_TAIL_MS,
{
}

/// Days begin a day apart, and the first one begins at zero.
pub proof fn days_begin_a_day_apart(day: i32, time: CivilTime, next: CivilTime, first: CivilTime)
    requires
        call_ensures(midnight, (day,), time),
        day < i32::MAX,
        call_ensures(midnight, ((day + 1) as i32,), next),
        call_ensures(midnight, (0i32,), first),
    ensures
        next.0 - time.0 == 24 * 60 * 60,
        time.1 == 0 && next.1 == 0,
        first == (0i64, 0u32),
{
}

/// New settings count at once: no more messages are kept than they say, the oldest go first,
/// and nothing goes while everything fits.
pub proof fn new_settings_count_at_once(view: &mut MessagesView, settings: &Settings)
    requires
        call_ensures(MessagesView::apply_settings, (view, settings), ()),
        1 <= settings.max_messages,
    ensures
        final(view)@.settings == *settings,
        ({
            let before = old(view).table.records();
            let after = final(view).table.records();
            &&& after.len() <= before.len() && after == before.skip(before.len() - after.len())
            &&& after.len() <= settings.max_messages
            &&& before.len() <= settings.max_messages && 1 <= old(view)@.memory_limit && total_size(before) <= old(view)@.memory_limit ==> after == before
        }),
        final(view)@.topic == old(view)@.topic && final(view)@.generation == old(view)@.generation,
{
    let before = old(view).table.records();
    let most = at_least_one(settings.max_messages as int);
    let bytes = at_least_one(old(view)@.memory_limit as int);
    the_newest_are_kept(before, most, bytes);
    final(view).table.store.limits_are_kept();
}

/// A session that is stopped does not run any more; what it brought stays.
pub proof fn a_stopped_session_keeps_its_messages(view: &mut MessagesView, stopped: bool)
    requires
        call_ensures(MessagesView::stop, (view,), stopped),
    ensures
        !final(view)@.running && !final(view)@.session,
        stopped <==> old(view)@.session,
        final(view).table == old(view).table,
        final(view)@.topic == old(view)@.topic,
{
}

/// Another topic starts without messages, without an error and without a session; the same one
/// keeps them.
pub proof fn another_topic_starts_without_messages(
    view: &mut MessagesView,
    worker: Option<u64>,
    topic: Option<Arc<TopicInfo>>,
    changed: bool,
)
    requires
        call_ensures(MessagesView::set_topic, (view, worker, topic), changed),
    ensures
        final(view)@.topic == topic && final(view)@.worker == worker,
        changed ==> final(view).table.records().len() == 0 && !final(view)@.running && final(view)@.last_error is None
            && final(view)@.eof.len() == 0,
        !changed ==> final(view).table == old(view).table && final(view)@.running == old(view)@.running,
        (old(view)@.topic matches Some(a) && topic matches Some(b) && a.name@ == b.name@) && old(view)@.worker == worker
            ==> !changed,
        (old(view)@.topic matches Some(a) && topic matches Some(b) && a.name@ != b.name@) ==> changed,
        old(view)@.topic is Some && topic is Some && old(view)@.worker != worker ==> changed,
{
}

/// A session reads where the controls say: from the start that the mode and its text mean, and
/// the partition that the chosen item stands for.
pub proof fn controls_say_what_is_read(
    view: &mut MessagesView,
    mode: usize,
    text: &str,
    item: usize,
    outcome: Result<Option<ConsumeOrder>, String>,
)
    requires
        call_ensures(MessagesView::start, (view, mode, text, item), outcome),
        old(view)@.worker is Some,
        old(view)@.topic is Some,
    ensures
        outcome matches Ok(order) ==> (order matches Some(o) && {
            &&& Some(o.topic) == old(view)@.topic && Some(o.worker) == old(view)@.worker
            &&& o.partitions@ == chosen_partitions(old(view)@.topic, item as int)
            &&& mode == 0 ==> o.start == StartFrom::Newest(200)
            &&& mode == 1 ==> o.start is Latest
            &&& mode == 2 ==> o.start is Beginning
            &&& mode == 3 ==> o.start is Offset
            &&& mode > 3 ==> o.start is Timestamp
            &&& final(view)@.running
        }),
        mode < 3 ==> outcome is Ok,
        outcome is Err ==> final(view)@ == old(view)@,
{
}

/// A text is read as a date with a time to the second, behind a space or a letter, as one to
/// the minute, and as a date alone, which means its start; in this order.
pub proof fn a_timestamp_is_read_in_four_forms(value: &str, found: Vec<Option<CivilTime>>)
    requires
        call_ensures(civil_readings, (value,), found),
    ensures
        found@.len() == 4,
        found@[0] == civil_time(value@, "%Y-%m-%d %H:%M:%S"@),
        found@[1] == civil_time(value@, "%Y-%m-%dT%H:%M:%S"@),
        found@[2] == civil_time(value@, "%Y-%m-%d %H:%M"@),
        civil_date(value@, "%Y-%m-%d"@) is None ==> found@[3] is None,
        civil_date(value@, "%Y-%m-%d"@) matches Some(day) ==> (found@[3] matches Some(time) && time.0 == day * 86_400
            && time.1 == 0),
{
}

/// A single moment is chosen over what comes behind it, and what is skipped or doubled is
/// passed over.
pub proof fn the_first_single_moment_is_chosen(before: Seq<LocalMoment>, ms: i64, behind: Seq<LocalMoment>)
    requires
        forall|k: int| 0 <= k < before.len() ==> #[trigger] before[k] !is One,
    ensures
        first_single(before.push(LocalMoment::One(ms)) + behind, 0) == Some(ms),
        first_single(before, 0) is None,
{
    let all = before.push(LocalMoment::One(ms)) + behind;
    assert forall|k: int| 0 <= k < before.len() implies #[trigger] all[k] !is One by {
        assert(all[k] == before[k]);
    }
    assert(all[before.len() as int] == LocalMoment::One(ms));
    singles_are_found_behind_others(all, 0, before.len() as int);
    nothing_single_is_found(before, 0);
}

proof fn singles_are_found_behind_others(moments: Seq<LocalMoment>, i: int, n: int)
    requires
        0 <= i <= n < moments.len(),
        moments[n] is One,
        forall|k: int| i <= k < n ==> #[trigger] moments[k] !is One,
    ensures
        first_single(moments, i) == Some(moments[n]->One_0),
    decreases n - i,
{
    if i < n {
        assert(moments[i] !is One);
        singles_are_found_behind_others(moments, i + 1, n);
    }
}

proof fn nothing_single_is_found(moments: Seq<LocalMoment>, i: int)
    requires
        0 <= i,
        forall|k: int| 0 <= k < moments.len() ==> #[trigger] moments[k] !is One,
    ensures
        first_single(moments, i) is None,
    decreases moments.len() - i,
{
    if i < moments.len() {
        assert(moments[i] !is One);
        nothing_single_is_found(moments, i + 1);
    }
}

/// A view begins with room for ten thousand messages and 256 megabytes, without a search and
/// without a sort, and its columns are the partition, the offset, the time, the key and the
/// value.
pub proof fn a_view_begins_empty(view: MessagesView)
    requires
        call_ensures(MessagesView::new, (), view),
    ensures
        view.table.store.message_limit() == 10_000,
        view.table.store.byte_limit() == 256 * 1024 * 1024,
        view.table.records().len() == 0 && view.table.store.query() is None && view.table.sort is None,
        view.table.columns@.len() == 5,
        view.table.columns@[0] is Partition && view.table.columns@[1] is Offset && view.table.columns@[2] is Timestamp
            && view.table.columns@[3] is Key && view.table.columns@[4] is Value,
        !view@.running && !view@.session && view@.topic is None,
{
}

/// A topic that is opened is read from the newest messages that the settings ask for, of which
/// there is one at least, on all partitions.
pub proof fn an_opened_topic_shows_its_newest(view: &mut MessagesView, order: Option<ConsumeOrder>)
    requires
        call_ensures(MessagesView::start_default, (view,), order),
    ensures
        order is Some <==> old(view)@.worker is Some && old(view)@.topic is Some,
        order matches Some(o) ==> o.partitions@.len() == 0 && (o.start matches StartFrom::Newest(n) && n >= 1 && (old(view)@.settings.newest_per_partition >= 1 ==> n == old(view)@.settings.newest_per_partition)),
{
}

/// A timestamp that is a number is read as this number, and an empty one is refused; what is
/// neither counts only where it can be read as a date.
pub proof fn a_timestamp_is_a_number_or_a_date(value: &str, n: int, ms: Result<i64, String>)
    requires
        call_ensures(parse_timestamp, (value,), ms),
        i64::MIN <= n <= i64::MAX,
    ensures
        value@ == decimal(n) ==> ms == Ok::<i64, String>(n as i64),
        value@.len() == 0 ==> ms is Err,
        value@.len() > 0 && parsed_int(value@, i64::MIN as int, i64::MAX as int) is None && (forall|i: int|
            0 <= i < 4 ==> #[trigger] readings(value@)[i] is None) ==> ms is Err,
{
    crate::text::decimal_is_read_back(n, i64::MIN as int, i64::MAX as int);
    if ms is Ok && value@.len() > 0 && parsed_int(value@, i64::MIN as int, i64::MAX as int) is None {
        a_read_moment_is_near_a_reading(value@, ms->Ok_0);
    }
}

/// Of several moments the first that is a single one is taken; without one there is none.
pub proof fn a_single_moment_is_taken(moments: &Vec<LocalMoment>, k: int, ms: i64, moment: Result<i64, String>)
    requires
        call_ensures(chosen_moment, (moments,), moment),
    ensures
        0 <= k < moments@.len() && moments@[k] == LocalMoment::One(ms) && (forall|j: int|
            0 <= j < k ==> #[trigger] moments@[j] !is One) ==> moment == Ok::<i64, String>(ms),
        (forall|j: int| 0 <= j < moments@.len() ==> #[trigger] moments@[j] !is One) ==> moment is Err,
{
    if 0 <= k < moments@.len() && moments@[k] == LocalMoment::One(ms) && (forall|j: int|
        0 <= j < k ==> #[trigger] moments@[j] !is One) {
        let before = moments@.take(k);
        let behind = moments@.skip(k + 1);
        assert forall|j: int| 0 <= j < before.len() implies #[trigger] before[j] !is One by {
            assert(before[j] == moments@[j]);
        }
        the_first_single_moment_is_chosen(before, ms, behind);
        assert(before.push(LocalMoment::One(ms)) + behind =~= moments@);
    }
    if forall|j: int| 0 <= j < moments@.len() ==> #[trigger] moments@[j] !is One {
        the_first_single_moment_is_chosen(moments@, ms, Seq::empty());
    }
}

/// An item of the list of partitions names the partition that it stands for; the first item
/// stands for all.
pub proof fn an_item_names_its_partition(
    all: &str,
    topic: &Option<Arc<TopicInfo>>,
    item: usize,
    items: Vec<String>,
    partitions: Vec<i32>,
)
    requires
        call_ensures(partition_labels, (all, topic), items),
        call_ensures(selected_partitions, (topic, item), partitions),
        item < items@.len(),
    ensures
        items@[0]@ == all@,
        item == 0 ==> partitions@.len() == 0,
        item > 0 ==> partitions@.len() == 1 && items@[item as int]@ == "Partition "@ + decimal(partitions@[0] as int),
        topic matches Some(t) ==> items@.len() == t.partitions@.len() + 1 && (item > 0 ==> partitions@[0]
            == t.partitions@[item - 1].id),
        topic is None ==> items@.len() == 1,
{
    let labels = partition_items(all@, *topic);
    assert(views(items@).len() == items@.len());
    assert(views(items@)[0] == items@[0]@);
    assert(views(items@)[item as int] == items@[item as int]@);
}

/// A limit on the memory counts at once: the newest messages stay, as many as fit.
pub proof fn a_memory_limit_counts_at_once(view: &mut MessagesView, bytes: usize)
    requires
        call_ensures(MessagesView::set_memory_limit, (view, bytes), ()),
    ensures
        final(view)@.memory_limit == bytes,
        ({
            let before = old(view).table.records();
            let after = final(view).table.records();
            &&& after.len() <= before.len() && after == before.skip(before.len() - after.len())
            &&& bytes == old(view)@.memory_limit ==> after == before
            &&& bytes != old(view)@.memory_limit && 1 <= bytes && after.len() > 1 ==> total_size(after) <= bytes
        }),
        final(view)@.settings == old(view)@.settings && final(view)@.topic == old(view)@.topic && final(view)@.generation
            == old(view)@.generation,
{
    let before = old(view).table.records();
    if bytes != old(view)@.memory_limit {
        let most = at_least_one(old(view)@.settings.max_messages as int);
        crate::model::message::the_newest_are_kept(before, most, at_least_one(bytes as int));
        if before.len() > 0 {
            crate::model::message::the_longest_end_that_fits_is_kept(before, most, at_least_one(bytes as int));
        }
    } else {
        assert(before.skip(0) =~= before);
    }
}

/// A topic is opened at its newest messages, as many of each partition as the settings say, one
/// at least.
pub proof fn reading_starts_at_the_newest(view: &MessagesView, start: StartFrom)
    requires
        call_ensures(MessagesView::default_start, (view,), start),
    ensures
        start matches StartFrom::Newest(n) && n >= 1 && (view@.settings.newest_per_partition >= 1 ==> n
            == view@.settings.newest_per_partition),
{
}

/// The top is the first row and the bottom the last, and an empty table has neither.
pub proof fn the_top_is_the_first_row(
    view: &mut MessagesView,
    top: Option<usize>,
    lower: &mut MessagesView,
    bottom: Option<usize>,
)
    requires
        call_ensures(MessagesView::go_to_top, (view,), top),
        call_ensures(MessagesView::go_to_bottom, (lower,), bottom),
    ensures
        top is Some <==> final(view).table.rows@.len() > 0,
        top is Some ==> top == Some(0usize),
        bottom is Some <==> final(lower).table.rows@.len() > 0,
        bottom matches Some(r) ==> r + 1 == final(lower).table.rows@.len(),
        final(view).table.records() == old(view).table.records() && final(lower).table.records()
            == old(lower).table.records(),
        !final(view).table.rows_dirty && !final(lower).table.rows_dirty,
{
}

/// The message that is opened is the newest of those that are shown.
pub proof fn the_newest_message_is_opened(view: &mut MessagesView, found: Option<usize>, row: int)
    requires
        call_ensures(MessagesView::open_newest, (view,), found),
        final(view).table.shows_at(row),
    ensures
        found matches Some(best) && final(view).table.shows_at(best as int) && ({
            let newest = final(view).table.shown(best as int);
            let other = final(view).table.shown(row);
            &&& other.timestamp_ms matches Some(x) ==> newest.timestamp_ms matches Some(y) && x <= y
            &&& other.timestamp_ms == newest.timestamp_ms ==> other.offset <= newest.offset
        }),
{
    crate::ui::message_table::the_extreme_row_is_the_newest_or_the_oldest(final(view).table, found->0 as int, row, true);
}

/// A search takes no message away, and an empty one is no search.
pub proof fn a_search_takes_nothing_away(view: &mut MessagesView, query: &str)
    requires
        call_ensures(MessagesView::set_search, (view, query), ()),
    ensures
        final(view).table.records() == old(view).table.records(),
        final(view).table.store.query() is Some <==> query@.len() > 0,
        final(view).table.rows_dirty,
        final(view)@.generation == old(view)@.generation && final(view)@.running == old(view)@.running,
{
}

/// Clearing takes all messages and the last error away and leaves the session running.
pub proof fn clearing_leaves_the_session(view: &mut MessagesView)
    requires
        call_ensures(MessagesView::clear, (view,), ()),
    ensures
        final(view).table.records().len() == 0 && final(view).table.rows@.len() == 0,
        final(view)@.last_error is None && final(view)@.eof.len() == 0,
        final(view)@.running == old(view)@.running && final(view)@.session == old(view)@.session
            && final(view)@.generation == old(view)@.generation,
        final(view)@.topic == old(view)@.topic && final(view)@.assigned == old(view)@.assigned,
        final(view).table.store.query() == old(view).table.store.query(),
        final(view).table.sort == old(view).table.sort && final(view).table.columns == old(view).table.columns,
        final(view).table.store.received() == old(view).table.store.received(),
{
}

/// A session that ends is no longer running, where it is the one of the view; its messages stay.
pub proof fn an_ended_session_keeps_its_messages(view: &mut MessagesView, generation: u64)
    requires
        call_ensures(MessagesView::on_closed, (view, generation), ()),
    ensures
        generation == old(view)@.generation ==> !final(view)@.running,
        generation != old(view)@.generation ==> final(view)@ == old(view)@,
        final(view)@.table == old(view)@.table && final(view)@.last_error == old(view)@.last_error,
{
}

/// A session that is begun reads the shown topic from where it is told, in the partitions that
/// it is told.
pub proof fn a_session_is_begun_as_told(
    view: &mut MessagesView,
    start: StartFrom,
    partitions: Vec<i32>,
    order: Option<ConsumeOrder>,
)
    requires
        old(view)@.generation < u64::MAX,
        call_ensures(MessagesView::start_with, (view, start, partitions), order),
    ensures
        order is Some <==> old(view)@.worker is Some && old(view)@.topic is Some,
        order matches Some(o) ==> o.start == start && o.partitions@ == partitions@ && Some(o.topic) == old(view)@.topic
            && Some(o.worker) == old(view)@.worker && o.generation == final(view)@.generation && o.generation
            != old(view)@.generation && final(view)@.running && final(view)@.open_newest_pending
            == old(view)@.settings.open_newest_message,
        order is None ==> final(view)@ == old(view)@,
{
}

/// The hint says what is to be written, where something is: an offset or a time. It is given
/// once for each mode.
pub proof fn a_hint_is_given_once(view: &mut MessagesView, mode: usize, hint: Option<&'static str>)
    requires
        call_ensures(MessagesView::placeholder, (view, mode), hint),
    ensures
        mode < 3 ==> hint is None,
        mode >= 3 && old(view)@.placeholder_mode != mode ==> hint is Some && final(view)@.placeholder_mode == mode,
        old(view)@.placeholder_mode == mode ==> hint is None,
        hint matches Some(text) ==> (mode == 3 <==> text@ == "offset"@),
        final(view)@.table == old(view)@.table && final(view)@.generation == old(view)@.generation,
{
    reveal_strlit("offset");
    reveal_strlit("unix ms or YYYY-MM-DD HH:MM:SS");
    assert("offset"@.len() != "unix ms or YYYY-MM-DD HH:MM:SS"@.len());
}

/// The status begins with how many messages are shown.
pub proof fn the_status_begins_with_the_count(view: &MessagesView, memory: &str, text: String)
    requires
        call_ensures(MessagesView::status_text, (view, memory), text),
    ensures
        starts_with(text@, shown_part(view@)),
        view.table.store.query() is None ==> starts_with(
            text@,
            decimal(view.table.records().len() as int) + " "@,
        ),
        view@.last_error matches Some(reason) ==> ends_with(text@, reason),
        view@.last_error is None && !view@.running ==> ends_with(text@, memory@),
{
    let parts = status_parts(view@, memory@);
    the_status_counts_what_is_shown(view@);
    let rest = parts.skip(1);
    assert(parts =~= seq![shown_part(view@)] + rest);
    assert(rest.len() > 0) by {
        assert(parts[1 + received_part(view@).len() as int] == memory@);
    }
    crate::text::joined_rows_are_joined(seq![shown_part(view@)], rest, SEPARATOR@);
    one_row_is_itself(shown_part(view@));
    let tail = SEPARATOR@ + joined_with(rest, SEPARATOR@);
    assert(text@ =~= shown_part(view@) + tail);
    assert(text@.take(shown_part(view@).len() as int) =~= shown_part(view@));
    if view.table.store.query() is None {
        let count = decimal(view.table.records().len() as int) + " "@;
        assert(text@.take(count.len() as int) =~= shown_part(view@).take(count.len() as int));
    }
    let last = parts.last();
    let front = parts.drop_last();
    assert(parts =~= front + seq![last]);
    assert(front.len() > 0);
    crate::text::joined_rows_are_joined(front, seq![last], SEPARATOR@);
    one_row_is_itself(last);
    let head = joined_with(front, SEPARATOR@) + SEPARATOR@;
    assert(text@ =~= head + last);
    assert(text@.skip(text@.len() - last.len()) =~= last);
    if let Some(reason) = view@.last_error {
        assert(last == "error: "@ + reason);
        assert(text@.skip(text@.len() - reason.len()) =~= reason);
    }
}

proof fn one_row_is_itself(text: Seq<char>)
    ensures
        joined_with(seq![text], SEPARATOR@) == text,
{
    reveal_with_fuel(joined_with, 2);
    assert(joined_with(seq![text], SEPARATOR@) =~= text);
}

/// The wheel is held while a drag goes on.
pub proof fn the_wheel_is_held_in_a_drag(guard: &mut ScrollGuard, now: u64, held: bool)
    requires
        call_ensures(ScrollGuard::press, (guard,), ()),
        call_ensures(ScrollGuard::holds, (&*final(guard), now), held),
    ensures
        held,
{
}

} // verus!
