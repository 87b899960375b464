//! The view of a topic's consumer groups and of the offsets of one of them.

use std::sync::Arc;

use vstd::prelude::*;

use crate::kafka::groups::{
    member_reads, placed_among, shows_placed, CommittedOffset, GroupMember, GroupSummary, Placed,
};
use crate::kafka::metadata::{ids_of, TopicInfo, Watermarks};
use crate::model::lag::{
    a_commit_and_its_lag_reach_the_end, a_commit_beyond_the_end_has_no_lag, an_expired_commit_lags_by_what_is_left,
    compute_lag, lag_can_be_computed, lag_fits, lag_of, no_commit_is_told_apart, offset_int, Lag, LagFlag,
};
use crate::order::is_stable_sort;
use crate::text::{
    decimal, decimal_is_read_back, decimal_text, join_all, joined, joined3, joined_with, option_view, parsed_int, same_text,
};

verus! {

/// What stands between two parts of a line of text.
pub const SEPARATOR: &'static str = "  \u{b7}  ";

// ---- rows ----

#[derive(Debug)]
pub struct GroupRow {
    pub name: String,
    pub state: String,
    pub members: usize,
    pub partitions: usize,
    pub active: bool,
}

/// A row of the groups with its strings as characters.
pub struct GroupRowView {
    pub name: Seq<char>,
    pub state: Seq<char>,
    pub members: int,
    pub partitions: int,
    pub active: bool,
}

impl View for GroupRow {
    type V = GroupRowView;

    open spec fn view(&self) -> GroupRowView {
        GroupRowView {
            name: self.name@,
            state: self.state@,
            members: self.members as int,
            partitions: self.partitions as int,
            active: self.active,
        }
    }
}

impl Clone for GroupRow {
    fn clone(&self) -> (copy: Self)
        ensures
            copy@ == self@,
    {
        GroupRow {
            name: self.name.clone(),
            state: self.state.clone(),
            members: self.members,
            partitions: self.partitions,
            active: self.active,
        }
    }
}

pub open spec fn row_views(rows: Seq<GroupRow>) -> Seq<GroupRowView> {
    rows.map_values(|row: GroupRow| row@)
}

/// What a cell of the groups shows. A group that reads nothing is marked.
pub open spec fn group_cell(row: GroupRowView, column: int) -> Seq<char> {
    if column == 0 {
        row.name
    } else if column == 1 {
        if row.active {
            row.state
        } else {
            row.state + " (inactive)"@
        }
    } else if column == 2 {
        decimal(row.members)
    } else if column == 3 {
        decimal(row.partitions)
    } else {
        Seq::empty()
    }
}

impl GroupRow {
    /// What a cell shows: the name, the state, the members and the partitions.
    pub fn text_for(&self, column: usize) -> (text: String)
        ensures
            text@ == group_cell(self@, column as int),
    {
        if column == 0 {
            self.name.clone()
        } else if column == 1 {
            if self.active {
                self.state.clone()
            } else {
                joined(&self.state, " (inactive)")
            }
        } else if column == 2 {
            decimal_text(self.members as i128)
        } else if column == 3 {
            decimal_text(self.partitions as i128)
        } else {
            let text = String::new();
            assert(text@ =~= Seq::empty());
            text
        }
    }
}

#[derive(Debug)]
pub struct OffsetRow {
    pub partition: i32,
    pub low: i64,
    pub high: i64,
    pub committed: Option<i64>,
    pub lag: Lag,
    pub member: String,
}

/// A row of the offsets with its strings as characters.
pub struct OffsetRowView {
    pub partition: i32,
    pub low: i64,
    pub high: i64,
    pub committed: Option<i64>,
    pub lag: Lag,
    pub member: Seq<char>,
}

impl View for OffsetRow {
    type V = OffsetRowView;

    open spec fn view(&self) -> OffsetRowView {
        OffsetRowView {
            partition: self.partition,
            low: self.low,
            high: self.high,
            committed: self.committed,
            lag: self.lag,
            member: self.member@,
        }
    }
}

pub open spec fn offset_views(rows: Seq<OffsetRow>) -> Seq<OffsetRowView> {
    rows.map_values(|row: OffsetRow| row@)
}

/// A lag in words: a dash without a commit, and a mark where the commit is out of
/// bounds.
pub open spec fn lag_text(lag: Lag) -> Seq<char> {
    match lag.value {
        None => "-"@,
        Some(v) => match lag.flag {
            LagFlag::Expired => decimal(v as int) + " (expired)"@,
            LagFlag::Reset => decimal(v as int) + " (reset)"@,
            _ => decimal(v as int),
        },
    }
}

/// What a cell of the offsets shows.
pub open spec fn offset_cell(row: OffsetRowView, column: int) -> Seq<char> {
    if column == 0 {
        decimal(row.partition as int)
    } else if column == 1 {
        decimal(row.low as int)
    } else if column == 2 {
        decimal(row.high as int)
    } else if column == 3 {
        match row.committed {
            Some(offset) => decimal(offset as int),
            None => "-"@,
        }
    } else if column == 4 {
        lag_text(row.lag)
    } else if column == 5 {
        row.member
    } else {
        Seq::empty()
    }
}

/// How a lag is marked.
#[derive(Debug, Clone, Copy, PartialEq, Eq, Structural)]
pub enum LagMark {
    Plain,
    CaughtUp,
    Behind,
    Alarming,
}

impl OffsetRow {
    /// What a cell shows: the partition, the watermarks, the commit, the lag and the
    /// member.
    pub fn text_for(&self, column: usize) -> (text: String)
        ensures
            text@ == offset_cell(self@, column as int),
    {
        if column == 0 {
            decimal_text(self.partition as i128)
        } else if column == 1 {
            decimal_text(self.low as i128)
        } else if column == 2 {
            decimal_text(self.high as i128)
        } else if column == 3 {
            match self.committed {
                Some(offset) => decimal_text(offset as i128),
                None => "-".to_owned(),
            }
        } else if column == 4 {
            match (self.lag.value, self.lag.flag) {
                (None, _) => "-".to_owned(),
                (Some(v), LagFlag::Expired) => joined(&decimal_text(v as i128), " (expired)"),
                (Some(v), LagFlag::Reset) => joined(&decimal_text(v as i128), " (reset)"),
                (Some(v), _) => decimal_text(v as i128),
            }
        } else if column == 5 {
            self.member.clone()
        } else {
            let text = String::new();
            assert(text@ =~= Seq::empty());
            text
        }
    }

    /// How the lag of a row is marked, in its own column.
    pub fn lag_mark(&self, column: usize) -> (mark: LagMark)
        ensures
            mark == (if column != 4 {
                LagMark::Plain
            } else if self.lag.flag == LagFlag::Expired || self.lag.flag == LagFlag::Reset {
                LagMark::Alarming
            } else if self.lag.flag == LagFlag::Normal && self.lag.value == Some(0i64) {
                LagMark::CaughtUp
            } else if self.lag.flag == LagFlag::Normal && self.lag.value is Some {
                LagMark::Behind
            } else {
                LagMark::Plain
            }),
    {
        if column != 4 {
            return LagMark::Plain;
        }
        match (self.lag.value, self.lag.flag) {
            (_, LagFlag::Expired) | (_, LagFlag::Reset) => LagMark::Alarming,
            (Some(v), LagFlag::Normal) => {
                if v == 0 {
                    LagMark::CaughtUp
                } else {
                    LagMark::Behind
                }
            },
            _ => LagMark::Plain,
        }
    }
}

// ---- the view ----

/// The groups of a topic, the one that is selected, and what is being loaded.
pub struct ConsumersView {
    pub connected: bool,
    pub topic: Option<Arc<TopicInfo>>,
    pub groups: Vec<GroupSummary>,
    pub rows: Vec<GroupRow>,
    pub offset_rows: Vec<OffsetRow>,
    pub selected_group: Option<String>,
    pub include_inactive: bool,
    pub loading: bool,
    pub scan_progress: Option<(usize, usize)>,
    pub total_lag: Option<i64>,
    pub generation: u64,
    pub last_error: Option<String>,
    pub needs_refresh: bool,
    pub pending_offsets_load: bool,
}

/// The view as values. The groups stay as they are.
pub struct ConsumersState {
    pub connected: bool,
    pub topic: Option<Arc<TopicInfo>>,
    pub groups: Seq<GroupSummary>,
    pub rows: Seq<GroupRowView>,
    pub offset_rows: Seq<OffsetRowView>,
    pub selected_group: Option<Seq<char>>,
    pub include_inactive: bool,
    pub loading: bool,
    pub scan_progress: Option<(usize, usize)>,
    pub total_lag: Option<i64>,
    pub generation: u64,
    pub last_error: Option<Seq<char>>,
    pub needs_refresh: bool,
    pub pending_offsets_load: bool,
}

impl View for ConsumersView {
    type V = ConsumersState;

    open spec fn view(&self) -> ConsumersState {
        ConsumersState {
            connected: self.connected,
            topic: self.topic,
            groups: self.groups@,
            rows: row_views(self.rows@),
            offset_rows: offset_views(self.offset_rows@),
            selected_group: option_view(self.selected_group),
            include_inactive: self.include_inactive,
            loading: self.loading,
            scan_progress: self.scan_progress,
            total_lag: self.total_lag,
            generation: self.generation,
            last_error: option_view(self.last_error),
            needs_refresh: self.needs_refresh,
            pending_offsets_load: self.pending_offsets_load,
        }
    }
}

/// The name of an optional topic.
pub open spec fn topic_name(topic: Option<Arc<TopicInfo>>) -> Option<Seq<char>> {
    match topic {
        Some(t) => Some(t.name@),
        None => None,
    }
}

pub fn same_topic(a: &Option<Arc<TopicInfo>>, b: &Option<Arc<TopicInfo>>) -> (same: bool)
    ensures
        same == (topic_name(*a) == topic_name(*b)),
{
    match (a, b) {
        (Some(x), Some(y)) => same_text(&x.name, &y.name),
        (None, None) => true,
        _ => false,
    }
}

/// A load of the groups that is under way: what the view was when it began, and what
/// the scan of the idle groups has found.
pub struct Refresh {
    pub generation: u64,
    pub include_inactive: bool,
    pub topic: Arc<TopicInfo>,
    pub others: Vec<GroupRow>,
    pub rows: Vec<GroupRow>,
    pub done: usize,
}

/// What a load of the groups needs next.
#[derive(Debug, PartialEq, Eq)]
pub enum RefreshStep {
    /// Nothing more.
    Stop,
    /// The commits of idle groups on the partitions of the topic.
    Scan {
        names: Vec<String>,
        partitions: Vec<i32>,
    },
}

/// A load of the offsets of one group: what the view was when it began.
pub struct OffsetsLoad {
    pub generation: u64,
    pub topic: Arc<TopicInfo>,
    pub group: String,
    pub partitions: Vec<i32>,
    pub members: Vec<(i32, String)>,
}

/// Whether a group reads a topic.
pub open spec fn group_consumes(group: GroupSummary, topic: Seq<char>) -> bool {
    exists|i: int| 0 <= i < group.members@.len() && member_reads(#[trigger] group.members@[i], topic)
}

/// The groups that read a topic, or those that do not, in their order.
pub open spec fn groups_that(groups: Seq<GroupSummary>, topic: Seq<char>, consume: bool) -> Seq<GroupSummary>
    decreases groups.len(),
{
    if groups.len() == 0 {
        Seq::empty()
    } else {
        let before = groups_that(groups.drop_last(), topic, consume);
        if group_consumes(groups.last(), topic) == consume {
            before.push(groups.last())
        } else {
            before
        }
    }
}

/// The row of a group that reads a topic.
pub open spec fn active_row(group: GroupSummary, topic: Seq<char>) -> GroupRowView {
    GroupRowView {
        name: group.name@,
        state: group.state@,
        members: group.members@.len() as int,
        partitions: placed_among(group.members@, topic).len() as int,
        active: true,
    }
}

/// The row of a group that reads nothing, with the partitions that it has commits on.
pub open spec fn idle_row(group: GroupSummary, partitions: int) -> GroupRowView {
    GroupRowView {
        name: group.name@,
        state: group.state@,
        members: group.members@.len() as int,
        partitions,
        active: false,
    }
}

pub open spec fn active_rows(groups: Seq<GroupSummary>, topic: Seq<char>) -> Seq<GroupRowView> {
    groups.map_values(|g: GroupSummary| active_row(g, topic))
}

pub open spec fn idle_rows(groups: Seq<GroupSummary>) -> Seq<GroupRowView> {
    groups.map_values(|g: GroupSummary| idle_row(g, 0))
}

/// The place of the first row with a name, or the end.
pub open spec fn row_from(rows: Seq<GroupRowView>, name: Seq<char>, i: int) -> int
    decreases rows.len() - i,
{
    if i >= rows.len() {
        rows.len() as int
    } else if rows[i].name == name {
        i
    } else {
        row_from(rows, name, i + 1)
    }
}

/// The view when its rows are new: the selected group stays selected where it still has
/// a row, and else nothing is selected and no offsets are shown.
pub open spec fn reselected(state: ConsumersState) -> ConsumersState {
    match state.selected_group {
        Some(name) => if row_from(state.rows, name, 0) < state.rows.len() {
            state
        } else {
            ConsumersState { selected_group: None, total_lag: None, offset_rows: Seq::empty(), ..state }
        },
        None => state,
    }
}

/// The view of another topic: nothing of the old one is left, and loads that are under
/// way count no more.
pub open spec fn on_new_topic(state: ConsumersState) -> ConsumersState {
    ConsumersState {
        generation: (state.generation + 1) as u64,
        groups: Seq::empty(),
        selected_group: None,
        total_lag: None,
        last_error: None,
        scan_progress: None,
        rows: Seq::empty(),
        offset_rows: Seq::empty(),
        needs_refresh: state.topic is Some,
        ..state
    }
}

/// How many partitions have a commit.
pub open spec fn commit_count(offsets: Seq<CommittedOffset>) -> nat
    decreases offsets.len(),
{
    if offsets.len() == 0 {
        0
    } else {
        commit_count(offsets.drop_last()) + if offsets.last().committed is Some {
            1nat
        } else {
            0nat
        }
    }
}

/// The commit of a partition, where the first entry for it has one.
pub open spec fn commit_from(offsets: Seq<CommittedOffset>, partition: i32, i: int) -> Option<i64>
    decreases offsets.len() - i,
{
    if i >= offsets.len() {
        None
    } else if offsets[i].partition == partition {
        offsets[i].committed
    } else {
        commit_from(offsets, partition, i + 1)
    }
}

/// The member of a partition, where one is listed.
pub open spec fn member_from(members: Seq<(i32, String)>, partition: i32, i: int) -> Seq<char>
    decreases members.len() - i,
{
    if i >= members.len() {
        Seq::empty()
    } else if members[i].0 == partition {
        members[i].1@
    } else {
        member_from(members, partition, i + 1)
    }
}

/// Whether the lag of a row is the one between its watermarks and its commit.
pub open spec fn lag_is_right(row: OffsetRowView) -> bool {
    (offset_int(row.lag.value), row.lag.flag) == lag_of(row.low as int, row.high as int, offset_int(row.committed))
}

/// Whether a row shows a partition with its commit, its lag and its member.
pub open spec fn row_shows(
    row: OffsetRowView,
    marks: Watermarks,
    offsets: Seq<CommittedOffset>,
    members: Seq<(i32, String)>,
) -> bool {
    &&& row.partition == marks.partition
    &&& row.low == marks.low
    &&& row.high == marks.high
    &&& row.committed == commit_from(offsets, marks.partition, 0)
    &&& row.member == member_from(members, marks.partition, 0)
    &&& lag_is_right(row)
}

/// The lag of the first partitions together.
pub open spec fn lag_sum(marks: Seq<Watermarks>, offsets: Seq<CommittedOffset>) -> int
    decreases marks.len(),
{
    if marks.len() == 0 {
        0
    } else {
        let w = marks.last();
        let lag = lag_of(w.low as int, w.high as int, offset_int(commit_from(offsets, w.partition, 0))).0;
        lag_sum(marks.drop_last(), offsets) + match lag {
            Some(n) => n,
            None => 0,
        }
    }
}

/// Whether all lags and their sum fit into 64 bits.
pub open spec fn lags_fit(marks: Seq<Watermarks>, offsets: Seq<CommittedOffset>) -> bool {
    &&& forall|i: int|
        0 <= i < marks.len() ==> lag_fits(
            (#[trigger] marks[i]).low,
            marks[i].high,
            commit_from(offsets, marks[i].partition, 0),
        )
    &&& lag_sum(marks, offsets) <= i64::MAX
}

proof fn lag_sum_grows(marks: Seq<Watermarks>, offsets: Seq<CommittedOffset>, i: int)
    requires
        0 <= i <= marks.len(),
    ensures
        0 <= lag_sum(marks.take(i), offsets) <= lag_sum(marks, offsets),
    decreases marks.len() - i,
{
    lag_sum_is_not_negative(marks.take(i), offsets);
    if i < marks.len() {
        lag_sum_grows(marks, offsets, i + 1);
        assert(marks.take(i + 1).drop_last() =~= marks.take(i));
    } else {
        assert(marks.take(i) =~= marks);
    }
}

proof fn lag_sum_is_not_negative(marks: Seq<Watermarks>, offsets: Seq<CommittedOffset>)
    ensures
        0 <= lag_sum(marks, offsets),
    decreases marks.len(),
{
    if marks.len() > 0 {
        lag_sum_is_not_negative(marks.drop_last(), offsets);
    }
}

fn commit_for(offsets: &Vec<CommittedOffset>, partition: i32) -> (commit: Option<i64>)
    ensures
        commit == commit_from(offsets@, partition, 0),
{
    let mut i: usize = 0;
    while i < offsets.len()
        invariant
            i <= offsets@.len(),
            commit_from(offsets@, partition, 0) == commit_from(offsets@, partition, i as int),
        decreases offsets.len() - i,
    {
        if offsets[i].partition == partition {
            return offsets[i].committed;
        }
        i = i + 1;
    }
    None
}

/// Whether all lags and their sum fit into 64 bits.
pub fn lags_can_be_added(marks: &Vec<Watermarks>, offsets: &Vec<CommittedOffset>) -> (fit: bool)
    ensures
        fit == lags_fit(marks@, offsets@),
{
    let mut total: i64 = 0;
    let mut i: usize = 0;
    assert(marks@.take(0) =~= Seq::empty());
    while i < marks.len()
        invariant
            i <= marks@.len(),
            total == lag_sum(marks@.take(i as int), offsets@),
            0 <= total,
            forall|k: int|
                0 <= k < i ==> lag_fits(
                    (#[trigger] marks@[k]).low,
                    marks@[k].high,
                    commit_from(offsets@, marks@[k].partition, 0),
                ),
        decreases marks.len() - i,
    {
        let w: Watermarks = marks[i];
        let committed: Option<i64> = commit_for(offsets, w.partition);
        if !lag_can_be_computed(w.low, w.high, committed) {
            return false;
        }
        let lag = compute_lag(w.low, w.high, committed);
        proof {
            assert(marks@.take(i + 1).drop_last() =~= marks@.take(i as int));
            lag_sum_grows(marks@, offsets@, i + 1);
        }
        match lag.value {
            Some(n) => {
                if n > i64::MAX - total {
                    return false;
                }
                total = total + n;
            },
            None => {},
        }
        i = i + 1;
    }
    assert(marks@.take(i as int) =~= marks@);
    true
}

fn member_for(members: &Vec<(i32, String)>, partition: i32) -> (member: String)
    ensures
        member@ == member_from(members@, partition, 0),
{
    let mut i: usize = 0;
    while i < members.len()
        invariant
            i <= members@.len(),
            member_from(members@, partition, 0) == member_from(members@, partition, i as int),
        decreases members.len() - i,
    {
        if members[i].0 == partition {
            return members[i].1.clone();
        }
        i = i + 1;
    }
    let none = String::new();
    assert(none@ =~= Seq::empty());
    none
}

fn count_commits(offsets: &Vec<CommittedOffset>) -> (count: usize)
    ensures
        count == commit_count(offsets@),
{
    let mut count: usize = 0;
    let mut i: usize = 0;
    assert(offsets@.take(0) =~= Seq::empty());
    while i < offsets.len()
        invariant
            i <= offsets@.len(),
            count <= i,
            count == commit_count(offsets@.take(i as int)),
        decreases offsets.len() - i,
    {
        assert(offsets@.take(i + 1).drop_last() =~= offsets@.take(i as int));
        if offsets[i].committed.is_some() {
            count = count + 1;
        }
        i = i + 1;
    }
    assert(offsets@.take(i as int) =~= offsets@);
    count
}

fn copy_rows(rows: &Vec<GroupRow>) -> (copy: Vec<GroupRow>)
    ensures
        row_views(copy@) == row_views(rows@),
{
    let mut copy: Vec<GroupRow> = Vec::new();
    let mut i: usize = 0;
    while i < rows.len()
        invariant
            i <= rows@.len(),
            row_views(copy@) == row_views(rows@).take(i as int),
        decreases rows.len() - i,
    {
        let ghost before = copy@;
        copy.push(rows[i].clone());
        assert(row_views(copy@) =~= row_views(before).push(rows@[i as int]@));
        assert(row_views(rows@).take(i + 1) =~= row_views(rows@).take(i as int).push(rows@[i as int]@));
        i = i + 1;
    }
    assert(row_views(copy@) =~= row_views(rows@));
    copy
}

/// The place of the first row with a name.
fn find_row(rows: &Vec<GroupRow>, name: &str) -> (place: usize)
    ensures
        place == row_from(row_views(rows@), name@, 0),
        place <= rows@.len(),
{
    let ghost views = row_views(rows@);
    let mut i: usize = 0;
    while i < rows.len()
        invariant
            i <= rows@.len(),
            views == row_views(rows@),
            row_from(views, name@, 0) == row_from(views, name@, i as int),
        decreases rows.len() - i,
    {
        assert(views[i as int] == rows@[i as int]@);
        if same_text(&rows[i].name, name) {
            return i;
        }
        i = i + 1;
    }
    i
}

/// The row of a group that reads a topic.
fn row_of(group: &GroupSummary, topic: &str) -> (row: GroupRow)
    ensures
        row@ == active_row(*group, topic@),
{
    let placed = group.partitions_of(topic);
    let ghost all = placed_among(group.members@, topic@);
    proof {
        let sorted = choose|sorted: Seq<Placed>|
            #[trigger] is_stable_sort(all, sorted) && shows_placed(placed@, sorted, group.members@);
        let order = choose|order: Seq<usize>|
            #[trigger] crate::order::is_stable_order(all, order) && sorted == crate::order::arranged(all, order);
        assert(sorted.len() == all.len());
    }
    GroupRow {
        name: group.name.clone(),
        state: group.state.clone(),
        members: group.members.len(),
        partitions: placed.len(),
        active: true,
    }
}

/// Groups parted into those that read a topic and those that do not.
fn parted(groups: Vec<GroupSummary>, topic: &str) -> (parts: (Vec<GroupSummary>, Vec<GroupSummary>))
    ensures
        parts.0@ == groups_that(groups@, topic@, true),
        parts.1@ == groups_that(groups@, topic@, false),
{
    let ghost given = groups@;
    let mut rest = crate::order::reversed(groups);
    let mut active: Vec<GroupSummary> = Vec::new();
    let mut others: Vec<GroupSummary> = Vec::new();
    let ghost mut done: int = 0;
    assert(given.take(0) =~= Seq::empty());
    while rest.len() > 0
        invariant
            0 <= done,
            rest@.len() + done == given.len(),
            forall|k: int| 0 <= k < rest@.len() ==> rest@[k] == given[given.len() - 1 - k],
            active@ == groups_that(given.take(done), topic@, true),
            others@ == groups_that(given.take(done), topic@, false),
        decreases rest.len(),
    {
        match rest.pop() {
            Some(group) => {
                proof {
                    assert(group == given[done]);
                    assert(given.take(done + 1).drop_last() =~= given.take(done));
                    assert(given.take(done + 1).last() == group);
                }
                if group.consumes(topic) {
                    active.push(group);
                } else {
                    others.push(group);
                }
            },
            None => {},
        }
        proof {
            done = done + 1;
        }
    }
    assert(given.take(done) =~= given);
    (active, others)
}

/// A member as it is shown.
pub open spec fn member_text(member: GroupMember) -> Seq<char> {
    member.client_id@ + " ("@ + member.client_host@ + ")"@
}

/// Whether a list names the members of a group on a topic's partitions.
pub open spec fn lists_members(list: Seq<(i32, String)>, group: GroupSummary, topic: Seq<char>) -> bool {
    exists|sorted: Seq<Placed>|
        #[trigger] is_stable_sort(placed_among(group.members@, topic), sorted) && list.len() == sorted.len()
            && forall|i: int|
            0 <= i < list.len() ==> (#[trigger] list[i]).0 == sorted[i].partition && sorted[i].member
                < group.members@.len() && list[i].1@ == member_text(group.members@[sorted[i].member as int])
}

fn members_on(group: &GroupSummary, topic: &str) -> (list: Vec<(i32, String)>)
    ensures
        lists_members(list@, *group, topic@),
{
    let placed = group.partitions_of(topic);
    let ghost sorted = choose|sorted: Seq<Placed>|
        #[trigger] is_stable_sort(placed_among(group.members@, topic@), sorted) && shows_placed(
            placed@,
            sorted,
            group.members@,
        );
    let mut list: Vec<(i32, String)> = Vec::new();
    let mut i: usize = 0;
    while i < placed.len()
        invariant
            i <= placed@.len(),
            shows_placed(placed@, sorted, group.members@),
            list@.len() == i,
            forall|k: int|
                0 <= k < i ==> (#[trigger] list@[k]).0 == sorted[k].partition && sorted[k].member
                    < group.members@.len() && list@[k].1@ == member_text(group.members@[sorted[k].member as int]),
        decreases placed.len() - i,
    {
        let (partition, member) = placed[i];
        assert(placed@[i as int].0 == sorted[i as int].partition);
        let text = joined(&joined3(&member.client_id, " (", &member.client_host), ")");
        list.push((partition, text));
        i = i + 1;
    }
    assert(is_stable_sort(placed_among(group.members@, topic@), sorted));
    list
}

/// The place of the first group with a name from a place on, or the end.
pub open spec fn group_from(groups: Seq<GroupSummary>, name: Seq<char>, i: int) -> int
    decreases groups.len() - i,
{
    if i >= groups.len() {
        groups.len() as int
    } else if groups[i].name@ == name {
        i
    } else {
        group_from(groups, name, i + 1)
    }
}

impl ConsumersView {
    pub fn new() -> (view: Self)
        ensures
            view@ == (ConsumersState {
                connected: false,
                topic: None,
                groups: Seq::empty(),
                rows: Seq::empty(),
                offset_rows: Seq::empty(),
                selected_group: None,
                include_inactive: false,
                loading: false,
                scan_progress: None,
                total_lag: None,
                generation: 0,
                last_error: None,
                needs_refresh: false,
                pending_offsets_load: false,
            }),
    {
        let view = ConsumersView {
            connected: false,
            topic: None,
            groups: Vec::new(),
            rows: Vec::new(),
            offset_rows: Vec::new(),
            selected_group: None,
            include_inactive: false,
            loading: false,
            scan_progress: None,
            total_lag: None,
            generation: 0,
            last_error: None,
            needs_refresh: false,
            pending_offsets_load: false,
        };
        assert(view@.rows =~= Seq::empty());
        assert(view@.offset_rows =~= Seq::empty());
        assert(view@.groups =~= Seq::empty());
        view
    }

    pub fn set_include_inactive(&mut self, wanted: bool)
        ensures
            final(self)@ == (ConsumersState { include_inactive: wanted, ..old(self)@ }),
    {
        self.include_inactive = wanted;
    }

    /// Shows a topic. Another topic starts afresh; the same one stays as it is.
    pub fn set_topic(&mut self, connected: bool, topic: Option<Arc<TopicInfo>>)
        requires
            old(self)@.generation < u64::MAX,
        ensures
            final(self)@ == ({
                let moved = ConsumersState { connected, topic, ..old(self)@ };
                if topic_name(old(self)@.topic) == topic_name(topic) {
                    moved
                } else {
                    on_new_topic(moved)
                }
            }),
    {
        let same: bool = same_topic(&self.topic, &topic);
        self.connected = connected;
        self.topic = topic;
        if !same {
            self.generation = self.generation + 1;
            self.groups = Vec::new();
            self.selected_group = None;
            self.total_lag = None;
            self.last_error = None;
            self.scan_progress = None;
            self.rows = Vec::new();
            self.offset_rows = Vec::new();
            self.needs_refresh = self.topic.is_some();
            assert(self@.rows =~= Seq::empty());
            assert(self@.offset_rows =~= Seq::empty());
            assert(self@.groups =~= Seq::empty());
        }
    }

    /// What has to be loaded when the view comes to the front: the groups, and the
    /// offsets of the selected one. Both are then not due any more.
    pub fn ensure_loaded(&mut self) -> (due: (bool, bool))
        ensures
            due.0 == (old(self)@.needs_refresh && old(self)@.topic is Some),
            due.1 == old(self)@.pending_offsets_load,
            final(self)@ == (ConsumersState {
                needs_refresh: old(self)@.needs_refresh && !due.0,
                pending_offsets_load: false,
                ..old(self)@
            }),
    {
        let groups_due: bool = self.needs_refresh && self.topic.is_some();
        if groups_due {
            self.needs_refresh = false;
        }
        let offsets_due: bool = self.pending_offsets_load;
        self.pending_offsets_load = false;
        (groups_due, offsets_due)
    }

    /// Begins to load the groups, where there is a connection and a topic. Loads that
    /// are under way count no more.
    pub fn refresh(&mut self) -> (load: Option<Refresh>)
        requires
            old(self)@.generation < u64::MAX,
        ensures
            match load {
                Some(refresh) => {
                    &&& old(self)@.connected && old(self)@.topic is Some
                    &&& final(self)@ == (ConsumersState {
                        generation: (old(self)@.generation + 1) as u64,
                        loading: true,
                        last_error: None,
                        scan_progress: None,
                        ..old(self)@
                    })
                    &&& refresh.generation == final(self)@.generation
                    &&& refresh.include_inactive == old(self)@.include_inactive
                    &&& refresh.topic == old(self)@.topic->0
                    &&& refresh.others@.len() == 0
                    &&& refresh.rows@.len() == 0
                    &&& refresh.done == 0
                },
                None => !(old(self)@.connected && old(self)@.topic is Some) && final(self)@ == old(self)@,
            },
    {
        if !self.connected {
            return None;
        }
        let topic: Arc<TopicInfo> = match &self.topic {
            Some(topic) => crate::model::message::share(topic),
            None => {
                return None;
            },
        };
        self.generation = self.generation + 1;
        self.loading = true;
        self.last_error = None;
        self.scan_progress = None;
        Some(
            Refresh {
                generation: self.generation,
                include_inactive: self.include_inactive,
                topic,
                others: Vec::new(),
                rows: Vec::new(),
                done: 0,
            },
        )
    }

    /// Takes the groups of the cluster. They count only while no other load began: the
    /// groups that read the topic get a row each, and the others are scanned where that
    /// is wanted.
    pub fn on_groups(&mut self, refresh: &mut Refresh, groups: Result<Vec<GroupSummary>, String>, pick_first: bool) -> (step:
        RefreshStep)
        requires
            old(refresh).done == 0,
        ensures
            final(refresh).generation == old(refresh).generation,
            final(refresh).topic == old(refresh).topic,
            final(refresh).include_inactive == old(refresh).include_inactive,
            final(refresh).done == 0,
            match groups {
                Err(reason) => {
                    &&& step == RefreshStep::Stop
                    &&& *final(refresh) == *old(refresh)
                    &&& final(self)@ == (if old(self)@.generation == old(refresh).generation {
                        ConsumersState { loading: false, last_error: Some(reason@), ..old(self)@ }
                    } else {
                        old(self)@
                    })
                },
                Ok(list) => {
                    let topic = old(refresh).topic.name@;
                    let active = groups_that(list@, topic, true);
                    let others = groups_that(list@, topic, false);
                    if old(self)@.generation != old(refresh).generation {
                        step == RefreshStep::Stop && final(self)@ == old(self)@
                    } else {
                        let loaded = reselected(
                            ConsumersState {
                                groups: active + others,
                                loading: false,
                                scan_progress: if old(refresh).include_inactive {
                                    Some((0usize, others.len() as usize))
                                } else {
                                    old(self)@.scan_progress
                                },
                                rows: active_rows(active, topic),
                                ..old(self)@
                            },
                        );
                        &&& final(self)@ == picked(loaded, pick_first)
                        &&& row_views(final(refresh).rows@) == active_rows(active, topic)
                        &&& row_views(final(refresh).others@) == idle_rows(others)
                        &&& match step {
                            RefreshStep::Stop => !old(refresh).include_inactive,
                            RefreshStep::Scan { names, partitions } => {
                                &&& old(refresh).include_inactive
                                &&& crate::text::views(names@) == others.map_values(|g: GroupSummary| g.name@)
                                &&& partitions@ == ids_of(old(refresh).topic.partitions@)
                            },
                        }
                    }
                },
            },
    {
        let list = match groups {
            Ok(list) => list,
            Err(reason) => {
                if self.generation == refresh.generation {
                    self.loading = false;
                    self.last_error = Some(reason);
                }
                return RefreshStep::Stop;
            },
        };
        if self.generation != refresh.generation {
            return RefreshStep::Stop;
        }
        let ghost topic = refresh.topic.name@;
        let (mut active, mut others) = parted(list, &refresh.topic.name);
        let ghost active_groups = active@;
        let ghost other_groups = others@;
        let mut rows: Vec<GroupRow> = Vec::new();
        let mut i: usize = 0;
        while i < active.len()
            invariant
                i <= active@.len(),
                active@ == active_groups,
                topic == refresh.topic.name@,
                row_views(rows@) == active_rows(active_groups, topic).take(i as int),
            decreases active.len() - i,
        {
            let ghost before = rows@;
            rows.push(row_of(&active[i], &refresh.topic.name));
            assert(row_views(rows@) =~= row_views(before).push(active_row(active_groups[i as int], topic)));
            assert(active_rows(active_groups, topic).take(i + 1) =~= active_rows(active_groups, topic).take(
                i as int,
            ).push(active_row(active_groups[i as int], topic)));
            i = i + 1;
        }
        assert(row_views(rows@) =~= active_rows(active_groups, topic));
        let mut idle: Vec<GroupRow> = Vec::new();
        let mut names: Vec<String> = Vec::new();
        let ghost all_names = other_groups.map_values(|g: GroupSummary| g.name@);
        let mut k: usize = 0;
        while k < others.len()
            invariant
                k <= others@.len(),
                others@ == other_groups,
                all_names == other_groups.map_values(|g: GroupSummary| g.name@),
                row_views(idle@) == idle_rows(other_groups).take(k as int),
                crate::text::views(names@) == all_names.take(k as int),
            decreases others.len() - k,
        {
            let group = &others[k];
            let ghost idle_before = idle@;
            let ghost names_before = names@;
            names.push(group.name.clone());
            idle.push(
                GroupRow {
                    name: group.name.clone(),
                    state: group.state.clone(),
                    members: group.members.len(),
                    partitions: 0,
                    active: false,
                },
            );
            proof {
                assert(row_views(idle@) =~= row_views(idle_before).push(idle_row(other_groups[k as int], 0)));
                assert(idle_rows(other_groups).take(k + 1) =~= idle_rows(other_groups).take(k as int).push(
                    idle_row(other_groups[k as int], 0),
                ));
                assert(crate::text::views(names@) =~= crate::text::views(names_before).push(all_names[k as int]));
                assert(all_names.take(k + 1) =~= all_names.take(k as int).push(all_names[k as int]));
            }
            k = k + 1;
        }
        assert(row_views(idle@) =~= idle_rows(other_groups));
        assert(crate::text::views(names@) =~= all_names);
        let total: usize = others.len();
        active.append(&mut others);
        self.groups = active;
        self.loading = false;
        if refresh.include_inactive {
            self.scan_progress = Some((0, total));
        }
        self.rows = copy_rows(&rows);
        refresh.rows = rows;
        refresh.others = idle;
        self.reselect();
        self.pick(pick_first);
        if refresh.include_inactive {
            RefreshStep::Scan { names, partitions: refresh.topic.partition_ids() }
        } else {
            RefreshStep::Stop
        }
    }

    /// Keeps the selection where its group still has a row.
    fn reselect(&mut self)
        ensures
            final(self)@ == reselected(old(self)@),
    {
        let keep: bool = match &self.selected_group {
            Some(name) => find_row(&self.rows, name) < self.rows.len(),
            None => true,
        };
        if !keep {
            self.selected_group = None;
            self.total_lag = None;
            self.offset_rows = Vec::new();
            assert(self@.offset_rows =~= Seq::empty());
        }
    }

    /// Selects the first group where none is selected and that is wanted.
    fn pick(&mut self, wanted: bool)
        ensures
            final(self)@ == picked(old(self)@, wanted),
    {
        if wanted && self.selected_group.is_none() && self.rows.len() > 0 {
            assert(self@.rows[0] == self.rows@[0]@);
            self.selected_group = Some(self.rows[0].name.clone());
            self.pending_offsets_load = true;
        }
    }

    /// The row of the selected group, where it has one.
    pub fn selected_row(&self) -> (row: Option<usize>)
        ensures
            match row {
                Some(i) => self@.selected_group matches Some(name) && i == row_from(self@.rows, name, 0) && i
                    < self@.rows.len(),
                None => self@.selected_group matches Some(name) ==> row_from(self@.rows, name, 0) == self@.rows.len(),
            },
    {
        match &self.selected_group {
            Some(name) => {
                let place: usize = find_row(&self.rows, name);
                if place < self.rows.len() {
                    Some(place)
                } else {
                    None
                }
            },
            None => None,
        }
    }

    /// Takes the answer of one idle group. A group with commits gets a row. Nothing
    /// more is wanted when another load began.
    pub fn on_scanned(&mut self, refresh: &mut Refresh, name: &str, offsets: Result<Vec<CommittedOffset>, String>) -> (more:
        bool)
        requires
            old(refresh).done < usize::MAX,
        ensures
            final(refresh).generation == old(refresh).generation,
            final(refresh).topic == old(refresh).topic,
            final(refresh).include_inactive == old(refresh).include_inactive,
            final(refresh).others == old(refresh).others,
            final(refresh).done == old(refresh).done + 1,
            row_views(final(refresh).rows@) == with_idle(
                row_views(old(refresh).rows@),
                row_views(old(refresh).others@),
                name@,
                found_commits(offsets),
            ),
            more == (old(self)@.generation == old(refresh).generation),
            final(self)@ == (if more {
                ConsumersState {
                    scan_progress: Some((final(refresh).done, old(refresh).others@.len() as usize)),
                    rows: if found_commits(offsets) > 0 {
                        row_views(final(refresh).rows@)
                    } else {
                        old(self)@.rows
                    },
                    ..old(self)@
                }
            } else {
                old(self)@
            }),
    {
        refresh.done = refresh.done + 1;
        let commits: usize = match offsets {
            Ok(offsets) => count_commits(&offsets),
            Err(_) => 0,
        };
        if commits > 0 {
            let place: usize = find_row(&refresh.others, name);
            if place < refresh.others.len() {
                let ghost before = refresh.rows@;
                let mut row = refresh.others[place].clone();
                row.partitions = commits;
                row.active = false;
                assert(row_views(refresh.others@)[place as int] == refresh.others@[place as int]@);
                refresh.rows.push(row);
                assert(row_views(refresh.rows@) =~= row_views(before).push(row@));
            }
        }
        if self.generation != refresh.generation {
            return false;
        }
        self.scan_progress = Some((refresh.done, refresh.others.len()));
        if commits > 0 {
            self.rows = copy_rows(&refresh.rows);
        }
        true
    }

    /// Takes the end of the scan.
    pub fn on_scan_done(&mut self, refresh: &Refresh, outcome: Result<(), String>, pick_first: bool)
        ensures
            final(self)@ == (if old(self)@.generation == refresh.generation {
                picked(
                    ConsumersState {
                        scan_progress: None,
                        last_error: match outcome {
                            Ok(_) => old(self)@.last_error,
                            Err(reason) => Some(reason@),
                        },
                        ..old(self)@
                    },
                    pick_first,
                )
            } else {
                old(self)@
            }),
    {
        if self.generation == refresh.generation {
            self.scan_progress = None;
            match outcome {
                Ok(_) => {},
                Err(reason) => {
                    self.last_error = Some(reason);
                },
            }
            self.pick(pick_first);
        }
    }

    /// Selects the group of a row. Whether its offsets have to be loaded: it was not
    /// selected before.
    pub fn select_row(&mut self, row: usize) -> (load: bool)
        ensures
            load == (row < old(self)@.rows.len() && old(self)@.selected_group != Some(old(self)@.rows[row as int].name)),
            final(self)@ == (if load {
                ConsumersState { selected_group: Some(old(self)@.rows[row as int].name), ..old(self)@ }
            } else {
                old(self)@
            }),
    {
        if row >= self.rows.len() {
            return false;
        }
        assert(self@.rows[row as int] == self.rows@[row as int]@);
        let name: String = self.rows[row].name.clone();
        let known: bool = match &self.selected_group {
            Some(selected) => same_text(selected, &name),
            None => false,
        };
        if known {
            return false;
        }
        self.selected_group = Some(name);
        true
    }

    /// Begins to load the offsets of the selected group, where there is a connection
    /// and a topic. What was shown goes.
    pub fn load_offsets(&mut self) -> (load: Option<OffsetsLoad>)
        ensures
            match load {
                Some(load) => {
                    &&& old(self)@.connected
                    &&& old(self)@.topic == Some(load.topic)
                    &&& old(self)@.selected_group == Some(load.group@)
                    &&& load.generation == old(self)@.generation
                    &&& load.partitions@ == ids_of(load.topic.partitions@)
                    &&& ({
                        let i = group_from(old(self)@.groups, load.group@, 0);
                        if i < old(self)@.groups.len() {
                            lists_members(load.members@, old(self)@.groups[i], load.topic.name@)
                        } else {
                            load.members@.len() == 0
                        }
                    })
                    &&& final(self)@ == (ConsumersState { total_lag: None, offset_rows: Seq::empty(), ..old(self)@ })
                },
                None => {
                    &&& !(old(self)@.connected && old(self)@.topic is Some && old(self)@.selected_group is Some)
                    &&& final(self)@ == old(self)@
                },
            },
    {
        if !self.connected {
            return None;
        }
        let topic: Arc<TopicInfo> = match &self.topic {
            Some(topic) => crate::model::message::share(topic),
            None => {
                return None;
            },
        };
        let group: String = match &self.selected_group {
            Some(group) => group.clone(),
            None => {
                return None;
            },
        };
        let mut i: usize = 0;
        while i < self.groups.len() && !same_text(&self.groups[i].name, &group)
            invariant
                i <= self.groups@.len(),
                group_from(self.groups@, group@, 0) == group_from(self.groups@, group@, i as int),
            decreases self.groups.len() - i,
        {
            i = i + 1;
        }
        let members: Vec<(i32, String)> = if i < self.groups.len() {
            members_on(&self.groups[i], &topic.name)
        } else {
            Vec::new()
        };
        let partitions = topic.partition_ids();
        self.total_lag = None;
        self.offset_rows = Vec::new();
        assert(self@.offset_rows =~= Seq::empty());
        Some(OffsetsLoad { generation: self.generation, topic, group, partitions, members })
    }

    /// Takes the watermarks and the commits of a group. They count only while the same
    /// group is selected and no other load began: each partition gets a row with its
    /// lag, and the lags are added up.
    pub fn on_offsets(
        &mut self,
        load: &OffsetsLoad,
        answer: Result<(Vec<Watermarks>, Vec<CommittedOffset>), String>,
    )
        requires
            answer matches Ok((marks, offsets)) ==> lags_fit(marks@, offsets@),
        ensures
            if old(self)@.generation != load.generation || old(self)@.selected_group != Some(load.group@) {
                final(self)@ == old(self)@
            } else {
                match answer {
                    Err(reason) => final(self)@ == (ConsumersState { last_error: Some(reason@), ..old(self)@ }),
                    Ok((marks, offsets)) => {
                        &&& final(self)@ == (ConsumersState {
                            total_lag: Some(lag_sum(marks@, offsets@) as i64),
                            offset_rows: final(self)@.offset_rows,
                            ..old(self)@
                        })
                        &&& final(self)@.offset_rows.len() == marks@.len()
                        &&& forall|i: int|
                            0 <= i < marks@.len() ==> row_shows(
                                #[trigger] final(self)@.offset_rows[i],
                                marks@[i],
                                offsets@,
                                load.members@,
                            )
                    },
                }
            },
    {
        if self.generation != load.generation {
            return;
        }
        let selected: bool = match &self.selected_group {
            Some(group) => same_text(group, &load.group),
            None => false,
        };
        if !selected {
            return;
        }
        let (marks, offsets) = match answer {
            Ok(answer) => answer,
            Err(reason) => {
                self.last_error = Some(reason);
                return;
            },
        };
        let mut rows: Vec<OffsetRow> = Vec::new();
        let mut total: i64 = 0;
        let mut i: usize = 0;
        assert(marks@.take(0) =~= Seq::empty());
        while i < marks.len()
            invariant
                i <= marks@.len(),
                lags_fit(marks@, offsets@),
                rows@.len() == i,
                total == lag_sum(marks@.take(i as int), offsets@),
                forall|k: int| 0 <= k < i ==> row_shows((#[trigger] rows@[k])@, marks@[k], offsets@, load.members@),
            decreases marks.len() - i,
        {
            let w: Watermarks = marks[i];
            let committed: Option<i64> = commit_for(&offsets, w.partition);
            assert(lag_fits(marks@[i as int].low, marks@[i as int].high, committed));
            let lag = compute_lag(w.low, w.high, committed);
            proof {
                assert(marks@.take(i + 1).drop_last() =~= marks@.take(i as int));
                lag_sum_grows(marks@, offsets@, i + 1);
                lag_sum_grows(marks@, offsets@, i as int);
            }
            match lag.value {
                Some(n) => {
                    total = total + n;
                },
                None => {},
            }
            rows.push(
                OffsetRow {
                    partition: w.partition,
                    low: w.low,
                    high: w.high,
                    committed,
                    lag,
                    member: member_for(&load.members, w.partition),
                },
            );
            i = i + 1;
        }
        assert(marks@.take(i as int) =~= marks@);
        self.total_lag = Some(total);
        self.offset_rows = rows;
        assert forall|k: int| 0 <= k < marks@.len() implies row_shows(
            #[trigger] self@.offset_rows[k],
            marks@[k],
            offsets@,
            load.members@,
        ) by {
            assert(self@.offset_rows[k] == rows@[k]@);
        }
    }

    /// What is going on, in one line.
    pub fn status_text(&self) -> (text: String)
        ensures
            text@ == status_line(self@),
    {
        let mut parts: Vec<String> = Vec::new();
        if self.loading {
            parts.push("Loading groups".to_owned());
        }
        let ghost first = crate::text::views(parts@);
        assert(first =~= loading_part(self@));
        match self.scan_progress {
            Some((done, total)) => {
                parts.push(
                    joined(
                        &joined3("Scanning inactive groups ", &decimal_text(done as i128), "/"),
                        &decimal_text(total as i128),
                    ),
                );
            },
            None => {},
        }
        let ghost second = crate::text::views(parts@);
        assert(second =~= first + scan_part(self@));
        match &self.last_error {
            Some(reason) => {
                parts.push(joined("error: ", reason));
            },
            None => {},
        }
        assert(crate::text::views(parts@) =~= second + error_part(self@));
        join_all(&parts, SEPARATOR)
    }

    /// What stands above the offsets.
    pub fn offsets_title(&self) -> (text: String)
        ensures
            text@ == (match self@.selected_group {
                Some(group) => match self@.total_lag {
                    Some(total) => group + "  \u{b7}  total lag "@ + decimal(total as int),
                    None => group,
                },
                None => "Select a group to see its offsets"@,
            }),
    {
        match &self.selected_group {
            Some(group) => match self.total_lag {
                Some(total) => joined3(group, "  \u{b7}  total lag ", &decimal_text(total as i128)),
                None => group.clone(),
            },
            None => "Select a group to see its offsets".to_owned(),
        }
    }
}

/// The view with its first group selected, where none is and that is wanted. Its
/// offsets are then due.
pub open spec fn picked(state: ConsumersState, wanted: bool) -> ConsumersState {
    if wanted && state.selected_group is None && state.rows.len() > 0 {
        ConsumersState {
            selected_group: Some(state.rows[0].name),
            pending_offsets_load: true,
            ..state
        }
    } else {
        state
    }
}

/// How many commits an answer shows; one that failed shows none.
pub open spec fn found_commits(answer: Result<Vec<CommittedOffset>, String>) -> int {
    match answer {
        Ok(offsets) => commit_count(offsets@) as int,
        Err(_) => 0,
    }
}

/// Rows with one more for an idle group, where it has commits and is known.
pub open spec fn with_idle(
    rows: Seq<GroupRowView>,
    others: Seq<GroupRowView>,
    name: Seq<char>,
    commits: int,
) -> Seq<GroupRowView> {
    let i = row_from(others, name, 0);
    if commits > 0 && i < others.len() {
        rows.push(GroupRowView { partitions: commits, active: false, ..others[i] })
    } else {
        rows
    }
}

pub open spec fn loading_part(state: ConsumersState) -> Seq<Seq<char>> {
    if state.loading {
        seq!["Loading groups"@]
    } else {
        Seq::empty()
    }
}

pub open spec fn scan_part(state: ConsumersState) -> Seq<Seq<char>> {
    match state.scan_progress {
        Some((done, total)) => seq![
            "Scanning inactive groups "@ + decimal(done as int) + "/"@ + decimal(total as int),
        ],
        None => Seq::empty(),
    }
}

pub open spec fn error_part(state: ConsumersState) -> Seq<Seq<char>> {
    match state.last_error {
        Some(reason) => seq!["error: "@ + reason],
        None => Seq::empty(),
    }
}

/// What is going on: loading, scanning, and the last error.
pub open spec fn status_line(state: ConsumersState) -> Seq<char> {
    joined_with(loading_part(state) + scan_part(state) + error_part(state), SEPARATOR@)
}

// ---- laws ----

/// Each group of the cluster is shown once: the active groups and the others are all
/// groups.
pub proof fn groups_are_parted(groups: Seq<GroupSummary>, topic: Seq<char>)
    ensures
        groups_that(groups, topic, true).len() + groups_that(groups, topic, false).len() == groups.len(),
        forall|g: GroupSummary|
            groups.contains(g) ==> groups_that(groups, topic, group_consumes(g, topic)).contains(g),
    decreases groups.len(),
{
    if groups.len() > 0 {
        let rest = groups.drop_last();
        groups_are_parted(rest, topic);
        assert forall|g: GroupSummary| groups.contains(g) implies groups_that(
            groups,
            topic,
            group_consumes(g, topic),
        ).contains(g) by {
            let consume = group_consumes(g, topic);
            let before = groups_that(rest, topic, consume);
            let after = groups_that(groups, topic, consume);
            let i = choose|i: int| 0 <= i < groups.len() && groups[i] == g;
            if i < rest.len() {
                assert(rest[i] == g);
                assert(rest.contains(g));
                assert(before.contains(g));
                let k = choose|k: int| 0 <= k < before.len() && before[k] == g;
                assert(after[k] == g);
            } else {
                assert(after[after.len() - 1] == g);
            }
        }
    }
}

/// After new rows came, what is selected has a row.
pub proof fn a_selected_group_has_a_row(state: ConsumersState, name: Seq<char>)
    requires
        reselected(state).selected_group == Some(name),
    ensures
        row_from(reselected(state).rows, name, 0) < reselected(state).rows.len(),
{
}

/// The values of the lags of rows together; a row without one adds nothing.
pub open spec fn shown_lags(rows: Seq<OffsetRowView>) -> int
    decreases rows.len(),
{
    if rows.len() == 0 {
        0
    } else {
        shown_lags(rows.drop_last()) + match rows.last().lag.value {
            Some(n) => n as int,
            None => 0,
        }
    }
}

/// The total lag is the sum of the lags that the rows show.
pub proof fn the_total_is_the_sum_of_the_rows(
    rows: Seq<OffsetRowView>,
    marks: Seq<Watermarks>,
    offsets: Seq<CommittedOffset>,
    members: Seq<(i32, String)>,
)
    requires
        rows.len() == marks.len(),
        forall|i: int| 0 <= i < marks.len() ==> row_shows(#[trigger] rows[i], marks[i], offsets, members),
    ensures
        lag_sum(marks, offsets) == shown_lags(rows),
    decreases rows.len(),
{
    if rows.len() > 0 {
        let n = rows.len() - 1;
        assert(row_shows(rows[n], marks[n], offsets, members));
        assert forall|i: int| 0 <= i < marks.drop_last().len() implies row_shows(
            #[trigger] rows.drop_last()[i],
            marks.drop_last()[i],
            offsets,
            members,
        ) by {
            assert(row_shows(rows[i], marks[i], offsets, members));
        }
        the_total_is_the_sum_of_the_rows(rows.drop_last(), marks.drop_last(), offsets, members);
    }
}

proof fn commits_are_looked_up(offsets: Seq<CommittedOffset>, partition: i32, i: int)
    requires
        0 <= i,
    ensures
        (forall|k: int| i <= k < offsets.len() ==> (#[trigger] offsets[k]).partition != partition) ==> commit_from(
            offsets,
            partition,
            i,
        ) is None,
        forall|k: int|
            i <= k < offsets.len() && (#[trigger] offsets[k]).partition == partition && (forall|l: int|
                i <= l < k ==> (#[trigger] offsets[l]).partition != partition) ==> commit_from(offsets, partition, i)
                == offsets[k].committed,
    decreases offsets.len() - i,
{
    if i < offsets.len() {
        commits_are_looked_up(offsets, partition, i + 1);
    }
}

/// A row shows the commit of its own partition, and none where the group has none there.
pub proof fn a_row_shows_its_own_commit(
    row: OffsetRowView,
    marks: Watermarks,
    offsets: Seq<CommittedOffset>,
    members: Seq<(i32, String)>,
)
    requires
        row_shows(row, marks, offsets, members),
        forall|k: int, l: int|
            #![trigger offsets[k], offsets[l]]
            0 <= k < l < offsets.len() ==> offsets[k].partition != offsets[l].partition,
    ensures
        row.partition == marks.partition && row.low == marks.low && row.high == marks.high,
        forall|k: int|
            0 <= k < offsets.len() && (#[trigger] offsets[k]).partition == row.partition ==> row.committed
                == offsets[k].committed,
        (forall|k: int| 0 <= k < offsets.len() ==> (#[trigger] offsets[k]).partition != row.partition)
            ==> row.committed is None,
{
    commits_are_looked_up(offsets, row.partition, 0);
    assert forall|k: int|
        0 <= k < offsets.len() && (#[trigger] offsets[k]).partition == row.partition implies row.committed
        == offsets[k].committed by {
        assert forall|l: int| 0 <= l < k implies (#[trigger] offsets[l]).partition != row.partition by {
            assert(offsets[l].partition != offsets[k].partition);
        }
    }
}

/// A row's commit and its lag make up the high watermark, where the commit lies between the
/// watermarks; a group that is at the end lags by nothing.
pub proof fn a_row_shows_how_far_a_group_is_behind(
    row: OffsetRowView,
    marks: Watermarks,
    offsets: Seq<CommittedOffset>,
    members: Seq<(i32, String)>,
)
    requires
        row_shows(row, marks, offsets, members),
    ensures
        row.committed is None ==> row.lag.value is None && row.lag.flag == LagFlag::NoCommit,
        row.committed matches Some(c) ==> {
            &&& row.low <= c <= row.high ==> row.lag.flag == LagFlag::Normal && (row.lag.value matches Some(n) && c + n
                == row.high)
            &&& c < row.low <= row.high ==> row.lag.flag == LagFlag::Expired && (row.lag.value matches Some(n)
                && row.low + n == row.high)
            &&& c > row.high ==> row.lag.flag == LagFlag::Reset && row.lag.value == Some(0i64)
        },
{
    match row.committed {
        None => {
            no_commit_is_told_apart(row.low as int, row.high as int, None);
        },
        Some(c) => {
            if row.low <= c <= row.high {
                a_commit_and_its_lag_reach_the_end(row.low as int, row.high as int, c as int);
            } else if c < row.low && row.low <= row.high {
                an_expired_commit_lags_by_what_is_left(row.low as int, row.high as int, c as int);
            } else if c > row.high {
                a_commit_beyond_the_end_has_no_lag(row.low as int, row.high as int, c as int);
            }
        },
    }
}

/// The member of a row is the first one that is listed with its partition, and nothing where
/// none is.
pub proof fn a_row_shows_its_own_member(members: Seq<(i32, String)>, partition: i32, i: int)
    requires
        0 <= i,
    ensures
        (forall|k: int| i <= k < members.len() ==> (#[trigger] members[k]).0 != partition) ==> member_from(
            members,
            partition,
            i,
        ) == Seq::<char>::empty(),
        forall|k: int|
            i <= k < members.len() && (#[trigger] members[k]).0 == partition && (forall|l: int|
                i <= l < k ==> (#[trigger] members[l]).0 != partition) ==> member_from(members, partition, i)
                == members[k].1@,
    decreases members.len() - i,
{
    if i < members.len() {
        a_row_shows_its_own_member(members, partition, i + 1);
    }
}

/// Commits are counted one by one: a partition counts where it has a commit, and two rows of
/// partitions have the commits of both.
pub proof fn commits_are_counted(first: Seq<CommittedOffset>, second: Seq<CommittedOffset>, one: CommittedOffset)
    ensures
        commit_count(first + second) == commit_count(first) + commit_count(second),
        commit_count(seq![one]) == (if one.committed is Some {
            1nat
        } else {
            0
        }),
        commit_count(second) <= second.len(),
    decreases second.len(),
{
    assert(seq![one].drop_last() =~= Seq::empty());
    assert(commit_count(seq![one].drop_last()) == 0);
    if second.len() == 0 {
        assert(first + second =~= first);
    } else {
        commits_are_counted(first, second.drop_last(), one);
        assert((first + second).drop_last() =~= first + second.drop_last());
    }
}

/// The groups that read a topic keep their order, and so do those that do not: of two rows of
/// groups they are those of the first, and behind them those of the second.
pub proof fn parted_groups_keep_their_order(
    first: Seq<GroupSummary>,
    second: Seq<GroupSummary>,
    one: GroupSummary,
    topic: Seq<char>,
    consume: bool,
)
    ensures
        groups_that(first + second, topic, consume) == groups_that(first, topic, consume) + groups_that(
            second,
            topic,
            consume,
        ),
        group_consumes(one, topic) == consume ==> groups_that(seq![one], topic, consume) == seq![one],
        group_consumes(one, topic) != consume ==> groups_that(seq![one], topic, consume) == Seq::<GroupSummary>::empty(),
    decreases second.len(),
{
    let single = seq![one];
    assert(single.drop_last() =~= Seq::empty());
    assert(groups_that(single.drop_last(), topic, consume) =~= Seq::empty());
    assert(groups_that(single, topic, consume) =~= if group_consumes(one, topic) == consume {
        single
    } else {
        Seq::empty()
    });
    if second.len() == 0 {
        assert(first + second =~= first);
        assert(groups_that(first, topic, consume) + groups_that(second, topic, consume) =~= groups_that(
            first,
            topic,
            consume,
        ));
    } else {
        parted_groups_keep_their_order(first, second.drop_last(), one, topic, consume);
        assert((first + second).drop_last() =~= first + second.drop_last());
        assert(groups_that(first + second, topic, consume) =~= groups_that(first, topic, consume) + groups_that(
            second,
            topic,
            consume,
        ));
    }
}

/// The row of a group shows its name, its state and its members. A group that reads the topic
/// is shown as active, with the partitions that its members read; another one as inactive.
pub proof fn rows_show_their_groups(groups: Seq<GroupSummary>, topic: Seq<char>, k: int)
    requires
        0 <= k < groups.len(),
    ensures
        active_rows(groups, topic).len() == groups.len(),
        idle_rows(groups).len() == groups.len(),
        ({
            let row = active_rows(groups, topic)[k];
            &&& row.name == groups[k].name@ && row.state == groups[k].state@
            &&& row.members == groups[k].members@.len()
            &&& row.partitions == placed_among(groups[k].members@, topic).len()
            &&& row.active
        }),
        ({
            let row = idle_rows(groups)[k];
            &&& row.name == groups[k].name@ && row.state == groups[k].state@
            &&& row.members == groups[k].members@.len()
            &&& !row.active
        }),
        row_from(active_rows(groups, topic), groups[k].name@, 0) <= k,
{
    rows_are_found_by_name(active_rows(groups, topic), groups[k].name@, 0);
}

/// A row is found at the first place that has the name, and at the end where none has it.
pub proof fn rows_are_found_by_name(rows: Seq<GroupRowView>, name: Seq<char>, i: int)
    requires
        0 <= i <= rows.len(),
    ensures
        i <= row_from(rows, name, i) <= rows.len(),
        row_from(rows, name, i) < rows.len() ==> rows[row_from(rows, name, i)].name == name,
        forall|k: int| i <= k < row_from(rows, name, i) ==> (#[trigger] rows[k]).name != name,
    decreases rows.len() - i,
{
    if i < rows.len() && rows[i].name != name {
        rows_are_found_by_name(rows, name, i + 1);
    }
}

/// An idle group with commits comes to the end of the rows, as an inactive one with as many
/// partitions as it has commits on; the rows before it stay. A group without commits, or one
/// that is not known, adds none.
pub proof fn an_idle_group_with_commits_gets_a_row(
    rows: Seq<GroupRowView>,
    others: Seq<GroupRowView>,
    name: Seq<char>,
    commits: int,
)
    ensures
        ({
            let after = with_idle(rows, others, name, commits);
            let known = exists|k: int| 0 <= k < others.len() && (#[trigger] others[k]).name == name;
            &&& after.take(rows.len() as int) == rows
            &&& after.len() == rows.len() + (if commits > 0 && known { 1int } else { 0 })
            &&& commits > 0 && known ==> {
                let row = after.last();
                row.name == name && row.partitions == commits && !row.active
            }
        }),
{
    rows_are_found_by_name(others, name, 0);
    let after = with_idle(rows, others, name, commits);
    assert(after.take(rows.len() as int) =~= rows);
    let i = row_from(others, name, 0);
    if i < others.len() {
        assert(others[i].name == name);
    }
}

/// When new rows come, a selected group that has one stays selected, with what is shown of
/// it; one that has none is no longer selected, and nothing is shown of it.
pub proof fn a_selection_stays_while_its_group_does(state: ConsumersState)
    ensures
        ({
            let after = reselected(state);
            let listed = state.selected_group matches Some(name) && exists|k: int|
                0 <= k < state.rows.len() && (#[trigger] state.rows[k]).name == name;
            &&& after.rows == state.rows && after.groups == state.groups
            &&& listed ==> after == state
            &&& !listed ==> after.selected_group is None
            &&& !listed && state.selected_group is Some ==> after.total_lag is None && after.offset_rows.len() == 0
        }),
{
    if state.selected_group is Some {
        rows_are_found_by_name(state.rows, state.selected_group->0, 0);
    }
}

/// Without a selection the group of the first row is selected where that is wanted, and its
/// offsets are then due; a selection that there is stays.
pub proof fn the_first_group_is_picked(state: ConsumersState, wanted: bool)
    ensures
        ({
            let after = picked(state, wanted);
            &&& state.selected_group is Some ==> after == state
            &&& !wanted ==> after == state
            &&& wanted && state.selected_group is None && state.rows.len() > 0 ==> after.selected_group == Some(
                state.rows[0].name,
            ) && after.pending_offsets_load
            &&& after.rows == state.rows
        }),
{
}

/// Of another topic nothing is shown that belongs to the old one, and what is still being
/// loaded for the old one counts no more.
pub proof fn another_topic_starts_afresh(state: ConsumersState)
    requires
        state.generation < u64::MAX,
    ensures
        ({
            let after = on_new_topic(state);
            &&& after.generation != state.generation
            &&& after.groups.len() == 0 && after.rows.len() == 0 && after.offset_rows.len() == 0
            &&& after.selected_group is None && after.total_lag is None && after.last_error is None
            &&& after.scan_progress is None
            &&& after.needs_refresh == (state.topic is Some)
            &&& after.topic == state.topic && after.connected == state.connected
        }),
{
}

/// A row of the groups shows its name and its state, and its numbers so that they are read
/// back; an inactive group is marked behind its state.
pub proof fn group_cells_show_the_row(row: GroupRowView)
    requires
        0 <= row.members <= usize::MAX,
        0 <= row.partitions <= usize::MAX,
    ensures
        group_cell(row, 0) == row.name,
        row.active ==> group_cell(row, 1) == row.state,
        !row.active ==> group_cell(row, 1).len() > row.state.len() && group_cell(row, 1).take(row.state.len() as int)
            == row.state,
        parsed_int(group_cell(row, 2), 0, usize::MAX as int) == Some(row.members),
        parsed_int(group_cell(row, 3), 0, usize::MAX as int) == Some(row.partitions),
{
    reveal_strlit(" (inactive)");
    assert((row.state + " (inactive)"@).take(row.state.len() as int) =~= row.state);
    decimal_is_read_back(row.members, 0, usize::MAX as int);
    decimal_is_read_back(row.partitions, 0, usize::MAX as int);
}

/// A row of the offsets shows its partition, its watermarks, its commit and its lag so that
/// they are read back; a dash stands for a commit and a lag that there are not.
pub proof fn offset_cells_show_the_row(row: OffsetRowView)
    ensures
        parsed_int(offset_cell(row, 0), i32::MIN as int, i32::MAX as int) == Some(row.partition as int),
        parsed_int(offset_cell(row, 1), i64::MIN as int, i64::MAX as int) == Some(row.low as int),
        parsed_int(offset_cell(row, 2), i64::MIN as int, i64::MAX as int) == Some(row.high as int),
        row.committed matches Some(c) ==> parsed_int(offset_cell(row, 3), i64::MIN as int, i64::MAX as int) == Some(
            c as int,
        ),
        row.committed is None ==> offset_cell(row, 3) == "-"@,
        row.lag.value matches Some(n) ==> {
            let shown = decimal(n as int);
            &&& offset_cell(row, 4).len() >= shown.len() && offset_cell(row, 4).take(shown.len() as int) == shown
            &&& row.lag.flag == LagFlag::Normal ==> parsed_int(offset_cell(row, 4), i64::MIN as int, i64::MAX as int)
                == Some(n as int)
            &&& row.lag.flag == LagFlag::Expired ==> offset_cell(row, 4) == shown + " (expired)"@
            &&& row.lag.flag == LagFlag::Reset ==> offset_cell(row, 4) == shown + " (reset)"@
        },
        row.lag.value is None ==> offset_cell(row, 4) == "-"@,
        offset_cell(row, 5) == row.member,
{
    decimal_is_read_back(row.partition as int, i32::MIN as int, i32::MAX as int);
    decimal_is_read_back(row.low as int, i64::MIN as int, i64::MAX as int);
    decimal_is_read_back(row.high as int, i64::MIN as int, i64::MAX as int);
    if row.committed is Some {
        decimal_is_read_back(row.committed->0 as int, i64::MIN as int, i64::MAX as int);
    }
    if row.lag.value is Some {
        let n = row.lag.value->0 as int;
        decimal_is_read_back(n, i64::MIN as int, i64::MAX as int);
        let shown = decimal(n);
        assert(offset_cell(row, 4).take(shown.len() as int) =~= shown);
    }
}

/// The offsets of a group count while it is selected and nothing else is loaded; then each
/// partition has a row, and the total is the sum of the lags that the rows show.
pub proof fn offsets_of_the_selected_group_count(
    view: &mut ConsumersView,
    load: &OffsetsLoad,
    marks: Vec<Watermarks>,
    offsets: Vec<CommittedOffset>,
)
    requires
        call_ensures(
            ConsumersView::on_offsets,
            (view, load, Ok::<(Vec<Watermarks>, Vec<CommittedOffset>), String>((marks, offsets))),
            (),
        ),
        lags_fit(marks@, offsets@),
    ensures
        old(view)@.generation != load.generation || old(view)@.selected_group != Some(load.group@) ==> final(view)@
            == old(view)@,
        old(view)@.generation == load.generation && old(view)@.selected_group == Some(load.group@) ==> {
            let rows = final(view)@.offset_rows;
            &&& rows.len() == marks@.len()
            &&& final(view)@.total_lag matches Some(total) && total == shown_lags(rows)
            &&& forall|i: int|
                0 <= i < rows.len() ==> (#[trigger] rows[i]).partition == marks@[i].partition && rows[i].high
                    == marks@[i].high && (rows[i].committed matches Some(c) ==> (rows[i].low <= c <= rows[i].high ==> (
                rows[i].lag.value matches Some(n) && c + n == rows[i].high)))
            &&& final(view)@.selected_group == old(view)@.selected_group
        },
{
    if old(view)@.generation == load.generation && old(view)@.selected_group == Some(load.group@) {
        let rows = final(view)@.offset_rows;
        the_total_is_the_sum_of_the_rows(rows, marks@, offsets@, load.members@);
        lag_sum_is_not_negative(marks@, offsets@);
        assert forall|i: int| 0 <= i < rows.len() implies (#[trigger] rows[i]).partition == marks@[i].partition
            && rows[i].high == marks@[i].high && (rows[i].committed matches Some(c) ==> (rows[i].low <= c
            <= rows[i].high ==> (rows[i].lag.value matches Some(n) && c + n == rows[i].high))) by {
            a_row_shows_how_far_a_group_is_behind(rows[i], marks@[i], offsets@, load.members@);
        }
    }
}

/// The groups of a cluster count while no other load began: those that read the topic have a
/// row each, and the others are scanned, by name, where that is wanted.
pub proof fn groups_that_read_the_topic_have_rows(
    view: &mut ConsumersView,
    refresh: &mut Refresh,
    groups: Vec<GroupSummary>,
    pick_first: bool,
    step: RefreshStep,
)
    requires
        call_ensures(
            ConsumersView::on_groups,
            (view, refresh, Ok::<Vec<GroupSummary>, String>(groups), pick_first),
            step,
        ),
    ensures
        old(view)@.generation != old(refresh).generation ==> final(view)@ == old(view)@ && step == RefreshStep::Stop,
        old(view)@.generation == old(refresh).generation ==> {
            let topic = old(refresh).topic.name@;
            let active = groups_that(groups@, topic, true);
            let others = groups_that(groups@, topic, false);
            &&& final(view)@.rows.len() == active.len()
            &&& forall|k: int|
                0 <= k < active.len() ==> (#[trigger] final(view)@.rows[k]).name == active[k].name@
                    && final(view)@.rows[k].active
            &&& !final(view)@.loading
            &&& step is Scan <==> old(refresh).include_inactive
            &&& step matches RefreshStep::Scan { names, .. } ==> names@.len() == others.len() && forall|k: int|
                0 <= k < others.len() ==> (#[trigger] names@[k])@ == others[k].name@
        },
{
    if old(view)@.generation == old(refresh).generation {
        let topic = old(refresh).topic.name@;
        let active = groups_that(groups@, topic, true);
        let others = groups_that(groups@, topic, false);
        assert(final(view)@.rows == active_rows(active, topic));
        if step is Scan {
            let names = step->Scan_names;
            assert(crate::text::views(names@).len() == names@.len());
            assert forall|k: int| 0 <= k < others.len() implies (#[trigger] names@[k])@ == others[k].name@ by {
                assert(crate::text::views(names@)[k] == names@[k]@);
            }
        }
    }
}

/// How the lag of a row is marked in its column: a commit that is out of bounds as alarming, a
/// group at the end as caught up, and one before it as behind.
pub proof fn lags_are_marked(row: &OffsetRow, column: usize, mark: LagMark)
    requires
        call_ensures(OffsetRow::lag_mark, (row, column), mark),
    ensures
        column != 4 ==> mark is Plain,
        column == 4 ==> {
            &&& mark is Alarming <==> row.lag.flag == LagFlag::Expired || row.lag.flag == LagFlag::Reset
            &&& mark is CaughtUp <==> row.lag.flag == LagFlag::Normal && row.lag.value == Some(0i64)
            &&& row.lag.flag == LagFlag::Normal && (row.lag.value matches Some(n) && n != 0) ==> mark is Behind
        },
{
}

/// A group that is selected anew has its offsets loaded; one that is selected already has not.
pub proof fn a_selected_row_is_loaded_once(view: &mut ConsumersView, row: usize, load: bool)
    requires
        call_ensures(ConsumersView::select_row, (view, row), load),
    ensures
        row < old(view)@.rows.len() ==> final(view)@.selected_group == Some(old(view)@.rows[row as int].name),
        load <==> row < old(view)@.rows.len() && old(view)@.selected_group != final(view)@.selected_group,
        final(view)@.rows == old(view)@.rows,
{
}

/// The offsets that are loaded are those of the selected group, on each partition of the topic
/// that is shown; what was shown before goes.
pub proof fn offsets_are_loaded_of_the_selected_group(view: &mut ConsumersView, load: Option<OffsetsLoad>)
    requires
        call_ensures(ConsumersView::load_offsets, (view,), load),
    ensures
        load is Some <==> old(view)@.connected && old(view)@.topic is Some && old(view)@.selected_group is Some,
        load matches Some(l) ==> {
            &&& Some(l.group@) == old(view)@.selected_group && Some(l.topic) == old(view)@.topic
            &&& l.generation == old(view)@.generation
            &&& l.partitions@.len() == l.topic.partitions@.len()
            &&& forall|k: int|
                0 <= k < l.partitions@.len() ==> #[trigger] l.partitions@[k] == l.topic.partitions@[k].id
            &&& final(view)@.offset_rows.len() == 0 && final(view)@.total_lag is None
        },
{
}

/// Loading the groups begins where there is a connection and a topic, under a new number, so
/// that what an earlier load still brings does not count.
pub proof fn a_refresh_outdates_earlier_loads(view: &mut ConsumersView, load: Option<Refresh>)
    requires
        old(view)@.generation < u64::MAX,
        call_ensures(ConsumersView::refresh, (view,), load),
    ensures
        load is Some <==> old(view)@.connected && old(view)@.topic is Some,
        load matches Some(l) ==> {
            &&& l.generation == final(view)@.generation && l.generation != old(view)@.generation
            &&& Some(l.topic) == old(view)@.topic
            &&& l.include_inactive == old(view)@.include_inactive
            &&& final(view)@.loading
        },
        load is None ==> final(view)@ == old(view)@,
{
}

/// An idle group that has commits gets a row while its scan counts, and more answers are wanted
/// exactly as long.
pub proof fn a_scanned_group_with_commits_gets_a_row(
    view: &mut ConsumersView,
    refresh: &mut Refresh,
    name: &str,
    offsets: Vec<CommittedOffset>,
    more: bool,
)
    requires
        call_ensures(
            ConsumersView::on_scanned,
            (view, refresh, name, Ok::<Vec<CommittedOffset>, String>(offsets)),
            more,
        ),
        old(refresh).done < usize::MAX,
    ensures
        more <==> old(view)@.generation == old(refresh).generation,
        !more ==> final(view)@ == old(view)@,
        final(refresh).done == old(refresh).done + 1,
        more ==> (final(view)@.scan_progress matches Some((done, total)) && done == final(refresh).done && total
            == old(refresh).others@.len()),
        more && commit_count(offsets@) == 0 ==> final(view)@.rows == old(view)@.rows,
        more && commit_count(offsets@) > 0 && (exists|k: int|
            0 <= k < old(refresh).others@.len() && (#[trigger] row_views(old(refresh).others@)[k]).name == name@) ==> ({
            let row = final(view)@.rows.last();
            row.name == name@ && row.partitions == commit_count(offsets@) && !row.active
        }),
{
    assert(old(refresh).others@.len() == old(refresh).others.len());
    an_idle_group_with_commits_gets_a_row(
        row_views(old(refresh).rows@),
        row_views(old(refresh).others@),
        name@,
        commit_count(offsets@) as int,
    );
}

/// The cells of a group's row show its name, state, members and partitions.
pub proof fn cells_of_a_group_are_shown(row: &GroupRow, column: usize, text: String)
    requires
        call_ensures(GroupRow::text_for, (row, column), text),
    ensures
        column == 0 ==> text@ == row@.name,
        column == 1 && row@.active ==> text@ == row@.state,
        column == 2 ==> text@ == decimal(row@.members),
        column == 3 ==> text@ == decimal(row@.partitions),
{
}

/// The cells of a partition's row show its numbers, and a dash where there is no commit.
pub proof fn cells_of_a_partition_are_shown(row: &OffsetRow, column: usize, text: String)
    requires
        call_ensures(OffsetRow::text_for, (row, column), text),
    ensures
        column == 0 ==> text@ == decimal(row@.partition as int),
        column == 1 ==> text@ == decimal(row@.low as int),
        column == 2 ==> text@ == decimal(row@.high as int),
        column == 3 ==> (row@.committed matches Some(c) ==> text@ == decimal(c as int)),
        column == 3 && row@.committed is None ==> text@ == "-"@,
        column == 4 ==> (row@.lag.value matches Some(n) ==> (row@.lag.flag == LagFlag::Normal ==> text@ == decimal(
            n as int,
        ))),
{
}

/// Topics are the same where they have one name, and so are two views of no topic.
pub proof fn topics_are_the_same_by_name(a: &Option<Arc<TopicInfo>>, b: &Option<Arc<TopicInfo>>, same: bool)
    requires
        call_ensures(same_topic, (a, b), same),
    ensures
        a is Some && b is Some ==> (same <==> a->0.name@ == b->0.name@),
        a is Some != b is Some ==> !same,
        a is None && b is None ==> same,
{
}

/// A view that is shown reads its groups once, where it is on a topic, and the offsets of its
/// group once.
pub proof fn what_is_due_is_loaded_once(view: &mut ConsumersView, due: (bool, bool))
    requires
        call_ensures(ConsumersView::ensure_loaded, (view,), due),
    ensures
        due.0 <==> old(view)@.needs_refresh && old(view)@.topic is Some,
        due.1 <==> old(view)@.pending_offsets_load,
        old(view)@.topic is Some ==> !final(view)@.needs_refresh,
        !final(view)@.pending_offsets_load,
        final(view)@.rows == old(view)@.rows && final(view)@.selected_group == old(view)@.selected_group
            && final(view)@.generation == old(view)@.generation && final(view)@.topic == old(view)@.topic,
{
}

/// Idle groups are read where they are wanted, from the next time on.
pub proof fn idle_groups_are_wanted_from_then_on(view: &mut ConsumersView, wanted: bool)
    requires
        call_ensures(ConsumersView::set_include_inactive, (view, wanted), ()),
    ensures
        final(view)@.include_inactive == wanted,
        final(view)@.rows == old(view)@.rows && final(view)@.topic == old(view)@.topic && final(view)@.generation
            == old(view)@.generation,
{
}

/// The row that is marked is the first of the selected group.
pub proof fn the_marked_row_is_the_selected_group(view: &ConsumersView, row: Option<usize>)
    requires
        call_ensures(ConsumersView::selected_row, (view,), row),
    ensures
        row matches Some(i) ==> i < view@.rows.len() && view@.selected_group == Some(view@.rows[i as int].name),
        row is None ==> (view@.selected_group matches Some(name) ==> forall|k: int|
            0 <= k < view@.rows.len() ==> (#[trigger] view@.rows[k]).name != name),
        view@.selected_group is None ==> row is None,
{
    if let Some(name) = view@.selected_group {
        rows_are_found_by_name(view@.rows, name, 0);
    }
}

/// A scan that ends tells its failure, where it had one, and the first group is picked where
/// none is selected; a scan of an earlier refresh changes nothing.
pub proof fn an_ended_scan_tells_its_failure(
    view: &mut ConsumersView,
    refresh: &Refresh,
    outcome: Result<(), String>,
    pick_first: bool,
)
    requires
        call_ensures(ConsumersView::on_scan_done, (view, refresh, outcome, pick_first), ()),
    ensures
        old(view)@.generation != refresh.generation ==> final(view)@ == old(view)@,
        old(view)@.generation == refresh.generation ==> {
            &&& final(view)@.scan_progress is None
            &&& outcome matches Err(reason) ==> final(view)@.last_error == Some(reason@)
            &&& outcome is Ok ==> final(view)@.last_error == old(view)@.last_error
            &&& old(view)@.selected_group is Some || !pick_first ==> final(view)@.selected_group
                == old(view)@.selected_group
            &&& old(view)@.selected_group is None && pick_first && old(view)@.rows.len() > 0
                ==> final(view)@.selected_group == Some(old(view)@.rows[0].name) && final(view)@.pending_offsets_load
            &&& final(view)@.rows == old(view)@.rows
        },
{
}

/// The title of the offsets names the selected group, and behind it the total lag.
pub proof fn the_title_names_the_group(view: &ConsumersView, text: String)
    requires
        call_ensures(ConsumersView::offsets_title, (view,), text),
    ensures
        view@.selected_group matches Some(group) ==> text@.len() >= group.len() && text@.take(group.len() as int) == group,
        view@.selected_group matches Some(group) ==> (view@.total_lag is None ==> text@ == group),
        view@.selected_group is Some ==> (view@.total_lag matches Some(total) ==> crate::text::ends_with(
            text@,
            " "@ + decimal(total as int),
        )),
{
    if let Some(group) = view@.selected_group {
        assert(text@.take(group.len() as int) =~= group);
        if let Some(total) = view@.total_lag {
            reveal_strlit("  \u{b7}  total lag ");
            reveal_strlit(" ");
            let tail = " "@ + decimal(total as int);
            assert(text@.skip(text@.len() - tail.len()) =~= tail);
        }
    }
}

/// The status says what is being read and what failed; a view at rest says nothing.
pub proof fn the_status_of_a_view_at_rest_is_empty(view: &ConsumersView, text: String)
    requires
        call_ensures(ConsumersView::status_text, (view,), text),
    ensures
        !view@.loading && view@.scan_progress is None && view@.last_error is None ==> text@.len() == 0,
        view@.loading && view@.scan_progress is None && view@.last_error is None ==> text@ == "Loading groups"@,
        !view@.loading && view@.scan_progress is None ==> (view@.last_error matches Some(reason) ==> crate::text::ends_with(
            text@,
            reason,
        )),
        !view@.loading && view@.last_error is None ==> (view@.scan_progress matches Some((done, total))
            ==> crate::text::ends_with(text@, decimal(done as int) + "/"@ + decimal(total as int))),
{
    let state = view@;
    let parts = loading_part(state) + scan_part(state) + error_part(state);
    reveal_with_fuel(joined_with, 2);
    if parts.len() == 0 {
        assert(joined_with(parts, SEPARATOR@).len() == 0);
    }
    if parts.len() == 1 {
        assert(parts.drop_last() =~= Seq::empty());
        assert(text@ =~= parts[0]);
    }
    if !state.loading && state.scan_progress is None {
        if let Some(reason) = state.last_error {
            assert(parts =~= seq!["error: "@ + reason]);
            assert(text@.skip(text@.len() - reason.len()) =~= reason);
        }
    }
    if !state.loading && state.last_error is None {
        if let Some((done, total)) = state.scan_progress {
            let tail = decimal(done as int) + "/"@ + decimal(total as int);
            assert(parts.len() == 1);
            assert(text@ =~= "Scanning inactive groups "@ + tail);
            assert(text@.skip(text@.len() - tail.len()) =~= tail);
        }
    }
    if state.loading && state.scan_progress is None && state.last_error is None {
        assert(parts =~= seq!["Loading groups"@]);
    }
}

/// A member is named by its client and behind it, in brackets, by its host; a lag that is not a
/// plain one is marked with why.
pub proof fn members_and_lags_are_told(member: GroupMember, lag: Lag)
    ensures
        member_text(member) == member.client_id@ + " ("@ + member.client_host@ + ")"@,
        lag.value is None ==> lag_text(lag) == "-"@,
        lag.value matches Some(n) ==> (lag.flag == LagFlag::Reset ==> lag_text(lag) == decimal(n as int)
            + " (reset)"@),
        lag.value matches Some(n) ==> (lag.flag == LagFlag::Expired ==> lag_text(lag) == decimal(n as int)
            + " (expired)"@),
        lag.value matches Some(n) ==> (lag.flag == LagFlag::Normal ==> lag_text(lag) == decimal(n as int)),
{
}

} // verus!
