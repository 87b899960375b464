//! Asking many groups for their commits at once.

use vstd::prelude::*;

use crate::kafka::groups::{committed_offsets, CommittedOffset};
use crate::order::is_stable_sort;
use crate::text::{decimal, decimal_text, joined, joined3};

verus! {

/// How many requests are under way at once.
pub const SCAN_WINDOW: usize = 32;

/// A partition's commit as the cluster answers it.
#[derive(Debug, Clone, Copy, PartialEq, Eq, Structural)]
pub struct ListedOffset {
    pub partition: i32,
    pub failed: bool,
    pub offset: i64,
}

/// What the cluster answers for a group.
pub struct ListedOffsets {
    pub name: String,
    pub error: Option<String>,
    pub offsets: Vec<ListedOffset>,
}

/// An answer of the admin client.
pub struct AdminReply {
    /// The number of the event's type.
    pub event_type: i32,
    /// The number that the type of this answer has.
    pub wanted_type: i32,
    pub error: Option<String>,
    pub group: Option<ListedOffsets>,
}

/// The commit of a partition: none where there is an error or no offset.
pub open spec fn commit_of(listed: ListedOffset) -> CommittedOffset {
    CommittedOffset {
        partition: listed.partition,
        committed: if !listed.failed && listed.offset >= 0 {
            Some(listed.offset)
        } else {
            None
        },
    }
}

pub open spec fn commits_of(listed: Seq<ListedOffset>) -> Seq<CommittedOffset> {
    listed.map_values(|l: ListedOffset| commit_of(l))
}

fn read_commits(listed: &Vec<ListedOffset>) -> (commits: Vec<CommittedOffset>)
    ensures
        is_stable_sort(commits_of(listed@), commits@),
{
    let mut commits: Vec<CommittedOffset> = Vec::new();
    let mut i: usize = 0;
    while i < listed.len()
        invariant
            i <= listed@.len(),
            commits@ == commits_of(listed@).take(i as int),
        decreases listed.len() - i,
    {
        let item: ListedOffset = listed[i];
        let commit = CommittedOffset {
            partition: item.partition,
            committed: if !item.failed && item.offset >= 0 { Some(item.offset) } else { None },
        };
        assert(commits_of(listed@).take(i + 1) =~= commits@.push(commit));
        commits.push(commit);
        i = i + 1;
    }
    assert(commits@ =~= commits_of(listed@));
    committed_offsets(commits)
}

/// What is wrong with an answer as a whole, where something is.
pub open spec fn reply_failure(reply: AdminReply) -> Option<Seq<char>> {
    if reply.event_type != reply.wanted_type {
        Some("unexpected admin event type "@ + decimal(reply.event_type as int))
    } else {
        match reply.error {
            Some(message) => Some("ListConsumerGroupOffsets: "@ + message@),
            None => match reply.group {
                Some(_) => None,
                None => Some("ListConsumerGroupOffsets result has no group"@),
            },
        }
    }
}

/// Reads an answer: the group with its commits by partition, or with its own error, or
/// what is wrong with the answer as a whole.
pub fn parse_event(reply: AdminReply) -> (outcome: Result<(String, Result<Vec<CommittedOffset>, String>), String>)
    ensures
        match outcome {
            Err(message) => reply_failure(reply) == Some(message@),
            Ok((name, commits)) => {
                &&& reply_failure(reply) is None
                &&& name == reply.group->0.name
                &&& match commits {
                    Ok(list) => reply.group->0.error is None && is_stable_sort(
                        commits_of(reply.group->0.offsets@),
                        list@,
                    ),
                    Err(message) => reply.group->0.error matches Some(e) && message == e,
                }
            },
        },
{
    let AdminReply { event_type, wanted_type, error, group } = reply;
    if event_type != wanted_type {
        return Err(joined("unexpected admin event type ", &decimal_text(event_type as i128)));
    }
    match error {
        Some(message) => {
            return Err(joined("ListConsumerGroupOffsets: ", &message));
        },
        None => {},
    }
    match group {
        None => Err("ListConsumerGroupOffsets result has no group".to_owned()),
        Some(listed) => {
            let ListedOffsets { name, error, offsets } = listed;
            match error {
                Some(message) => Ok((name, Err(message))),
                None => Ok((name, Ok(read_commits(&offsets)))),
            }
        },
    }
}

/// What is reported of a group that does not answer.
pub fn timeout_message(group: &str) -> (message: String)
    ensures
        message@ == "ListConsumerGroupOffsets timed out for group "@ + group@,
{
    joined("ListConsumerGroupOffsets timed out for group ", group)
}

// ---- a scan over many groups ----

/// What a scan waits for.
#[derive(Debug, Clone, Copy, PartialEq, Eq, Structural)]
pub enum ScanPhase {
    /// A request is being queued.
    Enqueuing,
    /// A group that could not be asked is reported.
    ReportingFailure,
    /// The clock of a window is set.
    StartingClock,
    Waiting,
    /// An answer is reported.
    Reporting,
    Done,
}

/// What has happened to a scan.
#[derive(Debug, Clone, Copy, PartialEq, Eq, Structural)]
pub enum ScanEvent {
    Enqueued,
    NotEnqueued,
    /// The listener took a report and wants more.
    Taken,
    /// The listener wants no more.
    Refused,
    ClockStarted,
    Expired,
    NoReply,
    Reply,
    BadReply,
}

/// What a scan does next.
#[derive(Debug, PartialEq, Eq)]
pub enum ScanAction {
    /// Ask the group at this place.
    Enqueue(usize),
    /// Report that the group at this place could not be asked.
    ReportFailure(usize),
    StartClock,
    Wait,
    Report,
    Finish,
    Fail(String),
}

/// What a scan does next, as values.
pub enum ScanActionView {
    Enqueue(int),
    ReportFailure(int),
    StartClock,
    Wait,
    Report,
    Finish,
    Fail(Seq<char>),
}

impl View for ScanAction {
    type V = ScanActionView;

    open spec fn view(&self) -> ScanActionView {
        match self {
            ScanAction::Enqueue(i) => ScanActionView::Enqueue(*i as int),
            ScanAction::ReportFailure(i) => ScanActionView::ReportFailure(*i as int),
            ScanAction::StartClock => ScanActionView::StartClock,
            ScanAction::Wait => ScanActionView::Wait,
            ScanAction::Report => ScanActionView::Report,
            ScanAction::Finish => ScanActionView::Finish,
            ScanAction::Fail(message) => ScanActionView::Fail(message@),
        }
    }
}

/// A scan: which groups were asked, where the window ends, and how many have not
/// answered.
#[derive(Debug, Clone, Copy, PartialEq, Eq, Structural)]
pub struct GroupScan {
    pub groups: usize,
    pub next: usize,
    pub window_end: usize,
    pub pending: usize,
    pub phase: ScanPhase,
}

pub open spec fn scan_expected(phase: ScanPhase, event: ScanEvent) -> bool {
    match phase {
        ScanPhase::Enqueuing => event == ScanEvent::Enqueued || event == ScanEvent::NotEnqueued,
        ScanPhase::ReportingFailure | ScanPhase::Reporting => event == ScanEvent::Taken || event == ScanEvent::Refused,
        ScanPhase::StartingClock => event == ScanEvent::ClockStarted,
        ScanPhase::Waiting => event == ScanEvent::Expired || event == ScanEvent::NoReply || event == ScanEvent::Reply
            || event == ScanEvent::BadReply,
        ScanPhase::Done => false,
    }
}

/// The end of the window that starts at a place.
pub open spec fn window_from(groups: int, start: int) -> int {
    if groups - start <= SCAN_WINDOW {
        groups
    } else {
        start + SCAN_WINDOW
    }
}

pub open spec fn scan_in(scan: GroupScan, phase: ScanPhase) -> GroupScan {
    GroupScan { phase, ..scan }
}

/// A scan between two requests of a window: the next one is queued, or the answers are
/// awaited.
pub open spec fn in_window(scan: GroupScan) -> (GroupScan, ScanActionView) {
    if scan.next < scan.window_end {
        (scan_in(scan, ScanPhase::Enqueuing), ScanActionView::Enqueue(scan.next as int))
    } else {
        (scan_in(scan, ScanPhase::StartingClock), ScanActionView::StartClock)
    }
}

/// A scan that waits for answers. When none is missing, the next window begins.
pub open spec fn awaiting(scan: GroupScan) -> (GroupScan, ScanActionView) {
    if scan.pending > 0 {
        (scan_in(scan, ScanPhase::Waiting), ScanActionView::Wait)
    } else if scan.next < scan.groups {
        in_window(GroupScan { window_end: window_from(scan.groups as int, scan.next as int) as usize, ..scan })
    } else {
        (scan_in(scan, ScanPhase::Done), ScanActionView::Finish)
    }
}

/// The next state of a scan, and what it does.
pub open spec fn next_scan(scan: GroupScan, event: ScanEvent) -> (GroupScan, ScanActionView) {
    match event {
        ScanEvent::Enqueued => in_window(
            GroupScan { next: (scan.next + 1) as usize, pending: (scan.pending + 1) as usize, ..scan },
        ),
        ScanEvent::NotEnqueued => (
            GroupScan { next: (scan.next + 1) as usize, ..scan_in(scan, ScanPhase::ReportingFailure) },
            ScanActionView::ReportFailure(scan.next as int),
        ),
        ScanEvent::Taken => if scan.phase == ScanPhase::ReportingFailure {
            in_window(scan)
        } else {
            awaiting(scan)
        },
        ScanEvent::Refused => (scan_in(scan, ScanPhase::Done), ScanActionView::Finish),
        ScanEvent::ClockStarted => awaiting(scan),
        ScanEvent::Expired => (
            scan_in(scan, ScanPhase::Done),
            ScanActionView::Fail(
                "group offset scan timed out with "@ + decimal(scan.pending as int) + " requests pending"@,
            ),
        ),
        ScanEvent::NoReply => awaiting(scan),
        ScanEvent::Reply => (
            GroupScan { pending: (scan.pending - 1) as usize, ..scan_in(scan, ScanPhase::Reporting) },
            ScanActionView::Report,
        ),
        ScanEvent::BadReply => awaiting(GroupScan { pending: (scan.pending - 1) as usize, ..scan }),
    }
}

/// What holds of a scan at all times: the place is in the window, the window is no
/// wider than allowed, and only groups of the window can still answer.
pub open spec fn scan_ok(scan: GroupScan) -> bool {
    &&& scan.next <= scan.window_end <= scan.groups
    &&& scan.pending + (scan.window_end - scan.next) <= SCAN_WINDOW
    &&& scan.phase == ScanPhase::Enqueuing ==> scan.next < scan.window_end
    &&& scan.phase == ScanPhase::Waiting ==> scan.pending > 0
    &&& (scan.phase == ScanPhase::StartingClock || scan.phase == ScanPhase::Waiting || scan.phase
        == ScanPhase::Reporting) ==> scan.next == scan.window_end
}

impl GroupScan {
    /// A scan over a number of groups.
    pub fn new(groups: usize) -> (first: (Self, ScanAction))
        ensures
            scan_ok(first.0),
            (first.0, first.1@) == awaiting(
                (GroupScan { groups, next: 0, window_end: 0, pending: 0, phase: ScanPhase::StartingClock }),
            ),
    {
        let mut scan = GroupScan { groups, next: 0, window_end: 0, pending: 0, phase: ScanPhase::StartingClock };
        let action = scan.wait();
        (scan, action)
    }

    fn in_window(&mut self) -> (action: ScanAction)
        ensures
            (*final(self), action@) == in_window(*old(self)),
    {
        if self.next < self.window_end {
            self.phase = ScanPhase::Enqueuing;
            ScanAction::Enqueue(self.next)
        } else {
            self.phase = ScanPhase::StartingClock;
            ScanAction::StartClock
        }
    }

    fn wait(&mut self) -> (action: ScanAction)
        requires
            old(self).next <= old(self).groups,
        ensures
            (*final(self), action@) == awaiting(*old(self)),
    {
        if self.pending > 0 {
            self.phase = ScanPhase::Waiting;
            ScanAction::Wait
        } else if self.next < self.groups {
            self.window_end = if self.groups - self.next <= SCAN_WINDOW { self.groups } else { self.next + SCAN_WINDOW };
            self.in_window()
        } else {
            self.phase = ScanPhase::Done;
            ScanAction::Finish
        }
    }

    /// One step of the scan.
    pub fn step(&mut self, event: ScanEvent) -> (action: ScanAction)
        requires
            scan_ok(*old(self)),
            scan_expected(old(self).phase, event),
        ensures
            scan_ok(*final(self)),
            (*final(self), action@) == next_scan(*old(self), event),
    {
        match event {
            ScanEvent::Enqueued => {
                self.next = self.next + 1;
                self.pending = self.pending + 1;
                self.in_window()
            },
            ScanEvent::NotEnqueued => {
                let failed: usize = self.next;
                self.next = self.next + 1;
                self.phase = ScanPhase::ReportingFailure;
                ScanAction::ReportFailure(failed)
            },
            ScanEvent::Taken => {
                if self.phase == ScanPhase::ReportingFailure {
                    self.in_window()
                } else {
                    self.wait()
                }
            },
            ScanEvent::Refused => {
                self.phase = ScanPhase::Done;
                ScanAction::Finish
            },
            ScanEvent::ClockStarted => self.wait(),
            ScanEvent::Expired => {
                self.phase = ScanPhase::Done;
                ScanAction::Fail(
                    joined3(
                        "group offset scan timed out with ",
                        &decimal_text(self.pending as i128),
                        " requests pending",
                    ),
                )
            },
            ScanEvent::NoReply => self.wait(),
            ScanEvent::Reply => {
                self.pending = self.pending - 1;
                self.phase = ScanPhase::Reporting;
                ScanAction::Report
            },
            ScanEvent::BadReply => {
                self.pending = self.pending - 1;
                self.wait()
            },
        }
    }
}

/// Never more requests are under way than the window is wide.
pub proof fn the_window_bounds_the_requests(scan: GroupScan, event: ScanEvent)
    requires
        scan_ok(scan),
        scan_expected(scan.phase, event),
    ensures
        scan_ok(next_scan(scan, event).0),
        next_scan(scan, event).0.pending <= SCAN_WINDOW,
{
}

/// Groups are asked one after the other: each that is asked is the next one, and the
/// place moves on by one exactly when a group was asked or could not be.
pub proof fn groups_are_asked_in_order(scan: GroupScan, event: ScanEvent)
    requires
        scan_ok(scan),
        scan_expected(scan.phase, event),
    ensures
        next_scan(scan, event).1 matches ScanActionView::Enqueue(i) ==> i == next_scan(scan, event).0.next
            && next_scan(scan, event).0.phase == ScanPhase::Enqueuing,
        next_scan(scan, event).0.next == scan.next + (if event == ScanEvent::Enqueued || event
            == ScanEvent::NotEnqueued {
            1int
        } else {
            0int
        }),
{
}

/// A scan that ends without being refused or late has asked every group and has every
/// answer.
pub proof fn a_finished_scan_is_complete(scan: GroupScan, event: ScanEvent)
    requires
        scan_ok(scan),
        scan_expected(scan.phase, event),
        next_scan(scan, event).1 is Finish,
        event != ScanEvent::Refused,
    ensures
        next_scan(scan, event).0.next == scan.groups,
        next_scan(scan, event).0.pending == 0,
{
}

/// A partition has the commit that the cluster tells, and none where the cluster tells an
/// error or no offset.
pub proof fn commits_are_those_that_are_told(listed: ListedOffset)
    ensures
        commit_of(listed).partition == listed.partition,
        commit_of(listed).committed matches Some(n) ==> n == listed.offset,
        commit_of(listed).committed is None <==> listed.failed || listed.offset < 0,
{
}

/// A scan ends only where its listener wants no more, where the answers are late, or where
/// every group was asked and has answered.
pub proof fn a_scan_ends_for_a_reason(scan: GroupScan, event: ScanEvent)
    requires
        scan_ok(scan),
        scan_expected(scan.phase, event),
    ensures
        ({
            let (after, action) = next_scan(scan, event);
            &&& after.phase is Done <==> (action is Finish || action is Fail)
            &&& action is Fail <==> event is Expired
            &&& after.phase is Done ==> event is Refused || event is Expired || (after.next == scan.groups
                && after.pending == 0)
            &&& event is Refused ==> after.phase is Done
        }),
{
}

/// Each answer is reported, and so is each group that could not be asked; an answer that
/// cannot be read counts, but is not reported.
pub proof fn each_answer_is_reported(scan: GroupScan, event: ScanEvent)
    requires
        scan_ok(scan),
        scan_expected(scan.phase, event),
    ensures
        ({
            let (after, action) = next_scan(scan, event);
            &&& action is Report <==> event is Reply
            &&& action is ReportFailure <==> event is NotEnqueued
            &&& action matches ScanActionView::ReportFailure(place) ==> place == scan.next
            &&& after.pending == scan.pending + (if event is Enqueued {
                1int
            } else if event is Reply || event is BadReply {
                -1
            } else {
                0
            })
            &&& after.groups == scan.groups
        }),
{
}

/// A scan that is not over asks the next group of its window, waits while answers are
/// missing, and begins a new window of as many groups as are allowed when none is missing.
pub proof fn a_scan_goes_on(scan: GroupScan, event: ScanEvent)
    requires
        scan_ok(scan),
        scan_expected(scan.phase, event),
        event is Taken || event is ClockStarted || event is NoReply || event is BadReply,
        scan.phase != ScanPhase::ReportingFailure,
    ensures
        ({
            let (after, action) = next_scan(scan, event);
            &&& after.pending > 0 ==> action is Wait && after.phase is Waiting && after.window_end == scan.window_end
            &&& after.pending == 0 && scan.next < scan.groups ==> action == ScanActionView::Enqueue(scan.next as int)
                && (after.window_end == scan.groups || after.window_end == scan.next + 32)
                && after.window_end - scan.next <= 32
        }),
{
}

/// Behind a group that was asked, or that could not be, the next one of the window is asked;
/// behind the last one the clock is set.
pub proof fn a_window_is_asked_to_its_end(scan: GroupScan, event: ScanEvent)
    requires
        scan_ok(scan),
        scan_expected(scan.phase, event),
        event is Enqueued || (event is Taken && scan.phase == ScanPhase::ReportingFailure),
    ensures
        ({
            let (after, action) = next_scan(scan, event);
            if after.next < after.window_end {
                action == ScanActionView::Enqueue(after.next as int) && after.phase is Enqueuing
            } else {
                action is StartClock && after.phase is StartingClock
            }
        }),
{
}

/// An answer gives the commits of its group by partition, as many as it lists; a failure of the
/// group is told as one, and where there is no answer there are no commits.
pub proof fn an_answer_gives_the_commits_of_its_group(
    reply: AdminReply,
    outcome: Result<(String, Result<Vec<CommittedOffset>, String>), String>,
)
    requires
        call_ensures(parse_event, (reply,), outcome),
        reply.group is Some ==> reply.group->0.offsets@.len() <= usize::MAX,
    ensures
        outcome matches Ok((name, commits)) ==> reply.group is Some && name == reply.group->0.name && (commits is Ok
            <==> reply.group->0.error is None),
        outcome matches Ok((name, commits)) ==> (commits matches Ok(list) ==> list@.len()
            == reply.group->0.offsets@.len() && forall|i: int, j: int|
            #![trigger list@[i], list@[j]]
            0 <= i < j < list@.len() ==> list@[i].partition <= list@[j].partition),
        outcome matches Ok((name, commits)) ==> (commits matches Ok(list) ==> forall|k: int|
            #![trigger reply.group->0.offsets@[k]]
            0 <= k < reply.group->0.offsets@.len() ==> list@.contains(commit_of(reply.group->0.offsets@[k]))),
        reply.group is None ==> outcome is Err,
{
    if let Ok((name, commits)) = outcome {
        if let Ok(list) = commits {
            let listed = reply.group->0.offsets@;
            each_offset_is_a_commit(listed);
            crate::kafka::groups::commits_are_shown_in_order(commits_of(listed), list@);
            assert forall|k: int| #![trigger listed[k]] 0 <= k < listed.len() implies list@.contains(commit_of(listed[k])) by {
                assert(list@.contains(commits_of(listed)[k]));
            }
        }
    }
}

proof fn each_offset_is_a_commit(listed: Seq<ListedOffset>)
    ensures
        commits_of(listed).len() == listed.len(),
        forall|k: int| 0 <= k < listed.len() ==> #[trigger] commits_of(listed)[k] == commit_of(listed[k]),
{
}

/// An answer that is none is refused with what is wrong about it.
pub proof fn a_refused_answer_is_told_why(
    reply: AdminReply,
    outcome: Result<(String, Result<Vec<CommittedOffset>, String>), String>,
    group: &str,
    late: String,
)
    requires
        call_ensures(parse_event, (reply,), outcome),
        call_ensures(timeout_message, (group,), late),
    ensures
        outcome is Ok <==> reply.event_type == reply.wanted_type && reply.error is None && reply.group is Some,
        reply.event_type != reply.wanted_type ==> (outcome matches Err(message) && message@
            == "unexpected admin event type "@ + decimal(reply.event_type as int)),
        reply.event_type == reply.wanted_type ==> (reply.error matches Some(reason) ==> (outcome matches Err(message)
            && crate::text::ends_with(message@, ": "@ + reason@))),
        crate::text::ends_with(late@, " "@ + group@),
{
    if reply.event_type == reply.wanted_type {
        if let Some(reason) = reply.error {
            reveal_strlit("ListConsumerGroupOffsets: ");
            reveal_strlit(": ");
            let text = "ListConsumerGroupOffsets: "@ + reason@;
            let tail = ": "@ + reason@;
            assert(text.skip(text.len() - tail.len()) =~= tail);
        }
    }
    reveal_strlit("ListConsumerGroupOffsets timed out for group ");
    reveal_strlit(" ");
    let tail = " "@ + group@;
    assert(late@.skip(late@.len() - tail.len()) =~= tail);
}

} // verus!
