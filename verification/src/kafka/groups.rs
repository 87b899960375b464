//! Consumer groups, their members and their commits.

use vstd::prelude::*;

use crate::kafka::metadata::{number_rank, numbers_rank_by_size};
use crate::model::assignment::{
    assignment_views, decode_assignment, decoded, AssignmentView, TopicAssignment,
};
use crate::order::{
    a_sorted_row_rearranges, is_not_after, is_stable_sort, precedes, sort_by_rank, text_precedes, text_rank,
    texts_rank_by_their_characters, Ranked,
};
use crate::text::{chars_of, same_text};

verus! {

#[derive(Debug, PartialEq, Eq)]
pub struct GroupMember {
    pub member_id: String,
    pub client_id: String,
    pub client_host: String,
    pub assignment: Vec<TopicAssignment>,
}

#[derive(Debug, PartialEq, Eq)]
pub struct GroupSummary {
    pub name: String,
    pub state: String,
    pub protocol_type: String,
    pub protocol: String,
    pub members: Vec<GroupMember>,
}

#[derive(Debug, Clone, Copy, PartialEq, Eq, Structural)]
pub struct CommittedOffset {
    pub partition: i32,
    pub committed: Option<i64>,
}

impl Ranked for GroupSummary {
    open spec fn rank(&self) -> Seq<int> {
        text_rank(self.name@)
    }

    fn ranks_before(&self, other: &Self) -> (before: bool) {
        text_precedes(&chars_of(&self.name), &chars_of(&other.name))
    }
}

impl Ranked for CommittedOffset {
    open spec fn rank(&self) -> Seq<int> {
        number_rank(self.partition as int)
    }

    fn ranks_before(&self, other: &Self) -> (before: bool) {
        proof {
            numbers_rank_by_size(self.partition as int, other.partition as int);
        }
        self.partition < other.partition
    }
}

/// A partition, with the place of the member that reads it.
#[derive(Debug, Clone, Copy)]
pub struct Placed {
    pub partition: i32,
    pub member: usize,
}

impl Ranked for Placed {
    open spec fn rank(&self) -> Seq<int> {
        number_rank(self.partition as int)
    }

    fn ranks_before(&self, other: &Self) -> (before: bool) {
        proof {
            numbers_rank_by_size(self.partition as int, other.partition as int);
        }
        self.partition < other.partition
    }
}

/// Partitions of one member.
pub open spec fn placed_all(partitions: Seq<i32>, member: int) -> Seq<Placed> {
    partitions.map_values(|p: i32| Placed { partition: p, member: member as usize })
}

/// The partitions of a topic in the first assignments of a member.
pub open spec fn placed_in(assignment: Seq<TopicAssignment>, topic: Seq<char>, member: int) -> Seq<Placed>
    decreases assignment.len(),
{
    if assignment.len() == 0 {
        Seq::empty()
    } else {
        placed_in(assignment.drop_last(), topic, member) + if assignment.last().topic@ == topic {
            placed_all(assignment.last().partitions@, member)
        } else {
            Seq::empty()
        }
    }
}

/// The partitions of a topic that the first members read, in the members' order.
pub open spec fn placed_among(members: Seq<GroupMember>, topic: Seq<char>) -> Seq<Placed>
    decreases members.len(),
{
    if members.len() == 0 {
        Seq::empty()
    } else {
        placed_among(members.drop_last(), topic) + placed_in(
            members.last().assignment@,
            topic,
            members.len() - 1,
        )
    }
}

/// Whether a member reads at least one partition of a topic.
pub open spec fn member_reads(member: GroupMember, topic: Seq<char>) -> bool {
    exists|i: int|
        0 <= i < member.assignment@.len() && (#[trigger] member.assignment@[i]).topic@ == topic
            && member.assignment@[i].partitions@.len() > 0
}

fn placed_of(member: &GroupMember, topic: &str, place: usize) -> (placed: Vec<Placed>)
    ensures
        placed@ == placed_in(member.assignment@, topic@, place as int),
{
    let mut placed: Vec<Placed> = Vec::new();
    let mut i: usize = 0;
    let ghost list = member.assignment@;
    assert(list.take(0) =~= Seq::empty());
    while i < member.assignment.len()
        invariant
            i <= list.len(),
            list == member.assignment@,
            placed@ == placed_in(list.take(i as int), topic@, place as int),
        decreases list.len() - i,
    {
        let entry = &member.assignment[i];
        let ghost before = placed@;
        assert(list.take(i + 1).drop_last() =~= list.take(i as int));
        if same_text(&entry.topic, topic) {
            let ghost all = placed_all(entry.partitions@, place as int);
            let mut k: usize = 0;
            assert(before + all.take(0) =~= before);
            while k < entry.partitions.len()
                invariant
                    k <= entry.partitions@.len(),
                    all == placed_all(entry.partitions@, place as int),
                    placed@ == before + all.take(k as int),
                decreases entry.partitions.len() - k,
            {
                let item = Placed { partition: entry.partitions[k], member: place };
                assert(all.take(k + 1) =~= all.take(k as int).push(item));
                assert(before + all.take(k + 1) =~= (before + all.take(k as int)).push(item));
                placed.push(item);
                k = k + 1;
            }
            assert(all.take(k as int) =~= all);
        } else {
            assert(before + Seq::<Placed>::empty() =~= before);
        }
        i = i + 1;
    }
    assert(list.take(i as int) =~= list);
    placed
}

proof fn placed_members_exist(members: Seq<GroupMember>, topic: Seq<char>, i: int)
    requires
        0 <= i < placed_among(members, topic).len(),
        members.len() <= usize::MAX,
    ensures
        placed_among(members, topic)[i].member < members.len(),
    decreases members.len(),
{
    if members.len() > 0 {
        let before = placed_among(members.drop_last(), topic);
        if i < before.len() {
            placed_members_exist(members.drop_last(), topic, i);
        } else {
            placed_of_one_member(members.last().assignment@, topic, members.len() - 1, i - before.len());
        }
    }
}

proof fn placed_of_one_member(assignment: Seq<TopicAssignment>, topic: Seq<char>, member: int, i: int)
    requires
        0 <= i < placed_in(assignment, topic, member).len(),
        0 <= member <= usize::MAX,
    ensures
        placed_in(assignment, topic, member)[i].member == member,
    decreases assignment.len(),
{
    if assignment.len() > 0 {
        let before = placed_in(assignment.drop_last(), topic, member);
        if i < before.len() {
            placed_of_one_member(assignment.drop_last(), topic, member, i);
        }
    }
}

/// Whether a list shows partitions with their members.
pub open spec fn shows_placed(list: Seq<(i32, &GroupMember)>, placed: Seq<Placed>, members: Seq<GroupMember>) -> bool {
    &&& list.len() == placed.len()
    &&& forall|i: int|
        0 <= i < list.len() ==> (#[trigger] list[i]).0 == placed[i].partition && placed[i].member < members.len()
            && *list[i].1 == members[placed[i].member as int]
}

impl GroupSummary {
    /// The partitions of a topic that the group reads, by number, each with the member
    /// that reads it.
    pub fn partitions_of(&self, topic: &str) -> (list: Vec<(i32, &GroupMember)>)
        ensures
            exists|sorted: Seq<Placed>|
                #[trigger] is_stable_sort(placed_among(self.members@, topic@), sorted) && shows_placed(
                    list@,
                    sorted,
                    self.members@,
                ),
    {
        let ghost members = self.members@;
        let mut placed: Vec<Placed> = Vec::new();
        let mut i: usize = 0;
        assert(members.take(0) =~= Seq::empty());
        while i < self.members.len()
            invariant
                i <= members.len(),
                members == self.members@,
                placed@ == placed_among(members.take(i as int), topic@),
            decreases members.len() - i,
        {
            assert(members.take(i + 1).drop_last() =~= members.take(i as int));
            let mut more = placed_of(&self.members[i], topic, i);
            placed.append(&mut more);
            i = i + 1;
        }
        assert(members.take(i as int) =~= members);
        let ghost all = placed@;
        let sorted = sort_by_rank(placed);
        let ghost order = choose|order: Seq<usize>|
            #[trigger] crate::order::is_stable_order(all, order) && sorted@ == crate::order::arranged(all, order);
        proof {
            assert(members.len() <= usize::MAX) by {
                assert(members.len() == self.members.len());
            }
            assert forall|k: int| 0 <= k < sorted@.len() implies (#[trigger] sorted@[k]).member < members.len() by {
                assert(sorted@[k] == all[order[k] as int]);
                placed_members_exist(members, topic@, order[k] as int);
            }
        }
        let mut list: Vec<(i32, &GroupMember)> = Vec::new();
        let mut k: usize = 0;
        while k < sorted.len()
            invariant
                k <= sorted@.len(),
                members == self.members@,
                forall|j: int| 0 <= j < sorted@.len() ==> (#[trigger] sorted@[j]).member < members.len(),
                list@.len() == k,
                forall|j: int|
                    0 <= j < k ==> (#[trigger] list@[j]).0 == sorted@[j].partition && *list@[j].1
                        == members[sorted@[j].member as int],
            decreases sorted.len() - k,
        {
            let item: Placed = sorted[k];
            assert(sorted@[k as int].member < members.len());
            list.push((item.partition, &self.members[item.member]));
            k = k + 1;
        }
        assert(shows_placed(list@, sorted@, self.members@));
        list
    }

    /// Whether some member reads at least one partition of a topic.
    pub fn consumes(&self, topic: &str) -> (reads: bool)
        ensures
            reads == exists|i: int| 0 <= i < self.members@.len() && member_reads(#[trigger] self.members@[i], topic@),
    {
        let mut i: usize = 0;
        while i < self.members.len()
            invariant
                i <= self.members@.len(),
                forall|k: int| 0 <= k < i ==> !member_reads(#[trigger] self.members@[k], topic@),
            decreases self.members.len() - i,
        {
            let member = &self.members[i];
            let mut k: usize = 0;
            while k < member.assignment.len()
                invariant
                    i < self.members@.len(),
                    *member == self.members@[i as int],
                    k <= member.assignment@.len(),
                    forall|j: int|
                        0 <= j < k ==> !((#[trigger] member.assignment@[j]).topic@ == topic@
                            && member.assignment@[j].partitions@.len() > 0),
                decreases member.assignment.len() - k,
            {
                if same_text(&member.assignment[k].topic, topic) && member.assignment[k].partitions.len() > 0 {
                    assert(member_reads(self.members@[i as int], topic@));
                    return true;
                }
                k = k + 1;
            }
            i = i + 1;
        }
        false
    }
}

/// A group consumes a topic exactly where some of the topic's partitions are placed.
pub proof fn consuming_groups_have_partitions(members: Seq<GroupMember>, topic: Seq<char>)
    ensures
        (exists|i: int| 0 <= i < members.len() && member_reads(#[trigger] members[i], topic)) <==> placed_among(
            members,
            topic,
        ).len() > 0,
    decreases members.len(),
{
    if members.len() > 0 {
        let rest = members.drop_last();
        consuming_groups_have_partitions(rest, topic);
        reading_members_have_partitions(members.last().assignment@, topic, members.len() - 1);
        if exists|i: int| 0 <= i < members.len() && member_reads(#[trigger] members[i], topic) {
            let i = choose|i: int| 0 <= i < members.len() && member_reads(#[trigger] members[i], topic);
            if i < rest.len() {
                assert(member_reads(rest[i], topic));
            } else {
                let m = members.last();
                let k = choose|k: int|
                    0 <= k < m.assignment@.len() && (#[trigger] m.assignment@[k]).topic@ == topic
                        && m.assignment@[k].partitions@.len() > 0;
                assert(m.assignment@[k].topic@ == topic);
            }
        }
        if placed_among(rest, topic).len() > 0 {
            let i = choose|i: int| 0 <= i < rest.len() && member_reads(#[trigger] rest[i], topic);
            assert(member_reads(members[i], topic));
        }
        if placed_in(members.last().assignment@, topic, members.len() - 1).len() > 0 {
            assert(member_reads(members[members.len() - 1], topic));
        }
    }
}

proof fn reading_members_have_partitions(assignment: Seq<TopicAssignment>, topic: Seq<char>, member: int)
    ensures
        (exists|i: int|
            0 <= i < assignment.len() && (#[trigger] assignment[i]).topic@ == topic && assignment[i].partitions@.len()
                > 0) <==> placed_in(assignment, topic, member).len() > 0,
    decreases assignment.len(),
{
    if assignment.len() > 0 {
        let rest = assignment.drop_last();
        reading_members_have_partitions(rest, topic, member);
        if exists|i: int|
            0 <= i < assignment.len() && (#[trigger] assignment[i]).topic@ == topic && assignment[i].partitions@.len() > 0 {
            let i = choose|i: int|
                0 <= i < assignment.len() && (#[trigger] assignment[i]).topic@ == topic
                    && assignment[i].partitions@.len() > 0;
            if i < rest.len() {
                assert(rest[i].topic@ == topic);
            }
        }
        if placed_in(rest, topic, member).len() > 0 {
            let i = choose|i: int|
                0 <= i < rest.len() && (#[trigger] rest[i]).topic@ == topic && rest[i].partitions@.len() > 0;
            assert(assignment[i].topic@ == topic);
        }
        if assignment.last().topic@ == topic && assignment.last().partitions@.len() > 0 {
            assert(assignment[assignment.len() - 1].topic@ == topic);
        }
    }
}

// ---- from the cluster's answers ----

/// A member as the cluster lists it, with its assignment in bytes.
pub struct ListedMember {
    pub member_id: String,
    pub client_id: String,
    pub client_host: String,
    pub assignment: Option<Vec<u8>>,
}

/// A group as the cluster lists it.
pub struct ListedGroup {
    pub name: String,
    pub state: String,
    pub protocol_type: String,
    pub protocol: String,
    pub members: Vec<ListedMember>,
}

/// The topics in a member's bytes; bytes that cannot be read hold none.
pub open spec fn assignment_in(bytes: Option<Vec<u8>>) -> Seq<AssignmentView> {
    match bytes {
        Some(b) => match decoded(b@) {
            Ok(topics) => topics,
            Err(_) => Seq::empty(),
        },
        None => Seq::empty(),
    }
}

pub open spec fn member_shows(member: GroupMember, listed: ListedMember) -> bool {
    &&& member.member_id == listed.member_id
    &&& member.client_id == listed.client_id
    &&& member.client_host == listed.client_host
    &&& assignment_views(member.assignment@) == assignment_in(listed.assignment)
}

pub open spec fn group_shows(group: GroupSummary, listed: ListedGroup) -> bool {
    &&& group.name == listed.name
    &&& group.state == listed.state
    &&& group.protocol_type == listed.protocol_type
    &&& group.protocol == listed.protocol
    &&& group.members@.len() == listed.members@.len()
    &&& forall|i: int|
        0 <= i < group.members@.len() ==> member_shows(#[trigger] group.members@[i], listed.members@[i])
}

fn member_of(listed: ListedMember) -> (member: GroupMember)
    ensures
        member_shows(member, listed),
{
    let ListedMember { member_id, client_id, client_host, assignment } = listed;
    let topics: Vec<TopicAssignment> = match assignment {
        Some(bytes) => match decode_assignment(bytes.as_slice()) {
            Ok(topics) => topics,
            Err(_) => Vec::new(),
        },
        None => Vec::new(),
    };
    assert(assignment_views(topics@) =~= assignment_in(assignment));
    GroupMember { member_id, client_id, client_host, assignment: topics }
}

fn group_of(listed: ListedGroup) -> (group: GroupSummary)
    ensures
        group_shows(group, listed),
{
    let ListedGroup { name, state, protocol_type, protocol, members } = listed;
    let ghost given = members@;
    let mut rest = crate::order::reversed(members);
    let mut out: Vec<GroupMember> = Vec::new();
    while rest.len() > 0
        invariant
            rest@.len() + out@.len() == given.len(),
            forall|k: int| 0 <= k < rest@.len() ==> rest@[k] == given[given.len() - 1 - k],
            forall|k: int| 0 <= k < out@.len() ==> member_shows(#[trigger] out@[k], given[k]),
        decreases rest.len(),
    {
        match rest.pop() {
            Some(member) => out.push(member_of(member)),
            None => {},
        }
    }
    GroupSummary { name, state, protocol_type, protocol, members: out }
}

/// The groups of a cluster by name, with the partitions of each member read out.
pub fn list_groups(listed: Vec<ListedGroup>) -> (groups: Vec<GroupSummary>)
    ensures
        exists|given: Seq<GroupSummary>|
            #[trigger] is_stable_sort(given, groups@) && given.len() == listed@.len() && forall|i: int|
                0 <= i < given.len() ==> group_shows(#[trigger] given[i], listed@[i]),
{
    let ghost all = listed@;
    let mut rest = crate::order::reversed(listed);
    let mut out: Vec<GroupSummary> = Vec::new();
    while rest.len() > 0
        invariant
            rest@.len() + out@.len() == all.len(),
            forall|k: int| 0 <= k < rest@.len() ==> rest@[k] == all[all.len() - 1 - k],
            forall|k: int| 0 <= k < out@.len() ==> group_shows(#[trigger] out@[k], all[k]),
        decreases rest.len(),
    {
        match rest.pop() {
            Some(group) => out.push(group_of(group)),
            None => {},
        }
    }
    let ghost given = out@;
    let sorted = sort_by_rank(out);
    assert(is_stable_sort(given, sorted@));
    sorted
}

/// The commits of a group by partition.
pub fn committed_offsets(offsets: Vec<CommittedOffset>) -> (sorted: Vec<CommittedOffset>)
    ensures
        is_stable_sort(offsets@, sorted@),
{
    sort_by_rank(offsets)
}

// ---- laws ----

proof fn placed_of_a_member(assignment: Seq<TopicAssignment>, topic: Seq<char>, member: int)
    requires
        0 <= member <= usize::MAX,
    ensures
        forall|a: int, k: int|
            #![trigger assignment[a].partitions@[k]]
            0 <= a < assignment.len() && assignment[a].topic@ == topic && 0 <= k < assignment[a].partitions@.len()
                ==> placed_in(assignment, topic, member).contains(
                Placed { partition: assignment[a].partitions@[k], member: member as usize },
            ),
        forall|i: int|
            0 <= i < placed_in(assignment, topic, member).len() ==> {
                let placed = #[trigger] placed_in(assignment, topic, member)[i];
                placed.member == member && assigned_in(assignment, topic, placed.partition)
            },
    decreases assignment.len(),
{
    if assignment.len() > 0 {
        let rest = assignment.drop_last();
        let last = assignment.last();
        let before = placed_in(rest, topic, member);
        let all = placed_in(assignment, topic, member);
        placed_of_a_member(rest, topic, member);
        assert forall|a: int, k: int|
            #![trigger assignment[a].partitions@[k]]
            0 <= a < assignment.len() && assignment[a].topic@ == topic && 0 <= k
                < assignment[a].partitions@.len() implies all.contains(
            Placed { partition: assignment[a].partitions@[k], member: member as usize },
        ) by {
            let wanted = Placed { partition: assignment[a].partitions@[k], member: member as usize };
            if a < rest.len() {
                assert(rest[a].partitions@[k] == assignment[a].partitions@[k]);
                assert(before.contains(wanted));
                let i = choose|i: int| 0 <= i < before.len() && before[i] == wanted;
                assert(all[i] == wanted);
            } else {
                assert(all[before.len() + k] == wanted);
            }
        }
        assert forall|i: int| 0 <= i < all.len() implies {
            let placed = #[trigger] all[i];
            placed.member == member && assigned_in(assignment, topic, placed.partition)
        } by {
            if i < before.len() {
                assert(all[i] == before[i]);
                let (a, k) = choose|a: int, k: int|
                    #![trigger rest[a].partitions@[k]]
                    0 <= a < rest.len() && rest[a].topic@ == topic && 0 <= k < rest[a].partitions@.len()
                        && rest[a].partitions@[k] == before[i].partition;
                assert(assignment[a].partitions@[k] == before[i].partition);
            } else {
                let k = i - before.len();
                assert(assignment[assignment.len() - 1].partitions@[k] == all[i].partition);
            }
        }
    }
}

/// Whether a partition of a topic stands in a member's assignment.
pub open spec fn assigned_in(assignment: Seq<TopicAssignment>, topic: Seq<char>, partition: i32) -> bool {
    exists|a: int, k: int|
        #![trigger assignment[a].partitions@[k]]
        0 <= a < assignment.len() && assignment[a].topic@ == topic && 0 <= k < assignment[a].partitions@.len()
            && assignment[a].partitions@[k] == partition
}

/// The partitions of a topic that a group reads are those in the assignments of its members,
/// each with the member that it is assigned to; none is missing, and no other is listed.
pub proof fn partitions_are_listed_with_their_members(members: Seq<GroupMember>, topic: Seq<char>)
    requires
        members.len() <= usize::MAX,
    ensures
        forall|m: int, a: int, k: int|
            #![trigger members[m].assignment@[a].partitions@[k]]
            0 <= m < members.len() && 0 <= a < members[m].assignment@.len() && members[m].assignment@[a].topic@ == topic
                && 0 <= k < members[m].assignment@[a].partitions@.len() ==> placed_among(members, topic).contains(
                Placed { partition: members[m].assignment@[a].partitions@[k], member: m as usize },
            ),
        forall|i: int|
            0 <= i < placed_among(members, topic).len() ==> {
                let placed = #[trigger] placed_among(members, topic)[i];
                placed.member < members.len() && assigned_in(
                    members[placed.member as int].assignment@,
                    topic,
                    placed.partition,
                )
            },
    decreases members.len(),
{
    if members.len() > 0 {
        let rest = members.drop_last();
        let n = members.len() - 1;
        let before = placed_among(rest, topic);
        let all = placed_among(members, topic);
        partitions_are_listed_with_their_members(rest, topic);
        placed_of_a_member(members.last().assignment@, topic, n);
        let more = placed_in(members.last().assignment@, topic, n);
        assert forall|m: int, a: int, k: int|
            #![trigger members[m].assignment@[a].partitions@[k]]
            0 <= m < members.len() && 0 <= a < members[m].assignment@.len() && members[m].assignment@[a].topic@ == topic
                && 0 <= k < members[m].assignment@[a].partitions@.len() implies all.contains(
            Placed { partition: members[m].assignment@[a].partitions@[k], member: m as usize },
        ) by {
            let wanted = Placed { partition: members[m].assignment@[a].partitions@[k], member: m as usize };
            if m < rest.len() {
                assert(rest[m].assignment@[a].partitions@[k] == wanted.partition);
                assert(before.contains(wanted));
                let i = choose|i: int| 0 <= i < before.len() && before[i] == wanted;
                assert(all[i] == wanted);
            } else {
                assert(members.last().assignment@[a].partitions@[k] == wanted.partition);
                assert(more.contains(wanted));
                let i = choose|i: int| 0 <= i < more.len() && more[i] == wanted;
                assert(all[before.len() + i] == wanted);
            }
        }
        assert forall|i: int| 0 <= i < all.len() implies {
            let placed = #[trigger] all[i];
            placed.member < members.len() && assigned_in(members[placed.member as int].assignment@, topic, placed.partition)
        } by {
            if i < before.len() {
                assert(all[i] == before[i]);
                assert(rest[before[i].member as int] == members[before[i].member as int]);
            } else {
                assert(all[i] == more[i - before.len()]);
            }
        }
    }
}

/// The partitions that a group is shown with go up by number, and each is shown with a member
/// that it is assigned to.
pub proof fn partitions_are_shown_in_order(
    list: Seq<(i32, &GroupMember)>,
    sorted: Seq<Placed>,
    members: Seq<GroupMember>,
    topic: Seq<char>,
)
    requires
        is_stable_sort(placed_among(members, topic), sorted),
        shows_placed(list, sorted, members),
        members.len() <= usize::MAX,
        placed_among(members, topic).len() <= usize::MAX,
    ensures
        list.len() == placed_among(members, topic).len(),
        forall|i: int, j: int| #![trigger list[i], list[j]] 0 <= i < j < list.len() ==> list[i].0 <= list[j].0,
        forall|i: int|
            0 <= i < list.len() ==> members.contains(*(#[trigger] list[i]).1) && assigned_in(
                list[i].1.assignment@,
                topic,
                list[i].0,
            ),
{
    let placed = placed_among(members, topic);
    a_sorted_row_rearranges(placed, sorted);
    partitions_are_listed_with_their_members(members, topic);
    assert forall|i: int, j: int| #![trigger list[i], list[j]] 0 <= i < j < list.len() implies list[i].0 <= list[j].0 by {
        assert(!precedes(sorted[j].rank(), sorted[i].rank()));
        numbers_rank_by_size(sorted[j].partition as int, sorted[i].partition as int);
    }
    assert forall|i: int| 0 <= i < list.len() implies members.contains(*(#[trigger] list[i]).1) && assigned_in(
        list[i].1.assignment@,
        topic,
        list[i].0,
    ) by {
        assert(placed.contains(sorted[i]));
        let k = choose|k: int| 0 <= k < placed.len() && placed[k] == sorted[i];
        assert(placed[k].member < members.len());
        assert(members[sorted[i].member as int] == *list[i].1);
    }
}

/// Groups are shown by name, and commits by partition; sorting them loses none.
pub proof fn groups_and_commits_are_shown_in_order(
    groups: Seq<GroupSummary>,
    by_name: Seq<GroupSummary>,
    commits: Seq<CommittedOffset>,
    by_partition: Seq<CommittedOffset>,
)
    requires
        is_stable_sort(groups, by_name),
        is_stable_sort(commits, by_partition),
        groups.len() <= usize::MAX,
        commits.len() <= usize::MAX,
    ensures
        by_name.len() == groups.len(),
        forall|i: int| 0 <= i < groups.len() ==> by_name.contains(#[trigger] groups[i]),
        forall|i: int, j: int|
            #![trigger by_name[i], by_name[j]]
            0 <= i < j < by_name.len() ==> is_not_after(by_name[i].name@, by_name[j].name@),
        by_partition.len() == commits.len(),
        forall|i: int| 0 <= i < commits.len() ==> by_partition.contains(#[trigger] commits[i]),
        forall|i: int, j: int|
            #![trigger by_partition[i], by_partition[j]]
            0 <= i < j < by_partition.len() ==> by_partition[i].partition <= by_partition[j].partition,
{
    a_sorted_row_rearranges(groups, by_name);
    commits_are_shown_in_order(commits, by_partition);
    assert forall|i: int, j: int|
        #![trigger by_name[i], by_name[j]]
        0 <= i < j < by_name.len() implies is_not_after(by_name[i].name@, by_name[j].name@) by {
        assert(!precedes(by_name[j].rank(), by_name[i].rank()));
        texts_rank_by_their_characters(by_name[i].name@, by_name[j].name@);
    }
}

/// The commits of a group are shown by partition, all of them.
pub proof fn commits_are_shown_in_order(commits: Seq<CommittedOffset>, by_partition: Seq<CommittedOffset>)
    requires
        is_stable_sort(commits, by_partition),
        commits.len() <= usize::MAX,
    ensures
        by_partition.len() == commits.len(),
        forall|i: int| 0 <= i < commits.len() ==> by_partition.contains(#[trigger] commits[i]),
        forall|i: int, j: int|
            #![trigger by_partition[i], by_partition[j]]
            0 <= i < j < by_partition.len() ==> by_partition[i].partition <= by_partition[j].partition,
{
    a_sorted_row_rearranges(commits, by_partition);
    assert forall|i: int, j: int|
        #![trigger by_partition[i], by_partition[j]]
        0 <= i < j < by_partition.len() implies by_partition[i].partition <= by_partition[j].partition by {
        assert(!precedes(by_partition[j].rank(), by_partition[i].rank()));
        numbers_rank_by_size(by_partition[j].partition as int, by_partition[i].partition as int);
    }
}

/// A member is shown as the cluster lists it, with the topics that its bytes hold; without
/// bytes, or with bytes that cannot be read, it has none.
pub proof fn members_are_shown_as_listed(member: GroupMember, listed: ListedMember)
    requires
        member_shows(member, listed),
    ensures
        member.member_id == listed.member_id,
        member.client_id == listed.client_id,
        member.client_host == listed.client_host,
        listed.assignment is None ==> member.assignment@.len() == 0,
        listed.assignment matches Some(bytes) ==> match decoded(bytes@) {
            Ok(topics) => member.assignment@.len() == topics.len() && forall|i: int|
                0 <= i < topics.len() ==> (#[trigger] member.assignment@[i]).topic@ == topics[i].topic
                    && member.assignment@[i].partitions@ == topics[i].partitions,
            Err(_) => member.assignment@.len() == 0,
        },
{
    assert(assignment_views(member.assignment@).len() == member.assignment@.len());
    assert forall|i: int| 0 <= i < member.assignment@.len() implies assignment_views(member.assignment@)[i]
        == #[trigger] member.assignment@[i]@ by {}
}

/// A group consumes a topic exactly where it is shown with one of the topic's partitions; these
/// go up by number, each with a member that it is assigned to.
pub proof fn a_consuming_group_is_shown_with_partitions(
    group: &GroupSummary,
    topic: &str,
    reads: bool,
    list: Vec<(i32, &GroupMember)>,
)
    requires
        call_ensures(GroupSummary::consumes, (group, topic), reads),
        call_ensures(GroupSummary::partitions_of, (group, topic), list),
        group.members@.len() <= usize::MAX,
        placed_among(group.members@, topic@).len() <= usize::MAX,
    ensures
        reads <==> list@.len() > 0,
        forall|i: int, j: int| #![trigger list@[i], list@[j]] 0 <= i < j < list@.len() ==> list@[i].0 <= list@[j].0,
        forall|i: int|
            0 <= i < list@.len() ==> group.members@.contains(*(#[trigger] list@[i]).1) && assigned_in(
                list@[i].1.assignment@,
                topic@,
                list@[i].0,
            ),
{
    consuming_groups_have_partitions(group.members@, topic@);
    let sorted = choose|sorted: Seq<Placed>|
        #[trigger] is_stable_sort(placed_among(group.members@, topic@), sorted) && shows_placed(
            list@,
            sorted,
            group.members@,
        );
    partitions_are_shown_in_order(list@, sorted, group.members@, topic@);
}

/// A listed group is among these: one has its name, its state and as many members.
pub open spec fn is_among(groups: Seq<GroupSummary>, listed: ListedGroup) -> bool {
    exists|i: int|
        0 <= i < groups.len() && (#[trigger] groups[i]).name == listed.name && groups[i].state == listed.state
            && groups[i].members@.len() == listed.members@.len()
}

/// The groups of a cluster are shown by name, as many as the cluster lists; the commits of a
/// group by partition, as many as it has.
pub proof fn listed_groups_are_all_shown(
    listed: Vec<ListedGroup>,
    groups: Vec<GroupSummary>,
    offsets: Vec<CommittedOffset>,
    sorted: Vec<CommittedOffset>,
)
    requires
        call_ensures(list_groups, (listed,), groups),
        call_ensures(committed_offsets, (offsets,), sorted),
        listed@.len() <= usize::MAX,
        offsets@.len() <= usize::MAX,
    ensures
        groups@.len() == listed@.len(),
        forall|i: int, j: int|
            #![trigger groups@[i], groups@[j]]
            0 <= i < j < groups@.len() ==> is_not_after(groups@[i].name@, groups@[j].name@),
        forall|k: int| 0 <= k < listed@.len() ==> is_among(groups@, #[trigger] listed@[k]),
        sorted@.len() == offsets@.len(),
        forall|i: int, j: int|
            #![trigger sorted@[i], sorted@[j]]
            0 <= i < j < sorted@.len() ==> sorted@[i].partition <= sorted@[j].partition,
        forall|k: int| 0 <= k < offsets@.len() ==> sorted@.contains(#[trigger] offsets@[k]),
{
    let given = choose|given: Seq<GroupSummary>|
        #[trigger] is_stable_sort(given, groups@) && given.len() == listed@.len() && forall|i: int|
            0 <= i < given.len() ==> group_shows(#[trigger] given[i], listed@[i]);
    groups_and_commits_are_shown_in_order(given, groups@, offsets@, sorted@);
    assert forall|k: int| 0 <= k < listed@.len() implies is_among(groups@, #[trigger] listed@[k]) by {
        assert(group_shows(given[k], listed@[k]));
        assert(groups@.contains(given[k]));
        let i = choose|i: int| 0 <= i < groups@.len() && groups@[i] == given[k];
        assert(groups@[i].name == listed@[k].name);
    }
}

} // verus!
