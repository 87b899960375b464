//! Brokers, topics and partitions of a cluster.

use vstd::prelude::*;

use crate::order::{
    a_sorted_row_rearranges, is_not_after, is_stable_sort, precedes, sort_by_rank, text_precedes, text_rank,
    texts_rank_by_their_characters, Ranked,
};
use crate::text::{chars_of, has_prefix, same_text, starts_with};

verus! {

#[derive(Debug, PartialEq, Eq)]
pub struct BrokerInfo {
    pub id: i32,
    pub host: String,
    pub port: i32,
}

#[derive(Debug, PartialEq, Eq)]
pub struct PartitionInfo {
    pub id: i32,
    pub leader: i32,
    pub replicas: Vec<i32>,
    pub isr: Vec<i32>,
}

#[derive(Debug, PartialEq, Eq)]
pub struct TopicInfo {
    pub name: String,
    pub partitions: Vec<PartitionInfo>,
}

#[derive(Debug, PartialEq, Eq)]
pub struct ClusterInfo {
    pub brokers: Vec<BrokerInfo>,
    pub topics: Vec<TopicInfo>,
}

#[derive(Debug, Clone, Copy, PartialEq, Eq, Structural)]
pub struct Watermarks {
    pub partition: i32,
    pub low: i64,
    pub high: i64,
}

/// The rank of a number.
pub open spec fn number_rank(n: int) -> Seq<int> {
    seq![n]
}

/// Numbers rank by size.
pub proof fn numbers_rank_by_size(a: int, b: int)
    ensures
        precedes(number_rank(a), number_rank(b)) == (a < b),
{
    reveal_with_fuel(crate::order::precedes_from, 2);
}

impl Ranked for PartitionInfo {
    open spec fn rank(&self) -> Seq<int> {
        number_rank(self.id as int)
    }

    fn ranks_before(&self, other: &Self) -> (before: bool) {
        proof {
            numbers_rank_by_size(self.id as int, other.id as int);
        }
        self.id < other.id
    }
}

impl Ranked for TopicInfo {
    open spec fn rank(&self) -> Seq<int> {
        text_rank(self.name@)
    }

    fn ranks_before(&self, other: &Self) -> (before: bool) {
        text_precedes(&chars_of(&self.name), &chars_of(&other.name))
    }
}

impl Default for ClusterInfo {
    fn default() -> (cluster: Self)
        ensures
            cluster.brokers@ == Seq::<BrokerInfo>::empty(),
            cluster.topics@ == Seq::<TopicInfo>::empty(),
    {
        ClusterInfo { brokers: Vec::new(), topics: Vec::new() }
    }
}

/// The ids of partitions in their order.
pub open spec fn ids_of(partitions: Seq<PartitionInfo>) -> Seq<i32> {
    partitions.map_values(|p: PartitionInfo| p.id)
}

impl TopicInfo {
    /// Whether the topic is one of Kafka's own.
    pub fn is_internal(&self) -> (internal: bool)
        ensures
            internal == starts_with(self.name@, "__"@),
    {
        has_prefix(&chars_of(&self.name), &chars_of("__"))
    }

    pub fn partition_ids(&self) -> (ids: Vec<i32>)
        ensures
            ids@ == ids_of(self.partitions@),
    {
        let mut ids: Vec<i32> = Vec::new();
        let mut i: usize = 0;
        while i < self.partitions.len()
            invariant
                i <= self.partitions@.len(),
                ids@ == ids_of(self.partitions@).take(i as int),
            decreases self.partitions.len() - i,
        {
            assert(ids_of(self.partitions@).take(i + 1) =~= ids@.push(self.partitions@[i as int].id));
            ids.push(self.partitions[i].id);
            i = i + 1;
        }
        assert(ids@ =~= ids_of(self.partitions@));
        ids
    }
}

/// Whether two topics are the same but for the order of their partitions, in which the
/// second goes up by id.
pub open spec fn with_sorted_partitions(given: TopicInfo, sorted: TopicInfo) -> bool {
    sorted.name == given.name && is_stable_sort(given.partitions@, sorted.partitions@)
}

/// Whether a cluster shows topics in order: by name, and the partitions of each by id.
pub open spec fn shows_topics(cluster: ClusterInfo, topics: Seq<TopicInfo>) -> bool {
    exists|by_name: Seq<TopicInfo>|
        #![trigger is_stable_sort(topics, by_name)]
        {
            &&& is_stable_sort(topics, by_name)
            &&& by_name.len() == cluster.topics@.len()
            &&& forall|i: int|
                0 <= i < by_name.len() ==> with_sorted_partitions(by_name[i], #[trigger] cluster.topics@[i])
        }
}

/// The cluster as it is shown: the topics by name, and the partitions of each by id.
pub fn fetch_cluster(brokers: Vec<BrokerInfo>, topics: Vec<TopicInfo>) -> (cluster: ClusterInfo)
    ensures
        cluster.brokers@ == brokers@,
        shows_topics(cluster, topics@),
{
    let by_name = sort_by_rank(topics);
    let ghost named = by_name@;
    let mut rest = crate::order::reversed(by_name);
    let mut sorted: Vec<TopicInfo> = Vec::new();
    while rest.len() > 0
        invariant
            rest@.len() + sorted@.len() == named.len(),
            forall|k: int| 0 <= k < rest@.len() ==> rest@[k] == named[named.len() - 1 - k],
            forall|k: int| 0 <= k < sorted@.len() ==> with_sorted_partitions(named[k], #[trigger] sorted@[k]),
        decreases rest.len(),
    {
        match rest.pop() {
            Some(topic) => {
                let TopicInfo { name, partitions } = topic;
                sorted.push(TopicInfo { name, partitions: sort_by_rank(partitions) });
            },
            None => {},
        }
    }
    let cluster = ClusterInfo { brokers, topics: sorted };
    assert(is_stable_sort(topics@, named));
    cluster
}

/// The first topic of a name in a row, or none.
pub open spec fn topic_index(topics: Seq<TopicInfo>, name: Seq<char>, i: int) -> Option<int>
    decreases topics.len() - i,
{
    if i >= topics.len() {
        None
    } else if topics[i].name@ == name {
        Some(i)
    } else {
        topic_index(topics, name, i + 1)
    }
}

/// The topic that was asked for, out of what the cluster answered. A topic without
/// partitions does not exist.
pub fn fetch_topic(topics: Vec<TopicInfo>, topic: &str) -> (found: Option<TopicInfo>)
    ensures
        match found {
            Some(info) => topic_index(topics@, topic@, 0) matches Some(i) && info == topics@[i]
                && info.partitions@.len() > 0,
            None => match topic_index(topics@, topic@, 0) {
                Some(i) => topics@[i].partitions@.len() == 0,
                None => true,
            },
        },
{
    let ghost given = topics@;
    let mut rest = crate::order::reversed(topics);
    let ghost mut done: int = 0;
    while rest.len() > 0
        invariant
            0 <= done,
            given == topics@,
            rest@.len() + done == given.len(),
            forall|k: int| 0 <= k < rest@.len() ==> rest@[k] == given[given.len() - 1 - k],
            topic_index(given, topic@, 0) == topic_index(given, topic@, done),
        decreases rest.len(),
    {
        match rest.pop() {
            Some(info) => {
                assert(info == given[done]);
                if same_text(&info.name, topic) {
                    if info.partitions.len() > 0 {
                        return Some(info);
                    }
                    return None;
                }
            },
            None => {},
        }
        proof {
            done = done + 1;
        }
    }
    None
}

// ---- laws ----

/// The topics of a cluster are shown by name, each with its partitions by number.
pub proof fn topics_are_shown_in_order(cluster: ClusterInfo, topics: Seq<TopicInfo>)
    requires
        shows_topics(cluster, topics),
        topics.len() <= usize::MAX,
    ensures
        cluster.topics@.len() == topics.len(),
        forall|i: int, j: int|
            #![trigger cluster.topics@[i], cluster.topics@[j]]
            0 <= i < j < cluster.topics@.len() ==> is_not_after(cluster.topics@[i].name@, cluster.topics@[j].name@),
        forall|t: int, i: int, j: int|
            #![trigger cluster.topics@[t].partitions@[i], cluster.topics@[t].partitions@[j]]
            0 <= t < cluster.topics@.len() && 0 <= i < j < cluster.topics@[t].partitions@.len()
                ==> cluster.topics@[t].partitions@[i].id <= cluster.topics@[t].partitions@[j].id,
{
    let by_name = choose|by_name: Seq<TopicInfo>|
        #![trigger is_stable_sort(topics, by_name)]
        {
            &&& is_stable_sort(topics, by_name)
            &&& by_name.len() == cluster.topics@.len()
            &&& forall|i: int|
                0 <= i < by_name.len() ==> with_sorted_partitions(by_name[i], #[trigger] cluster.topics@[i])
        };
    a_sorted_row_rearranges(topics, by_name);
    assert forall|i: int, j: int|
        #![trigger cluster.topics@[i], cluster.topics@[j]]
        0 <= i < j < cluster.topics@.len() implies is_not_after(cluster.topics@[i].name@, cluster.topics@[j].name@) by {
        assert(with_sorted_partitions(by_name[i], cluster.topics@[i]));
        assert(with_sorted_partitions(by_name[j], cluster.topics@[j]));
        assert(!precedes(by_name[j].rank(), by_name[i].rank()));
        texts_rank_by_their_characters(by_name[i].name@, by_name[j].name@);
    }
    assert forall|t: int, i: int, j: int|
        #![trigger cluster.topics@[t].partitions@[i], cluster.topics@[t].partitions@[j]]
        0 <= t < cluster.topics@.len() && 0 <= i < j
            < cluster.topics@[t].partitions@.len() implies cluster.topics@[t].partitions@[i].id
        <= cluster.topics@[t].partitions@[j].id by {
        assert(with_sorted_partitions(by_name[t], cluster.topics@[t]));
        let given = by_name[t].partitions@;
        let sorted = cluster.topics@[t].partitions@;
        let order = choose|order: Seq<usize>|
            #[trigger] crate::order::is_stable_order(given, order) && sorted == crate::order::arranged(given, order);
        crate::order::a_stable_sort_goes_up(given, order, i, j);
        numbers_rank_by_size(sorted[j].id as int, sorted[i].id as int);
    }
}

/// Each topic that the cluster has is shown, with all of its partitions, and no other.
pub proof fn each_topic_is_shown(cluster: ClusterInfo, topics: Seq<TopicInfo>, k: int)
    requires
        shows_topics(cluster, topics),
        topics.len() <= usize::MAX,
        0 <= k < topics.len(),
        topics[k].partitions@.len() <= usize::MAX,
    ensures
        exists|i: int|
            0 <= i < cluster.topics@.len() && (#[trigger] cluster.topics@[i]).name == topics[k].name
                && cluster.topics@[i].partitions@.len() == topics[k].partitions@.len() && forall|p: int|
                0 <= p < topics[k].partitions@.len() ==> cluster.topics@[i].partitions@.contains(
                    #[trigger] topics[k].partitions@[p],
                ),
{
    let by_name = choose|by_name: Seq<TopicInfo>|
        #![trigger is_stable_sort(topics, by_name)]
        {
            &&& is_stable_sort(topics, by_name)
            &&& by_name.len() == cluster.topics@.len()
            &&& forall|i: int|
                0 <= i < by_name.len() ==> with_sorted_partitions(by_name[i], #[trigger] cluster.topics@[i])
        };
    a_sorted_row_rearranges(topics, by_name);
    assert(by_name.contains(topics[k]));
    let i = choose|i: int| 0 <= i < by_name.len() && by_name[i] == topics[k];
    assert(with_sorted_partitions(by_name[i], cluster.topics@[i]));
    a_sorted_row_rearranges(topics[k].partitions@, cluster.topics@[i].partitions@);
}

/// A topic is found where one has the name, at the first place; and not found where none
/// has.
pub proof fn a_topic_is_found_by_its_name(topics: Seq<TopicInfo>, name: Seq<char>, i: int)
    requires
        0 <= i,
    ensures
        match topic_index(topics, name, i) {
            Some(place) => i <= place < topics.len() && topics[place].name@ == name && forall|k: int|
                i <= k < place ==> (#[trigger] topics[k]).name@ != name,
            None => forall|k: int| i <= k < topics.len() ==> (#[trigger] topics[k]).name@ != name,
        },
    decreases topics.len() - i,
{
    if i < topics.len() {
        a_topic_is_found_by_its_name(topics, name, i + 1);
    }
}

/// A topic that was asked for is the one of its name, with its partitions; one without
/// partitions does not exist.
pub proof fn an_asked_topic_has_its_name(topics: Vec<TopicInfo>, topic: &str, found: Option<TopicInfo>)
    requires
        call_ensures(fetch_topic, (topics, topic), found),
    ensures
        found matches Some(info) ==> info.name@ == topic@ && info.partitions@.len() > 0 && topics@.contains(info),
        (forall|k: int| 0 <= k < topics@.len() ==> (#[trigger] topics@[k]).name@ != topic@) ==> found is None,
        topics@.len() == 1 && topics@[0].name@ == topic@ && topics@[0].partitions@.len() > 0 ==> found == Some(topics@[0]),
{
    a_topic_is_found_by_its_name(topics@, topic@, 0);
}

/// A cluster is shown with its brokers, and its topics by name.
pub proof fn a_cluster_is_shown_with_its_topics(
    brokers: Vec<BrokerInfo>,
    topics: Vec<TopicInfo>,
    cluster: ClusterInfo,
)
    requires
        call_ensures(fetch_cluster, (brokers, topics), cluster),
        topics@.len() <= usize::MAX,
    ensures
        cluster.brokers@ == brokers@,
        cluster.topics@.len() == topics@.len(),
        forall|i: int, j: int|
            #![trigger cluster.topics@[i], cluster.topics@[j]]
            0 <= i < j < cluster.topics@.len() ==> is_not_after(cluster.topics@[i].name@, cluster.topics@[j].name@),
{
    topics_are_shown_in_order(cluster, topics@);
}

/// The ids of a topic's partitions are those of its partitions, in their order, and a topic is
/// one of Kafka's own where its name starts with two underscores.
pub proof fn a_topic_tells_its_partitions(topic: &TopicInfo, ids: Vec<i32>, internal: bool)
    requires
        call_ensures(TopicInfo::partition_ids, (topic,), ids),
        call_ensures(TopicInfo::is_internal, (topic,), internal),
    ensures
        ids@.len() == topic.partitions@.len(),
        forall|k: int| 0 <= k < ids@.len() ==> #[trigger] ids@[k] == topic.partitions@[k].id,
        internal <==> topic.name@.len() >= 2 && topic.name@[0] == '_' && topic.name@[1] == '_',
{
    reveal_strlit("__");
    let name = topic.name@;
    if name.len() >= 2 && name[0] == '_' && name[1] == '_' {
        assert(name.take(2) =~= "__"@);
    }
    if starts_with(name, "__"@) {
        assert(name.take(2)[0] == "__"@[0]);
        assert(name.take(2)[1] == "__"@[1]);
    }
}

} // verus!
