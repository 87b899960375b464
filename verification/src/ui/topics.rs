//! The list of topics, and the form of a new one.

use std::sync::Arc;

use vstd::prelude::*;

use crate::kafka::admin::NewTopicSpec;
use crate::kafka::metadata::TopicInfo;
use crate::model::message::share;
use crate::text::{
    a_number_is_trimmed, a_text_is_found_where_it_stands, ascii_lowered, chars_of, contains_text, decimal,
    decimal_is_read_back, has_part, joined, occurs_at, parse_i32, parse_i64, parsed_int, same_text, starts_with, trim,
    trimmed,
};

verus! {

// ---- lower case ----

/// What std makes of a string in lower case.
pub uninterp spec fn lower_case(text: Seq<char>) -> Seq<char>;

/// Whether all characters of a string are ASCII.
pub open spec fn is_ascii(text: Seq<char>) -> bool {
    forall|i: int| 0 <= i < text.len() ==> (#[trigger] text[i] as u32) < 0x80
}

/// `str::to_lowercase` of std: a function of the text. Of ASCII text the letters from A
/// to Z become small ones and the rest stays; what becomes of other letters is not
/// stated.
#[verifier::external_body]
fn lowered(text: &str) -> (lower: String)
    ensures
        lower@ == lower_case(text@),
        is_ascii(text@) ==> lower@ == ascii_lowered(text@),
{
    text.to_lowercase()
}

// ---- the list ----

/// Whether the topic of a name is listed: it is not hidden as one of Kafka's own, and the query
/// occurs in the name in lower case.
pub open spec fn is_listed(name: Seq<char>, show_internal: bool, query: Seq<char>) -> bool {
    &&& show_internal || !starts_with(name, "__"@)
    &&& query.len() == 0 || contains_text(lower_case(name), query)
}

/// Whether a name in ASCII is listed by its letters in lower case.
pub open spec fn is_listed_plainly(name: Seq<char>, show_internal: bool, query: Seq<char>) -> bool {
    is_ascii(name) ==> is_listed(name, show_internal, query) == ((show_internal || !starts_with(name, "__"@)) && (
    query.len() == 0 || contains_text(ascii_lowered(name), query)))
}

/// Whether those topics with a name in ASCII are listed by its letters in lower case.
pub open spec fn are_listed_plainly(topics: Seq<Arc<TopicInfo>>, show_internal: bool, query: Seq<char>) -> bool {
    forall|i: int|
        #![trigger topics[i]]
        0 <= i < topics.len() ==> is_listed_plainly(topics[i].name@, show_internal, query)
}

/// The places of the listed topics among the first ones.
pub open spec fn listed(topics: Seq<Arc<TopicInfo>>, n: int, show_internal: bool, query: Seq<char>) -> Seq<usize>
    decreases n,
{
    if n <= 0 {
        Seq::empty()
    } else {
        let before = listed(topics, n - 1, show_internal, query);
        if is_listed(topics[n - 1].name@, show_internal, query) {
            before.push((n - 1) as usize)
        } else {
            before
        }
    }
}

/// Whether a name in lower case answers a query; an empty one answers to all.
pub fn answers(lowered_name: &str, query: &str) -> (found: bool)
    ensures
        found == (query@.len() == 0 || contains_text(lowered_name@, query@)),
{
    if query.is_empty() {
        return true;
    }
    has_part(&chars_of(lowered_name), &chars_of(query))
}

/// The topics of a cluster, as they are listed.
pub struct TopicListDelegate {
    pub all: Vec<Arc<TopicInfo>>,
    /// The places of the topics that are listed.
    pub matched: Vec<usize>,
    pub query: String,
    pub show_internal: bool,
    pub selected: Option<usize>,
    pub right_clicked: Option<usize>,
}

/// The list as values.
pub struct TopicList {
    pub all: Seq<Arc<TopicInfo>>,
    pub query: Seq<char>,
    pub show_internal: bool,
    pub selected: Option<usize>,
    pub right_clicked: Option<usize>,
}

impl TopicList {
    /// The places of the topics that are listed.
    pub open spec fn rows(self) -> Seq<usize> {
        listed(self.all, self.all.len() as int, self.show_internal, self.query)
    }

    /// The topic in a row.
    pub open spec fn at(self, row: int) -> Option<Arc<TopicInfo>> {
        if 0 <= row < self.rows().len() {
            Some(self.all[self.rows()[row] as int])
        } else {
            None
        }
    }

    /// The topic in an optional row.
    pub open spec fn at_option(self, row: Option<usize>) -> Option<Arc<TopicInfo>> {
        match row {
            Some(r) => self.at(r as int),
            None => None,
        }
    }

    /// The first row from a given one with a topic of the name.
    pub open spec fn row_of(self, name: Seq<char>, from: int) -> Option<int>
        decreases self.rows().len() - from,
    {
        if from >= self.rows().len() {
            None
        } else if self.all[self.rows()[from] as int].name@ == name {
            Some(from)
        } else {
            self.row_of(name, from + 1)
        }
    }
}

impl View for TopicListDelegate {
    type V = TopicList;

    open spec fn view(&self) -> TopicList {
        TopicList {
            all: self.all@,
            query: self.query@,
            show_internal: self.show_internal,
            selected: self.selected,
            right_clicked: self.right_clicked,
        }
    }
}

proof fn listed_are_places(topics: Seq<Arc<TopicInfo>>, n: int, show_internal: bool, query: Seq<char>)
    requires
        0 <= n <= topics.len(),
        topics.len() <= usize::MAX,
    ensures
        forall|k: int|
            0 <= k < listed(topics, n, show_internal, query).len() ==> #[trigger] listed(topics, n, show_internal, query)[k]
                < n,
    decreases n,
{
    if n > 0 {
        listed_are_places(topics, n - 1, show_internal, query);
        let before = listed(topics, n - 1, show_internal, query);
        let after = listed(topics, n, show_internal, query);
        assert forall|k: int| 0 <= k < after.len() implies #[trigger] after[k] < n by {
            if k < before.len() {
                assert(after[k] == before[k]);
            }
        }
    }
}

proof fn listed_in_order(topics: Seq<Arc<TopicInfo>>, n: int, show_internal: bool, query: Seq<char>)
    requires
        0 <= n <= topics.len(),
        topics.len() <= usize::MAX,
    ensures
        forall|j: int, k: int|
            #![trigger listed(topics, n, show_internal, query)[j], listed(topics, n, show_internal, query)[k]]
            0 <= j < k < listed(topics, n, show_internal, query).len() ==> listed(topics, n, show_internal, query)[j]
                < listed(topics, n, show_internal, query)[k],
    decreases n,
{
    if n > 0 {
        listed_in_order(topics, n - 1, show_internal, query);
        listed_are_places(topics, n - 1, show_internal, query);
        let before = listed(topics, n - 1, show_internal, query);
        let after = listed(topics, n, show_internal, query);
        assert forall|j: int, k: int| #![trigger after[j], after[k]] 0 <= j < k < after.len() implies after[j] < after[k] by {
            assert(after[j] == before[j]);
            if k < before.len() {
                assert(after[k] == before[k]);
            }
        }
    }
}

proof fn each_listed_has_a_row(topics: Seq<Arc<TopicInfo>>, n: int, show_internal: bool, query: Seq<char>, place: int)
    requires
        0 <= place < n <= topics.len(),
        topics.len() <= usize::MAX,
    ensures
        is_listed(topics[place].name@, show_internal, query) == listed(topics, n, show_internal, query).contains(place as usize),
    decreases n,
{
    let before = listed(topics, n - 1, show_internal, query);
    let after = listed(topics, n, show_internal, query);
    if place == n - 1 {
        listed_are_places(topics, n - 1, show_internal, query);
        if is_listed(topics[place].name@, show_internal, query) {
            assert(after.last() == place as usize);
            assert(after.contains(place as usize));
        } else {
            assert(!before.contains(place as usize));
        }
    } else {
        each_listed_has_a_row(topics, n - 1, show_internal, query, place);
        if before.contains(place as usize) {
            let k = choose|k: int| 0 <= k < before.len() && before[k] == place as usize;
            assert(after[k] == place as usize);
        } else if after.contains(place as usize) {
            let k = choose|k: int| 0 <= k < after.len() && after[k] == place as usize;
            assert(k < before.len());
            assert(before[k] == place as usize);
        }
    }
}

/// The rows of the list are the topics that are listed, in the order of the cluster and
/// each once.
pub proof fn rows_are_the_listed_topics(list: TopicList)
    requires
        list.all.len() <= usize::MAX,
    ensures
        forall|j: int, k: int|
            #![trigger list.rows()[j], list.rows()[k]]
            0 <= j < k < list.rows().len() ==> list.rows()[j] < list.rows()[k],
        forall|place: int|
            0 <= place < list.all.len() ==> list.rows().contains(place as usize) == #[trigger] is_listed(
                list.all[place].name@,
                list.show_internal,
                list.query,
            ),
{
    let n = list.all.len() as int;
    listed_in_order(list.all, n, list.show_internal, list.query);
    assert forall|place: int| 0 <= place < n implies list.rows().contains(place as usize) == #[trigger] is_listed(
        list.all[place].name@,
        list.show_internal,
        list.query,
    ) by {
        each_listed_has_a_row(list.all, n, list.show_internal, list.query, place);
    }
}

impl TopicListDelegate {
    pub open spec fn wf(&self) -> bool {
        self.matched@ == self@.rows()
    }

    pub fn new() -> (list: Self)
        ensures
            list.wf(),
            list@ == (TopicList {
                all: Seq::empty(),
                query: Seq::empty(),
                show_internal: false,
                selected: None,
                right_clicked: None,
            }),
    {
        let query = String::new();
        assert(query@ =~= Seq::empty());
        let list = TopicListDelegate {
            all: Vec::new(),
            matched: Vec::new(),
            query,
            show_internal: false,
            selected: None,
            right_clicked: None,
        };
        assert(list@.rows() =~= Seq::empty());
        list
    }

    /// Lists anew.
    fn filter(&mut self)
        ensures
            final(self).wf(),
            final(self)@ == old(self)@,
            are_listed_plainly(final(self)@.all, final(self)@.show_internal, final(self)@.query),
    {
        let mut matched: Vec<usize> = Vec::new();
        let mut i: usize = 0;
        while i < self.all.len()
            invariant
                i <= self.all@.len(),
                self@ == old(self)@,
                matched@ == listed(self.all@, i as int, self.show_internal, self.query@),
                forall|k: int|
                    #![trigger self.all@[k]]
                    0 <= k < i ==> is_listed_plainly(self.all@[k].name@, self.show_internal, self.query@),
            decreases self.all.len() - i,
        {
            let topic: &Arc<TopicInfo> = &self.all[i];
            if (self.show_internal || !topic.is_internal()) && answers(&lowered(&topic.name), &self.query) {
                matched.push(i);
            }
            i = i + 1;
        }
        self.matched = matched;
    }

    /// Lists other topics. None of them is selected.
    pub fn set_topics(&mut self, topics: Vec<Arc<TopicInfo>>)
        ensures
            final(self).wf(),
            final(self)@ == (TopicList { all: topics@, selected: None, ..old(self)@ }),
            are_listed_plainly(final(self)@.all, final(self)@.show_internal, final(self)@.query),
    {
        self.all = topics;
        self.selected = None;
        self.filter();
    }

    pub fn set_show_internal(&mut self, show: bool)
        ensures
            final(self).wf(),
            final(self)@ == (TopicList { show_internal: show, ..old(self)@ }),
            are_listed_plainly(final(self)@.all, final(self)@.show_internal, final(self)@.query),
    {
        self.show_internal = show;
        self.filter();
    }

    pub fn show_internal(&self) -> (show: bool)
        ensures
            show == self@.show_internal,
    {
        self.show_internal
    }

    /// Lists the topics that answer a query, in any case and without the white space
    /// around it.
    pub fn perform_search(&mut self, query: &str)
        ensures
            final(self).wf(),
            final(self)@ == (TopicList { query: lower_case(trim(query@)), ..old(self)@ }),
            are_listed_plainly(final(self)@.all, final(self)@.show_internal, final(self)@.query),
            is_ascii(trim(query@)) ==> final(self)@.query == ascii_lowered(trim(query@)),
    {
        self.query = lowered(&trimmed(query));
        self.filter();
    }

    /// How many topics are listed.
    pub fn items_count(&self) -> (count: usize)
        requires
            self.wf(),
        ensures
            count == self@.rows().len(),
    {
        self.matched.len()
    }

    /// The topic in a row.
    pub fn topic_at(&self, row: usize) -> (topic: Option<Arc<TopicInfo>>)
        requires
            self.wf(),
        ensures
            topic == self@.at(row as int),
    {
        let size: usize = self.all.len();
        if row >= self.matched.len() {
            return None;
        }
        proof {
            listed_are_places(self.all@, size as int, self.show_internal, self.query@);
        }
        let place: usize = self.matched[row];
        Some(share(&self.all[place]))
    }

    pub fn right_clicked_topic(&self) -> (topic: Option<Arc<TopicInfo>>)
        requires
            self.wf(),
        ensures
            topic == self@.at_option(self@.right_clicked),
    {
        match self.right_clicked {
            Some(row) => self.topic_at(row),
            None => None,
        }
    }

    pub fn selected_topic(&self) -> (topic: Option<Arc<TopicInfo>>)
        requires
            self.wf(),
        ensures
            topic == self@.at_option(self@.selected),
    {
        match self.selected {
            Some(row) => self.topic_at(row),
            None => None,
        }
    }

    /// The topic to delete: the one that was clicked for a menu, or else the selected
    /// one.
    pub fn topic_to_delete(&self) -> (topic: Option<Arc<TopicInfo>>)
        requires
            self.wf(),
        ensures
            topic == (match self@.at_option(self@.right_clicked) {
                Some(t) => Some(t),
                None => self@.at_option(self@.selected),
            }),
    {
        match self.right_clicked_topic() {
            Some(topic) => Some(topic),
            None => self.selected_topic(),
        }
    }

    /// Selects the topic of a name, where it is listed; else the selection stays.
    pub fn select_topic(&mut self, name: &str) -> (row: Option<usize>)
        requires
            old(self).wf(),
        ensures
            final(self).wf(),
            match row {
                Some(r) => old(self)@.row_of(name@, 0) == Some(r as int) && final(self)@ == (TopicList {
                    selected: Some(r),
                    ..old(self)@
                }),
                None => old(self)@.row_of(name@, 0) is None && final(self)@ == old(self)@,
            },
    {
        let size: usize = self.all.len();
        proof {
            listed_are_places(self.all@, size as int, self.show_internal, self.query@);
        }
        let mut row: usize = 0;
        while row < self.matched.len()
            invariant
                row <= self.matched@.len(),
                self.wf(),
                self@ == old(self)@,
                forall|k: int| 0 <= k < self@.rows().len() ==> #[trigger] self@.rows()[k] < self.all@.len(),
                self@.row_of(name@, 0) == self@.row_of(name@, row as int),
            decreases self.matched.len() - row,
        {
            assert(self@.rows()[row as int] < self.all@.len());
            let place: usize = self.matched[row];
            if same_text(&self.all[place].name, name) {
                self.selected = Some(row);
                return Some(row);
            }
            row = row + 1;
        }
        None
    }

    pub fn set_selected_index(&mut self, row: Option<usize>)
        requires
            old(self).wf(),
        ensures
            final(self).wf(),
            final(self)@ == (TopicList { selected: row, ..old(self)@ }),
    {
        self.selected = row;
    }

    pub fn set_right_clicked_index(&mut self, row: Option<usize>)
        requires
            old(self).wf(),
        ensures
            final(self).wf(),
            final(self)@ == (TopicList { right_clicked: row, ..old(self)@ }),
    {
        self.right_clicked = row;
    }
}

// ---- the form ----

/// The number of at least one that a text holds, where it does.
pub open spec fn counted(text: Seq<char>) -> Option<int> {
    match parsed_int(trim(text), i32::MIN as int, i32::MAX as int) {
        Some(n) => if n >= 1 {
            Some(n)
        } else {
            None
        },
        None => None,
    }
}

fn count_of(text: &str, label: &str) -> (count: Result<i32, String>)
    ensures
        match count {
            Ok(n) => counted(text@) == Some(n as int),
            Err(message) => counted(text@) is None && message@ == label@ + " must be a positive number"@,
        },
{
    match parse_i32(&trimmed(text)) {
        Some(n) => {
            if n >= 1 {
                return Ok(n);
            }
        },
        None => {},
    }
    Err(joined(label, " must be a positive number"))
}

/// Why a form is not a topic.
pub open spec fn topic_complaint(
    name: Seq<char>,
    partitions: Seq<char>,
    replication: Seq<char>,
    retention: Seq<char>,
) -> Option<Seq<char>> {
    if trim(name).len() == 0 {
        Some("Topic name must not be empty"@)
    } else if counted(partitions) is None {
        Some("Partitions"@ + " must be a positive number"@)
    } else if counted(replication) is None {
        Some("Replication factor"@ + " must be a positive number"@)
    } else if trim(retention).len() > 0 && parsed_int(trim(retention), i64::MIN as int, i64::MAX as int) is None {
        Some("Retention must be a number of milliseconds"@)
    } else {
        None
    }
}

/// The configuration of a new topic as values.
pub open spec fn config_texts(configs: Seq<(String, String)>) -> Seq<(Seq<char>, Seq<char>)> {
    configs.map_values(|c: (String, String)| (c.0@, c.1@))
}

/// The topic that a form asks for, or why it asks for none.
pub fn new_topic(name: &str, partitions: &str, replication: &str, retention: &str) -> (spec: Result<NewTopicSpec, String>)
    ensures
        match spec {
            Ok(topic) => {
                &&& topic_complaint(name@, partitions@, replication@, retention@) is None
                &&& topic.name@ == trim(name@)
                &&& counted(partitions@) == Some(topic.partitions as int)
                &&& counted(replication@) == Some(topic.replication_factor as int)
                &&& config_texts(topic.configs@) == (if trim(retention@).len() == 0 {
                    Seq::empty()
                } else {
                    seq![("retention.ms"@, trim(retention@))]
                })
            },
            Err(message) => topic_complaint(name@, partitions@, replication@, retention@) == Some(message@),
        },
{
    let topic_name = trimmed(name);
    if topic_name.as_str().is_empty() {
        return Err("Topic name must not be empty".to_owned());
    }
    let partition_count: i32 = match count_of(partitions, "Partitions") {
        Ok(n) => n,
        Err(message) => {
            return Err(message);
        },
    };
    let replication_factor: i32 = match count_of(replication, "Replication factor") {
        Ok(n) => n,
        Err(message) => {
            return Err(message);
        },
    };
    let retention_value = trimmed(retention);
    let mut configs: Vec<(String, String)> = Vec::new();
    assert(config_texts(configs@) =~= Seq::empty());
    if !retention_value.as_str().is_empty() {
        if parse_i64(&retention_value).is_none() {
            return Err("Retention must be a number of milliseconds".to_owned());
        }
        let ghost entry = ("retention.ms"@, retention_value@);
        configs.push(("retention.ms".to_owned(), retention_value));
        assert(config_texts(configs@) =~= seq![entry]);
    }
    Ok(NewTopicSpec { name: topic_name, partitions: partition_count, replication_factor, configs })
}

// ---- laws ----

/// A topic of Kafka's own is listed only where it is asked for, and without a query every
/// other topic is.
pub proof fn internal_topics_are_hidden(name: Seq<char>, query: Seq<char>)
    ensures
        name.len() >= 2 && name[0] == '_' && name[1] == '_' ==> !is_listed(name, false, query),
        is_listed(name, true, Seq::empty()),
        !(name.len() >= 2 && name[0] == '_' && name[1] == '_') ==> is_listed(name, false, Seq::empty()),
        is_listed(name, false, query) ==> is_listed(name, true, query),
{
    reveal_strlit("__");
    if name.len() >= 2 && name[0] == '_' && name[1] == '_' {
        assert(name.take(2) =~= "__"@);
    }
    if starts_with(name, "__"@) {
        assert(name.take(2)[0] == "__"@[0]);
        assert(name.take(2)[1] == "__"@[1]);
    }
}

/// A topic is listed by each part of its name, in any case of its ASCII letters.
pub proof fn a_topic_is_listed_by_each_part_of_its_name(
    before: Seq<char>,
    part: Seq<char>,
    behind: Seq<char>,
    show_internal: bool,
)
    requires
        is_ascii(before + part + behind),
        is_listed_plainly(before + part + behind, show_internal, ascii_lowered(part)),
        is_listed(before + part + behind, show_internal, Seq::empty()),
    ensures
        is_listed(before + part + behind, show_internal, ascii_lowered(part)),
{
    let name = before + part + behind;
    assert(ascii_lowered(name) =~= ascii_lowered(before) + ascii_lowered(part) + ascii_lowered(behind));
    a_text_is_found_where_it_stands(ascii_lowered(before), ascii_lowered(part), ascii_lowered(behind), name);
}

/// A longer query lists no topic that a part of it does not list.
pub proof fn longer_queries_list_less(
    name: Seq<char>,
    show_internal: bool,
    before: Seq<char>,
    query: Seq<char>,
    behind: Seq<char>,
)
    requires
        is_listed(name, show_internal, before + query + behind),
    ensures
        is_listed(name, show_internal, query),
{
    let all = before + query + behind;
    if query.len() > 0 {
        let text = lower_case(name);
        let i = choose|i: int| #[trigger] occurs_at(text, all, i);
        let at = i + before.len();
        assert(text.subrange(at, at + query.len()) =~= query) by {
            assert forall|k: int| 0 <= k < query.len() implies text[at + k] == query[k] by {
                assert(text.subrange(i, i + all.len())[before.len() + k] == all[before.len() + k]);
            }
        }
        assert(occurs_at(text, query, at));
    }
}

/// The row of a name is the first that shows a topic of this name, and there is none where no
/// listed topic has it.
pub proof fn a_row_is_found_by_its_name(list: TopicList, name: Seq<char>, from: int)
    requires
        0 <= from,
    ensures
        match list.row_of(name, from) {
            Some(row) => from <= row < list.rows().len() && (list.at(row) matches Some(topic) && topic.name@ == name)
                && forall|k: int|
                from <= k < row ==> list.all[#[trigger] list.rows()[k] as int].name@ != name,
            None => forall|k: int|
                from <= k < list.rows().len() ==> list.all[#[trigger] list.rows()[k] as int].name@ != name,
        },
    decreases list.rows().len() - from,
{
    if from < list.rows().len() {
        a_row_is_found_by_its_name(list, name, from + 1);
    }
}

/// A number that is written in a form is read as it was, where it is at least one; a smaller
/// one is none, and neither is a text that is no number.
pub proof fn counts_are_read_as_written(n: int, text: Seq<char>)
    requires
        i32::MIN <= n <= i32::MAX,
    ensures
        n >= 1 ==> counted(decimal(n)) == Some(n),
        n < 1 ==> counted(decimal(n)) is None,
        trim(text).len() == 0 ==> counted(text) is None,
        counted(text) matches Some(m) ==> 1 <= m <= i32::MAX,
{
    decimal_is_read_back(n, i32::MIN as int, i32::MAX as int);
    a_number_is_trimmed(n);
}

/// A form is a topic where it has a name, positive counts, and no retention or one that is a
/// number; and only there.
pub proof fn complete_forms_are_topics(
    name: Seq<char>,
    partitions: Seq<char>,
    replication: Seq<char>,
    retention: Seq<char>,
)
    ensures
        topic_complaint(name, partitions, replication, retention) is None <==> {
            &&& trim(name).len() > 0
            &&& counted(partitions) is Some
            &&& counted(replication) is Some
            &&& trim(retention).len() == 0 || parsed_int(trim(retention), i64::MIN as int, i64::MAX as int) is Some
        },
{
}

/// The topic that is deleted is the one that was clicked for the menu, and only without one
/// the one that is selected.
pub proof fn the_clicked_topic_is_deleted(list: &TopicListDelegate, topic: Option<Arc<TopicInfo>>)
    requires
        call_ensures(TopicListDelegate::topic_to_delete, (list,), topic),
    ensures
        list@.right_clicked matches Some(row) ==> (row < list@.rows().len() ==> topic == Some(
            list@.all[list@.rows()[row as int] as int],
        )),
        list@.right_clicked is None ==> (list@.selected matches Some(row) ==> (row < list@.rows().len() ==> topic
            == Some(list@.all[list@.rows()[row as int] as int]))),
        list@.right_clicked is None && list@.selected is None ==> topic is None,
{
}

/// The topic of a form has its name, its counts, and its retention where one is written.
pub proof fn a_new_topic_is_as_written(
    name: &str,
    partitions: &str,
    replication: &str,
    retention: &str,
    made: Result<NewTopicSpec, String>,
    p: int,
    r: int,
)
    requires
        call_ensures(new_topic, (name, partitions, replication, retention), made),
        partitions@ == decimal(p),
        replication@ == decimal(r),
        i32::MIN <= p <= i32::MAX,
        i32::MIN <= r <= i32::MAX,
        retention@.len() == 0,
    ensures
        made is Ok <==> trim(name@).len() > 0 && p >= 1 && r >= 1,
        made matches Ok(topic) ==> topic.name@ == trim(name@) && topic.partitions == p && topic.replication_factor == r
            && topic.configs@.len() == 0,
{
    counts_are_read_as_written(p, name@);
    counts_are_read_as_written(r, name@);
    complete_forms_are_topics(name@, partitions@, replication@, retention@);
    assert(trim(retention@) =~= Seq::empty());
    if made is Ok {
        let topic = made->Ok_0;
        assert(config_texts(topic.configs@).len() == topic.configs@.len());
    }
}

/// A retention that is written as a number of milliseconds is the one of the topic.
pub proof fn a_written_retention_is_kept(
    name: &str,
    partitions: &str,
    replication: &str,
    retention: &str,
    made: Result<NewTopicSpec, String>,
    ms: int,
)
    requires
        call_ensures(new_topic, (name, partitions, replication, retention), made),
        retention@ == decimal(ms),
        i64::MIN <= ms <= i64::MAX,
    ensures
        made matches Ok(topic) ==> topic.configs@.len() == 1 && topic.configs@[0].0@ == "retention.ms"@
            && topic.configs@[0].1@ == decimal(ms),
{
    a_number_is_trimmed(ms);
    if made is Ok {
        let topic = made->Ok_0;
        assert(config_texts(topic.configs@).len() == topic.configs@.len());
        assert(config_texts(topic.configs@)[0] == (topic.configs@[0].0@, topic.configs@[0].1@));
    }
}

/// A search lists the topics whose names hold the query, without the white space around it and
/// in any case.
pub proof fn a_search_lists_matching_topics(list: &mut TopicListDelegate, query: &str, place: int)
    requires
        call_ensures(TopicListDelegate::perform_search, (list, query), ()),
        0 <= place < old(list)@.all.len() <= usize::MAX,
        is_ascii(trim(query@)),
        is_ascii(old(list)@.all[place].name@),
        !starts_with(old(list)@.all[place].name@, "__"@),
    ensures
        final(list)@.all == old(list)@.all,
        final(list)@.rows().contains(place as usize) <==> trim(query@).len() == 0 || contains_text(
            ascii_lowered(old(list)@.all[place].name@),
            ascii_lowered(trim(query@)),
        ),
{
    rows_are_the_listed_topics(final(list)@);
    let name = final(list)@.all[place].name@;
    assert(is_listed_plainly(name, final(list)@.show_internal, final(list)@.query));
    assert(ascii_lowered(trim(query@)).len() == trim(query@).len());
}

/// Other topics are listed with none of them selected, and the query stays; a topic that is
/// selected by its name is then the selected one.
pub proof fn a_topic_is_selected_by_its_name(
    list: &mut TopicListDelegate,
    name: &str,
    row: Option<usize>,
    topic: Option<Arc<TopicInfo>>,
)
    requires
        call_ensures(TopicListDelegate::select_topic, (list, name), row),
        call_ensures(TopicListDelegate::selected_topic, (&*final(list),), topic),
    ensures
        row is Some ==> (topic matches Some(t) && t.name@ == name@),
        row is None ==> final(list)@ == old(list)@,
        (exists|k: int|
            0 <= k < old(list)@.rows().len() && old(list)@.all[#[trigger] old(list)@.rows()[k] as int].name@ == name@)
            ==> row is Some,
        final(list)@.all == old(list)@.all && final(list)@.query == old(list)@.query,
{
    a_row_is_found_by_its_name(old(list)@, name@, 0);
    if row is Some {
        assert(final(list)@.rows() == old(list)@.rows());
        assert(final(list)@.at(row->0 as int) == old(list)@.at(row->0 as int));
    }
}

/// New topics are listed as the old ones were, and none of them is selected.
pub proof fn new_topics_are_listed_unselected(list: &mut TopicListDelegate, topics: Vec<Arc<TopicInfo>>)
    requires
        call_ensures(TopicListDelegate::set_topics, (list, topics), ()),
    ensures
        final(list)@.all == topics@,
        final(list)@.selected is None,
        final(list)@.query == old(list)@.query && final(list)@.show_internal == old(list)@.show_internal,
{
}

/// The rows of a list are counted, each shows its own topic, and marking a row marks no other.
pub proof fn rows_show_their_topics(
    list: &mut TopicListDelegate,
    row: usize,
    count: usize,
    topic: Option<Arc<TopicInfo>>,
    marked: Option<Arc<TopicInfo>>,
)
    requires
        call_ensures(TopicListDelegate::items_count, (&*old(list),), count),
        call_ensures(TopicListDelegate::topic_at, (&*old(list), row), topic),
        call_ensures(TopicListDelegate::set_right_clicked_index, (list, Some(row)), ()),
        call_ensures(TopicListDelegate::right_clicked_topic, (&*final(list),), marked),
    ensures
        count == old(list)@.rows().len(),
        row < count ==> topic == Some(old(list)@.all[old(list)@.rows()[row as int] as int]),
        row >= count ==> topic is None,
        marked == topic,
        final(list)@.all == old(list)@.all && final(list)@.selected == old(list)@.selected,
{
    assert(final(list)@.rows() == old(list)@.rows());
}

/// A row that is selected is the selected one, and the topics stay.
pub proof fn a_selected_row_is_the_selected_topic(
    list: &mut TopicListDelegate,
    row: Option<usize>,
    topic: Option<Arc<TopicInfo>>,
)
    requires
        call_ensures(TopicListDelegate::set_selected_index, (list, row), ()),
        call_ensures(TopicListDelegate::selected_topic, (&*final(list),), topic),
    ensures
        row is None ==> topic is None,
        row matches Some(r) ==> (r < old(list)@.rows().len() ==> topic == Some(
            old(list)@.all[old(list)@.rows()[r as int] as int],
        )),
        final(list)@.all == old(list)@.all && final(list)@.query == old(list)@.query,
{
    assert(final(list)@.rows() == old(list)@.rows());
}

/// Internal topics are listed where they are wanted, and an empty query is answered by each
/// name.
pub proof fn internal_topics_are_listed_where_wanted(
    list: &mut TopicListDelegate,
    show: bool,
    now: bool,
    name: &str,
    query: &str,
    found: bool,
)
    requires
        call_ensures(TopicListDelegate::set_show_internal, (list, show), ()),
        call_ensures(TopicListDelegate::show_internal, (&*final(list),), now),
        call_ensures(answers, (name, query), found),
    ensures
        now == show,
        final(list)@.all == old(list)@.all && final(list)@.query == old(list)@.query,
        query@.len() == 0 ==> found,
        name@ == query@ ==> found,
        query@.len() > name@.len() ==> !found,
{
    if name@ == query@ {
        crate::text::a_text_is_found_where_it_stands(Seq::empty(), query@, Seq::empty(), query@);
        assert(Seq::<char>::empty() + query@ + Seq::<char>::empty() =~= name@);
    }
}

/// A form that is no topic is refused for the first entry that is wrong, and this is said.
pub proof fn a_refused_topic_is_told_why(
    name: &str,
    partitions: &str,
    replication: &str,
    retention: &str,
    made: Result<NewTopicSpec, String>,
)
    requires
        call_ensures(new_topic, (name, partitions, replication, retention), made),
    ensures
        trim(name@).len() == 0 ==> (made matches Err(message) && message@ == "Topic name must not be empty"@),
        trim(name@).len() > 0 && counted(partitions@) is None ==> (made matches Err(message) && message@
            == "Partitions"@ + " must be a positive number"@),
        trim(name@).len() > 0 && counted(partitions@) is Some && counted(replication@) is None ==> (made matches Err(
            message,
        ) && message@ == "Replication factor"@ + " must be a positive number"@),
        made matches Err(message) ==> (trim(name@).len() > 0 && counted(partitions@) is Some && counted(replication@) is Some
            ==> message@ == "Retention must be a number of milliseconds"@),
{
}

} // verus!
