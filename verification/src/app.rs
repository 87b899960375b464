//! The window: its tabs, the connections, and what is shown of them.

use std::sync::Arc;

use vstd::prelude::*;

use crate::kafka::metadata::{BrokerInfo, ClusterInfo, TopicInfo};
use crate::kafka::service::KafkaService;
use crate::model::message::share;
use crate::model::profile::{
    a_found_place_is_in_the_row, a_put_profile_is_found, an_import_takes_the_place_of_its_name, find_id, others_are_kept, find_name, place_of_id, place_of_name,
    profiles_are_found_at_their_first_place, put_profile, remove_id, removing_takes_out_an_id_alone, saving_keeps_the_others, with_known_id, with_profile, without_id,
    ConnectionProfile, Security, DEV_PROFILE_ID,
};
use crate::model::settings::{default_settings, Settings};
use crate::text::{clone_option, decimal, decimal_text, joined, joined3, option_view, same_text, views};
use crate::text_map::TextMap;
use crate::ui::consumers::{on_new_topic, topic_name, ConsumersState, ConsumersView};
use crate::ui::messages::{emptied, partition_items, stays_on_topic, MessagesState, MessagesView};
use crate::ui::produce::{ProduceState, ProduceView};
use crate::ui::topics::{a_row_is_found_by_its_name, TopicList, TopicListDelegate};

verus! {

/// What a tab shows of its topic.
#[derive(Debug, Clone, Copy, PartialEq, Eq, Structural)]
pub enum MainTab {
    Messages,
    Produce,
    Consumers,
}

impl Default for MainTab {
    fn default() -> (tab: Self)
        ensures
            tab == MainTab::Messages,
    {
        MainTab::Messages
    }
}

impl MainTab {
    pub const ALL: [MainTab; 3] = [MainTab::Messages, MainTab::Produce, MainTab::Consumers];

    pub fn label(self) -> (label: &'static str)
        ensures
            label@ == (match self {
                MainTab::Messages => "Messages"@,
                MainTab::Produce => "Produce"@,
                MainTab::Consumers => "Consumers"@,
            }),
    {
        match self {
            MainTab::Messages => "Messages",
            MainTab::Produce => "Produce",
            MainTab::Consumers => "Consumers",
        }
    }

    /// The place of a tab.
    pub fn place(self) -> (place: usize)
        ensures
            place == (match self {
                MainTab::Messages => 0int,
                MainTab::Produce => 1,
                MainTab::Consumers => 2,
            }),
    {
        match self {
            MainTab::Messages => 0,
            MainTab::Produce => 1,
            MainTab::Consumers => 2,
        }
    }

    /// The tab at a place; behind the last one it is the last.
    pub fn at(place: usize) -> (tab: MainTab)
        ensures
            tab == (if place == 0 {
                MainTab::Messages
            } else if place == 1 {
                MainTab::Produce
            } else {
                MainTab::Consumers
            }),
    {
        if place == 0 {
            MainTab::Messages
        } else if place == 1 {
            MainTab::Produce
        } else {
            MainTab::Consumers
        }
    }
}

/// What the user was looking at on a connection, so a switch can return to it.
#[derive(Debug)]
pub struct ConnectionView {
    pub topic: Option<String>,
    pub tab: MainTab,
}

/// The largest number of tabs the window keeps.
pub const MAX_TABS: usize = 13;

/// One tab. It owns its own views, so a switch between tabs reloads nothing.
pub struct Session<W> {
    pub id: u64,
    pub connection: Option<String>,
    pub topic: Option<Arc<TopicInfo>>,
    pub tab: MainTab,
    pub views: W,
}

/// What is known of a cluster that was reached.
#[derive(Debug)]
pub struct LoadedCluster {
    pub brokers: Vec<BrokerInfo>,
    pub topics: Vec<Arc<TopicInfo>>,
}

impl LoadedCluster {
    /// A cluster, with its topics to be shared.
    pub fn new(cluster: ClusterInfo) -> (loaded: Self)
        ensures
            loaded.brokers == cluster.brokers,
            loaded.topics@.len() == cluster.topics@.len(),
            forall|i: int| 0 <= i < cluster.topics@.len() ==> *(#[trigger] loaded.topics@[i]) == cluster.topics@[i],
    {
        let ClusterInfo { brokers, topics } = cluster;
        let ghost given = topics@;
        let mut rest = crate::order::reversed(topics);
        let mut shared: Vec<Arc<TopicInfo>> = Vec::new();
        while rest.len() > 0
            invariant
                rest@.len() + shared@.len() == given.len(),
                forall|k: int| 0 <= k < rest@.len() ==> rest@[k] == given[given.len() - 1 - k],
                forall|k: int| 0 <= k < shared@.len() ==> *(#[trigger] shared@[k]) == given[k],
            decreases rest.len(),
        {
            match rest.pop() {
                Some(topic) => {
                    shared.push(Arc::new(topic));
                },
                None => {},
            }
        }
        LoadedCluster { brokers, topics: shared }
    }
}

/// How a connection is doing.
#[derive(Debug)]
pub enum ConnState {
    Connecting,
    Connected(LoadedCluster),
    Failed(String),
}

/// Whether each worker has a number of its own, below the next one.
pub open spec fn told_apart(workers: Map<Seq<char>, u64>, next: int) -> bool {
    &&& forall|id: Seq<char>| #[trigger] workers.contains_key(id) ==> workers[id] < next
    &&& forall|a: Seq<char>, b: Seq<char>|
        #![trigger workers[a], workers[b]]
        workers.contains_key(a) && workers.contains_key(b) && workers[a] == workers[b] ==> a == b
}

proof fn fewer_are_told_apart(workers: Map<Seq<char>, u64>, next: int, id: Seq<char>)
    requires
        told_apart(workers, next),
    ensures
        told_apart(workers.remove(id), next),
{
    let fewer = workers.remove(id);
    assert forall|k: Seq<char>| #[trigger] fewer.contains_key(k) implies fewer[k] < next by {
        assert(workers.contains_key(k) && fewer[k] == workers[k]);
    }
    assert forall|a: Seq<char>, b: Seq<char>|
        #![trigger fewer[a], fewer[b]]
        fewer.contains_key(a) && fewer.contains_key(b) && fewer[a] == fewer[b] implies a == b by {
        assert(workers.contains_key(a) && fewer[a] == workers[a]);
        assert(workers.contains_key(b) && fewer[b] == workers[b]);
    }
}

/// The window.
pub struct KafkamitterApp<W> {
    /// The workers that run, each by a number that no other ever had.
    pub kafka: KafkaService<u64>,
    pub next_worker: u64,
    pub profiles: Vec<ConnectionProfile>,
    pub states: TextMap<ConnState>,
    pub views: TextMap<ConnectionView>,
    pub dev_passwords: TextMap<String>,
    pub sessions: Vec<Session<W>>,
    pub current: usize,
    pub next_session_id: u64,
    pub topics: TopicListDelegate,
    pub settings: Settings,
    pub reselect_after_refresh: Option<String>,
}

/// The window as values.
pub struct AppState<W> {
    pub workers: Map<Seq<char>, u64>,
    pub next_worker: int,
    pub profiles: Seq<ConnectionProfile>,
    pub states: Map<Seq<char>, ConnState>,
    pub views: Map<Seq<char>, ConnectionView>,
    pub dev_passwords: Map<Seq<char>, String>,
    pub sessions: Seq<Session<W>>,
    pub current: int,
    pub next_session_id: int,
    pub topics: TopicList,
    pub settings: Settings,
    pub reselect_after_refresh: Option<String>,
}

impl<W> View for KafkamitterApp<W> {
    type V = AppState<W>;

    open spec fn view(&self) -> AppState<W> {
        AppState {
            workers: self.kafka.handles(),
            next_worker: self.next_worker as int,
            profiles: self.profiles@,
            states: self.states@,
            views: self.views@,
            dev_passwords: self.dev_passwords@,
            sessions: self.sessions@,
            current: self.current as int,
            next_session_id: self.next_session_id as int,
            topics: self.topics@,
            settings: self.settings,
            reselect_after_refresh: self.reselect_after_refresh,
        }
    }
}

/// What the views of a tab have to show.
pub struct Sync {
    pub session: u64,
    pub worker: Option<u64>,
    pub topic: Option<Arc<TopicInfo>>,
}

/// A cluster that has to be asked for its brokers and topics.
pub struct ConnectOrder {
    pub id: String,
    pub worker: u64,
    /// Whether the worker has to be started first.
    pub fresh: bool,
    pub profile: ConnectionProfile,
    pub password: Option<String>,
}

/// What has to be done behind a choice of the user.
pub enum Step {
    /// Nothing.
    Stay,
    /// Draw the window anew.
    Redraw,
    /// Let the views of the tab show what it is on.
    Show(Sync),
    /// The same, and ask a cluster.
    Connect(ConnectOrder, Sync),
}

/// The name of an optional topic, as it is kept.
pub open spec fn kept_name(topic: Option<Arc<TopicInfo>>) -> Option<String> {
    match topic {
        Some(t) => Some(t.name),
        None => None,
    }
}

fn name_of(topic: &Option<Arc<TopicInfo>>) -> (name: Option<String>)
    ensures
        name == kept_name(*topic),
{
    match topic {
        Some(t) => Some(t.name.clone()),
        None => None,
    }
}

/// A tab that is on nothing yet.
pub open spec fn fresh_session<W>(id: int, views: W) -> Session<W> {
    Session { id: id as u64, connection: None, topic: None, tab: MainTab::Messages, views }
}

fn copied_topics(topics: &Vec<Arc<TopicInfo>>) -> (copy: Vec<Arc<TopicInfo>>)
    ensures
        copy@ == topics@,
{
    let mut copy: Vec<Arc<TopicInfo>> = Vec::new();
    let mut i: usize = 0;
    while i < topics.len()
        invariant
            i <= topics@.len(),
            copy@ == topics@.take(i as int),
        decreases topics.len() - i,
    {
        copy.push(share(&topics[i]));
        i = i + 1;
        assert(topics@.take(i as int) =~= copy@);
    }
    assert(topics@.take(i as int) =~= topics@);
    copy
}

/// A list with the topic of a name selected, where it is listed.
pub open spec fn selecting(list: TopicList, name: Seq<char>) -> TopicList {
    match list.row_of(name, 0) {
        Some(row) => TopicList { selected: Some(row as usize), ..list },
        None => list,
    }
}

/// The topic of a name, where it is listed.
pub open spec fn listed_topic(list: TopicList, name: Seq<char>) -> Option<Arc<TopicInfo>> {
    match list.row_of(name, 0) {
        Some(row) => list.at(row),
        None => None,
    }
}

impl<W> AppState<W> {
    /// The tab that is shown.
    pub open spec fn session(self) -> Session<W> {
        self.sessions[self.current]
    }

    /// The connection of the tab that is shown.
    pub open spec fn connection(self) -> Option<Seq<char>> {
        option_view(self.session().connection)
    }

    /// The window with another value for the tab that is shown.
    pub open spec fn with_session(self, session: Session<W>) -> Self {
        AppState { sessions: self.sessions.update(self.current, session), ..self }
    }

    /// The window with other topics in its list.
    pub open spec fn listing(self, topics: Seq<Arc<TopicInfo>>) -> Self {
        AppState { topics: TopicList { all: topics, selected: None, ..self.topics }, ..self }
    }

    /// The topics of a connection that was reached.
    pub open spec fn topics_of(self, id: Option<Seq<char>>) -> Seq<Arc<TopicInfo>> {
        match id {
            Some(i) => if self.states.contains_key(i) {
                match self.states[i] {
                    ConnState::Connected(cluster) => cluster.topics@,
                    _ => Seq::empty(),
                }
            } else {
                Seq::empty()
            },
            None => Seq::empty(),
        }
    }

    /// The window with its list on what the shown tab is on. No cluster is asked for it.
    pub open spec fn with_sidebar(self) -> Self {
        let next = self.listing(self.topics_of(self.connection()));
        match self.session().topic {
            Some(topic) => AppState { topics: selecting(next.topics, topic.name@), ..next },
            None => next,
        }
    }

    /// The shown tab on the topic of a name; on none where it is not listed.
    pub open spec fn on_topic(self, name: Seq<char>) -> Self {
        AppState { topics: selecting(self.topics, name), ..self }.with_session(
            Session { topic: listed_topic(self.topics, name), ..self.session() },
        )
    }

    /// The window after the view of the shown connection was stored.
    pub open spec fn remembering(self) -> Self {
        match self.session().connection {
            Some(id) => AppState {
                views: self.views.insert(
                    id@,
                    ConnectionView { topic: kept_name(self.session().topic), tab: self.session().tab },
                ),
                ..self
            },
            None => self,
        }
    }

    /// The window with the shown tab as it was left on a connection.
    pub open spec fn restoring(self, id: Seq<char>) -> Self {
        if self.views.contains_key(id) {
            let view = self.views[id];
            let tabbed = self.with_session(Session { tab: view.tab, ..self.session() });
            match view.topic {
                Some(name) => tabbed.on_topic(name@),
                None => tabbed,
            }
        } else {
            self
        }
    }

    /// What the views of the shown tab have to show.
    pub open spec fn sync(self) -> Sync {
        Sync {
            session: self.session().id,
            worker: match self.connection() {
                Some(id) => if self.workers.contains_key(id) {
                    Some(self.workers[id])
                } else {
                    None
                },
                None => None,
            },
            topic: self.session().topic,
        }
    }

    // ---- tabs ----

    /// The window with one more tab, which is shown, where there is room for it.
    pub open spec fn adding(self, views: W) -> Self {
        if self.sessions.len() >= MAX_TABS {
            self
        } else {
            AppState {
                sessions: self.sessions.push(fresh_session(self.next_session_id, views)),
                current: self.sessions.len() as int,
                next_session_id: self.next_session_id + 1,
                ..self
            }
        }
    }

    /// The window with one more tab that is on what another one is on.
    pub open spec fn duplicating(self, ix: int, views: W) -> Self {
        if 0 <= ix < self.sessions.len() && self.sessions.len() < MAX_TABS {
            let source = self.sessions[ix];
            let added = self.adding(views);
            added.with_session(
                Session {
                    connection: source.connection,
                    topic: source.topic,
                    tab: source.tab,
                    ..added.session()
                },
            ).with_sidebar()
        } else {
            self
        }
    }

    /// The window with one fresh tab and no other.
    pub open spec fn starting_over(self, views: W) -> Self {
        AppState {
            sessions: seq![fresh_session(self.next_session_id, views)],
            current: 0,
            next_session_id: self.next_session_id + 1,
            ..self
        }.with_sidebar()
    }

    /// The window without a tab. The last one gives way to a fresh one, and the shown
    /// one stays unless it goes.
    pub open spec fn closing(self, ix: int, views: W) -> Self {
        if !(0 <= ix < self.sessions.len()) {
            self
        } else if self.sessions.len() == 1 {
            self.starting_over(views)
        } else {
            AppState {
                sessions: self.sessions.remove(ix),
                current: if self.current > ix || self.current == self.sessions.len() - 1 {
                    self.current - 1
                } else {
                    self.current
                },
                ..self
            }.with_sidebar()
        }
    }

    /// The window with another tab shown.
    pub open spec fn showing(self, ix: int) -> Self {
        if 0 <= ix < self.sessions.len() && ix != self.current {
            AppState { current: ix, ..self }.with_sidebar()
        } else {
            self
        }
    }

    // ---- connections ----

    /// The password of a connection: one that the environment brought, or the one that
    /// is stored with it.
    pub open spec fn password_of(self, profile: ConnectionProfile) -> Option<String> {
        if self.dev_passwords.contains_key(profile.id@) {
            Some(self.dev_passwords[profile.id@])
        } else {
            profile.password
        }
    }

    /// The window with the shown tab on a connection that is being reached, and what has
    /// to be asked. A connection that there is not changes nothing.
    pub open spec fn connecting(self, id: String) -> (Self, Step) {
        match place_of_id(self.profiles, id@, 0) {
            None => (self, Step::Stay),
            Some(place) => {
                let profile = self.profiles[place];
                let fresh = !self.workers.contains_key(id@);
                let worker = if fresh {
                    self.next_worker as u64
                } else {
                    self.workers[id@]
                };
                let left = if self.connection() == Some(id@) {
                    self
                } else {
                    self.remembering()
                };
                let next = AppState {
                    workers: if fresh {
                        self.workers.insert(id@, worker)
                    } else {
                        self.workers
                    },
                    next_worker: if fresh {
                        self.next_worker + 1
                    } else {
                        self.next_worker
                    },
                    states: left.states.insert(id@, ConnState::Connecting),
                    ..left
                }.with_session(Session { connection: Some(id), topic: None, ..self.session() }).listing(Seq::empty());
                let order = ConnectOrder { id, worker, fresh, profile, password: self.password_of(profile) };
                (next, Step::Connect(order, next.sync()))
            },
        }
    }

    /// The window with the shown tab on a connection. One that was reached before is
    /// shown as it was left, and no cluster is asked.
    pub open spec fn activating(self, id: String) -> (Self, Step) {
        if self.connection() == Some(id@) {
            (self, Step::Stay)
        } else {
            let left = self.remembering();
            let moved = Session { connection: Some(id), ..self.session() };
            if left.states.contains_key(id@) && left.states[id@] is Connected {
                let next = left.with_session(Session { topic: None, ..moved }).listing(
                    left.topics_of(Some(id@)),
                ).restoring(id@);
                (next, Step::Show(next.sync()))
            } else if left.states.contains_key(id@) && left.states[id@] is Connecting {
                (left.with_session(moved), Step::Redraw)
            } else {
                left.connecting(id)
            }
        }
    }

    /// The window without the worker and the state of a connection.
    pub open spec fn dropping(self, id: Seq<char>) -> Self {
        AppState { workers: self.workers.remove(id), states: self.states.remove(id), ..self }
    }

    /// The window after a connection was given up. A tab that shows it is on none.
    pub open spec fn disconnecting(self, id: Seq<char>) -> (Self, Option<Sync>) {
        if self.connection() == Some(id) {
            let next = self.remembering().dropping(id).with_session(
                Session { connection: None, topic: None, ..self.session() },
            ).listing(Seq::empty());
            (next, Some(next.sync()))
        } else {
            (self.dropping(id), None)
        }
    }

    /// The window after a connection was saved. It is given up, for it may be another
    /// one now.
    pub open spec fn upserting(self, profile: ConnectionProfile, password: Option<String>) -> (Self, Option<Sync>) {
        let kept = match password {
            Some(p) => if p@.len() == 0 {
                None
            } else {
                Some(p)
            },
            None => None,
        };
        AppState {
            profiles: with_profile(self.profiles, ConnectionProfile { password: kept, ..profile }),
            ..self
        }.disconnecting(profile.id@)
    }

    /// The window after a connection was removed.
    pub open spec fn removing(self, id: Seq<char>) -> (Self, Option<Sync>) {
        let (next, sync) = self.disconnecting(id);
        (AppState { profiles: without_id(next.profiles, id), views: next.views.remove(id), ..next }, sync)
    }

    /// The window after the cluster of the shown tab was asked anew. The topic that is
    /// shown is to come back.
    pub open spec fn refreshing(self) -> (Self, Step) {
        match self.session().connection {
            Some(id) => {
                let (next, step) = self.connecting(id);
                (AppState { reselect_after_refresh: kept_name(self.session().topic), ..next }, step)
            },
            None => (self, Step::Stay),
        }
    }

    /// The window after a cluster answered, or failed to.
    pub open spec fn loading(self, id: Seq<char>, result: Result<LoadedCluster, String>) -> (Self, Option<Sync>) {
        match result {
            Ok(cluster) => {
                let known = AppState { states: self.states.insert(id, ConnState::Connected(cluster)), ..self };
                if self.connection() == Some(id) {
                    let list = known.listing(cluster.topics@);
                    let next = match self.reselect_after_refresh {
                        Some(name) => AppState { reselect_after_refresh: None, ..list }.on_topic(name@),
                        None => list.restoring(id),
                    };
                    (next, Some(next.sync()))
                } else {
                    (known, None)
                }
            },
            Err(reason) => (
                AppState {
                    states: self.states.insert(id, ConnState::Failed(reason)),
                    workers: self.workers.remove(id),
                    ..self
                },
                None,
            ),
        }
    }

    /// The place of the connection that is so many steps away from the shown one, round
    /// and round.
    pub open spec fn place_by_offset(self, offset: int) -> int {
        let from = match self.connection() {
            Some(id) => match place_of_id(self.profiles, id, 0) {
                Some(place) => place,
                None => -1,
            },
            None => -1,
        };
        (from + offset) % (self.profiles.len() as int)
    }

    /// A window has at least one tab and no more than it keeps, the shown one is among
    /// them, and each has a number of its own. So has each worker.
    pub open spec fn ok(self) -> bool {
        &&& 1 <= self.sessions.len() <= MAX_TABS
        &&& 0 <= self.current < self.sessions.len()
        &&& forall|i: int| 0 <= i < self.sessions.len() ==> (#[trigger] self.sessions[i]).id < self.next_session_id
        &&& forall|i: int, j: int|
            #![trigger self.sessions[i], self.sessions[j]]
            0 <= i < j < self.sessions.len() ==> self.sessions[i].id != self.sessions[j].id
        &&& told_apart(self.workers, self.next_worker)
    }
}

impl<W> KafkamitterApp<W> {
    pub open spec fn wf(&self) -> bool {
        &&& self@.ok()
        &&& self.kafka.wf()
        &&& self.states.wf()
        &&& self.views.wf()
        &&& self.dev_passwords.wf()
        &&& self.topics.wf()
    }

    /// A window with one tab and no connections.
    pub fn new(views: W) -> (app: Self)
        ensures
            app.wf(),
            app@ == (AppState {
                workers: Map::empty(),
                next_worker: 0,
                profiles: Seq::empty(),
                states: Map::empty(),
                views: Map::empty(),
                dev_passwords: Map::empty(),
                sessions: seq![Session { id: 0, connection: None, topic: None, tab: MainTab::Messages, views }],
                current: 0,
                next_session_id: 1,
                topics: TopicList {
                    all: Seq::empty(),
                    query: Seq::empty(),
                    show_internal: false,
                    selected: None,
                    right_clicked: None,
                },
                settings: default_settings(),
                reselect_after_refresh: None,
            }),
    {
        let mut sessions: Vec<Session<W>> = Vec::new();
        sessions.push(Session { id: 0, connection: None, topic: None, tab: MainTab::Messages, views });
        assert(sessions@ =~= seq![Session { id: 0, connection: None, topic: None, tab: MainTab::Messages, views }]);
        KafkamitterApp {
            kafka: KafkaService::new(),
            next_worker: 0,
            profiles: Vec::new(),
            states: TextMap::new(),
            views: TextMap::new(),
            dev_passwords: TextMap::new(),
            sessions,
            current: 0,
            next_session_id: 1,
            topics: TopicListDelegate::new(),
            settings: Settings::default(),
            reselect_after_refresh: None,
        }
    }

    fn set_connection(&mut self, connection: Option<String>)
        requires
            old(self).wf(),
        ensures
            final(self).wf(),
            final(self)@ == old(self)@.with_session(Session { connection, ..old(self)@.session() }),
    {
        self.sessions[self.current].connection = connection;
        assert(self@.sessions =~= old(self)@.with_session(Session { connection, ..old(self)@.session() }).sessions);
    }

    fn set_topic(&mut self, topic: Option<Arc<TopicInfo>>)
        requires
            old(self).wf(),
        ensures
            final(self).wf(),
            final(self)@ == old(self)@.with_session(Session { topic, ..old(self)@.session() }),
    {
        self.sessions[self.current].topic = topic;
        assert(self@.sessions =~= old(self)@.with_session(Session { topic, ..old(self)@.session() }).sessions);
    }

    /// Shows another part of the topic.
    pub fn set_tab(&mut self, tab: MainTab)
        requires
            old(self).wf(),
        ensures
            final(self).wf(),
            final(self)@ == old(self)@.with_session(Session { tab, ..old(self)@.session() }),
    {
        self.sessions[self.current].tab = tab;
        assert(self@.sessions =~= old(self)@.with_session(Session { tab, ..old(self)@.session() }).sessions);
    }

    /// The tab that is shown.
    pub fn session(&self) -> (session: &Session<W>)
        requires
            self.wf(),
        ensures
            *session == self@.session(),
    {
        &self.sessions[self.current]
    }

    /// Whether the shown tab is on a connection.
    fn is_on(&self, id: &str) -> (on: bool)
        requires
            self.wf(),
        ensures
            on == (self@.connection() == Some(id@)),
    {
        match &self.sessions[self.current].connection {
            Some(connection) => same_text(connection, id),
            None => false,
        }
    }

    /// The topics of a connection that was reached.
    fn topics_of(&self, id: &str) -> (topics: Vec<Arc<TopicInfo>>)
        requires
            self.wf(),
        ensures
            topics@ == self@.topics_of(Some(id@)),
    {
        match self.states.get(id) {
            Some(state) => match state {
                ConnState::Connected(cluster) => copied_topics(&cluster.topics),
                _ => Vec::new(),
            },
            None => Vec::new(),
        }
    }

    /// Points the list of topics at the shown tab. It reads the cached cluster only, so
    /// a switch between tabs asks no cluster for anything.
    fn sync_sidebar_to_session(&mut self)
        requires
            old(self).wf(),
        ensures
            final(self).wf(),
            final(self)@ == old(self)@.with_sidebar(),
    {
        let topics: Vec<Arc<TopicInfo>> = match &self.sessions[self.current].connection {
            Some(id) => self.topics_of(id),
            None => Vec::new(),
        };
        self.topics.set_topics(topics);
        match name_of(&self.sessions[self.current].topic) {
            Some(name) => {
                self.topics.select_topic(&name);
            },
            None => {},
        }
    }

    /// Puts the shown tab on the topic of a name; on none where it is not listed.
    pub fn select_topic_by_name(&mut self, name: &str)
        requires
            old(self).wf(),
        ensures
            final(self).wf(),
            final(self)@ == old(self)@.on_topic(name@),
    {
        let found: Option<Arc<TopicInfo>> = match self.topics.select_topic(name) {
            Some(row) => self.topics.topic_at(row),
            None => None,
        };
        self.set_topic(found);
    }

    /// What the views of the shown tab have to show.
    pub fn sync_messages_view(&self) -> (sync: Sync)
        requires
            self.wf(),
        ensures
            sync == self@.sync(),
    {
        let session: &Session<W> = &self.sessions[self.current];
        let worker: Option<u64> = match &session.connection {
            Some(id) => match self.kafka.existing(id) {
                Some(handle) => Some(*handle),
                None => None,
            },
            None => None,
        };
        let topic: Option<Arc<TopicInfo>> = match &session.topic {
            Some(t) => Some(share(t)),
            None => None,
        };
        Sync { session: session.id, worker, topic }
    }

    // ---- tabs ----

    /// Adds a tab and shows it, where there is room for it.
    pub fn add_session(&mut self, views: W) -> (added: bool)
        requires
            old(self).wf(),
            old(self)@.next_session_id < u64::MAX,
        ensures
            final(self).wf(),
            added == (old(self)@.sessions.len() < MAX_TABS),
            final(self)@ == old(self)@.adding(views),
    {
        if self.sessions.len() >= MAX_TABS {
            return false;
        }
        let id: u64 = self.next_session_id;
        self.next_session_id = self.next_session_id + 1;
        self.sessions.push(Session { id, connection: None, topic: None, tab: MainTab::Messages, views });
        self.current = self.sessions.len() - 1;
        true
    }

    pub fn on_new_tab(&mut self, views: W) -> (added: bool)
        requires
            old(self).wf(),
            old(self)@.next_session_id < u64::MAX,
        ensures
            final(self).wf(),
            added == (old(self)@.sessions.len() < MAX_TABS),
            final(self)@ == (if added {
                old(self)@.adding(views).with_sidebar()
            } else {
                old(self)@
            }),
    {
        if self.add_session(views) {
            self.sync_sidebar_to_session();
            return true;
        }
        false
    }

    /// Adds a tab that is on what another one is on, where there is room for it. What
    /// its views have to show.
    pub fn duplicate_session(&mut self, ix: usize, views: W) -> (sync: Option<Sync>)
        requires
            old(self).wf(),
            old(self)@.next_session_id < u64::MAX,
        ensures
            final(self).wf(),
            final(self)@ == old(self)@.duplicating(ix as int, views),
            sync == (if ix < old(self)@.sessions.len() < MAX_TABS {
                Some(final(self)@.sync())
            } else {
                None
            }),
    {
        if ix >= self.sessions.len() {
            return None;
        }
        let source: &Session<W> = &self.sessions[ix];
        let connection: Option<String> = clone_option(&source.connection);
        let topic: Option<Arc<TopicInfo>> = match &source.topic {
            Some(t) => Some(share(t)),
            None => None,
        };
        let tab: MainTab = source.tab;
        if !self.add_session(views) {
            return None;
        }
        self.set_connection(connection);
        self.set_topic(topic);
        self.set_tab(tab);
        proof {
            let added = old(self)@.adding(views);
            assert(self@.sessions =~= added.with_session(
                Session { connection, topic, tab, ..added.session() },
            ).sessions);
        }
        self.sync_sidebar_to_session();
        Some(self.sync_messages_view())
    }

    /// Closes a tab. The last one gives way to a fresh one.
    pub fn close_session(&mut self, ix: usize, fresh: W)
        requires
            old(self).wf(),
            old(self)@.next_session_id < u64::MAX,
        ensures
            final(self).wf(),
            final(self)@ == old(self)@.closing(ix as int, fresh),
    {
        if ix >= self.sessions.len() {
            return;
        }
        let _closed = self.sessions.remove(ix);
        let left: usize = self.sessions.len();
        if left == 0 {
            let id: u64 = self.next_session_id;
            self.next_session_id = self.next_session_id + 1;
            self.sessions.push(Session { id, connection: None, topic: None, tab: MainTab::Messages, views: fresh });
            self.current = 0;
            assert(self.sessions@ =~= seq![fresh_session(old(self)@.next_session_id, fresh)]);
        } else if self.current > ix || self.current >= left {
            self.current = self.current - 1;
        }
        self.sync_sidebar_to_session();
    }

    pub fn on_close_all_tabs(&mut self, fresh: W)
        requires
            old(self).wf(),
            old(self)@.next_session_id < u64::MAX,
        ensures
            final(self).wf(),
            final(self)@ == old(self)@.starting_over(fresh),
    {
        let id: u64 = self.next_session_id;
        self.next_session_id = self.next_session_id + 1;
        let mut sessions: Vec<Session<W>> = Vec::new();
        sessions.push(Session { id, connection: None, topic: None, tab: MainTab::Messages, views: fresh });
        assert(sessions@ =~= seq![fresh_session(old(self)@.next_session_id, fresh)]);
        self.sessions = sessions;
        self.current = 0;
        self.sync_sidebar_to_session();
    }

    /// Shows another tab. It touches no view state, so nothing reloads.
    pub fn select_session(&mut self, ix: usize) -> (moved: bool)
        requires
            old(self).wf(),
        ensures
            final(self).wf(),
            moved == (ix < old(self)@.sessions.len() && ix != old(self)@.current),
            final(self)@ == old(self)@.showing(ix as int),
    {
        if ix >= self.sessions.len() || ix == self.current {
            return false;
        }
        self.current = ix;
        self.sync_sidebar_to_session();
        true
    }

    // ---- connections ----

    /// Stores the topic and the tab of the active connection before leaving it.
    fn remember_current_view(&mut self)
        requires
            old(self).wf(),
        ensures
            final(self).wf(),
            final(self)@ == old(self)@.remembering(),
    {
        let session: &Session<W> = &self.sessions[self.current];
        let view = ConnectionView { topic: name_of(&session.topic), tab: session.tab };
        match clone_option(&session.connection) {
            Some(id) => {
                self.views.insert(id, view);
            },
            None => {},
        }
    }

    /// Selects the topic and the tab that this connection had before.
    fn restore_view(&mut self, id: &str)
        requires
            old(self).wf(),
        ensures
            final(self).wf(),
            final(self)@ == old(self)@.restoring(id@),
    {
        let (tab, topic): (MainTab, Option<String>) = match self.views.get(id) {
            Some(view) => (view.tab, clone_option(&view.topic)),
            None => {
                return;
            },
        };
        self.set_tab(tab);
        match topic {
            Some(name) => {
                self.select_topic_by_name(&name);
            },
            None => {},
        }
    }

    /// Puts the shown tab on a connection and asks its cluster, through the worker that
    /// runs for it or through a fresh one.
    pub fn connect(&mut self, id: String) -> (step: Step)
        requires
            old(self).wf(),
            old(self)@.next_worker < u64::MAX,
        ensures
            final(self).wf(),
            (final(self)@, step) == old(self)@.connecting(id),
    {
        let profile: ConnectionProfile = match find_id(&self.profiles, &id) {
            Some(place) => self.profiles[place].clone(),
            None => {
                return Step::Stay;
            },
        };
        let password: Option<String> = match self.dev_passwords.get(&profile.id) {
            Some(p) => Some(p.clone()),
            None => clone_option(&profile.password),
        };
        if !self.is_on(&id) {
            self.remember_current_view();
        }
        let running: Option<u64> = match self.kafka.existing(&id) {
            Some(handle) => Some(*handle),
            None => None,
        };
        let (worker, fresh): (u64, bool) = match running {
            Some(handle) => (handle, false),
            None => {
                let handle: u64 = self.next_worker;
                self.next_worker = self.next_worker + 1;
                let _unused = self.kafka.worker(&profile, handle);
                (handle, true)
            },
        };
        self.states.insert(id.clone(), ConnState::Connecting);
        self.set_connection(Some(id.clone()));
        self.set_topic(None);
        self.topics.set_topics(Vec::new());
        let sync = self.sync_messages_view();
        proof {
            let (next, _) = old(self)@.connecting(id);
            assert(self@.sessions =~= next.sessions);
            assert(self@.topics.all =~= next.topics.all);
            assert(self@.workers =~= next.workers);
        }
        Step::Connect(ConnectOrder { id, worker, fresh, profile, password }, sync)
    }

    /// Drops the worker and connects again.
    pub fn reconnect(&mut self, id: String) -> (step: Step)
        requires
            old(self).wf(),
            old(self)@.next_worker < u64::MAX,
        ensures
            final(self).wf(),
            (final(self)@, step) == old(self)@.dropping(id@).connecting(id),
    {
        proof {
            fewer_are_told_apart(self@.workers, self@.next_worker, id@);
        }
        let _worker = self.kafka.disconnect(&id);
        let _state = self.states.remove(&id);
        self.connect(id)
    }

    /// Puts the shown tab on a connection. One that was reached before is shown as it
    /// was left.
    pub fn activate_connection(&mut self, id: String) -> (step: Step)
        requires
            old(self).wf(),
            old(self)@.next_worker < u64::MAX,
        ensures
            final(self).wf(),
            (final(self)@, step) == old(self)@.activating(id),
    {
        if self.is_on(&id) {
            return Step::Stay;
        }
        self.remember_current_view();
        let (connected, pending): (bool, bool) = match self.states.get(&id) {
            Some(state) => match state {
                ConnState::Connected(_) => (true, false),
                ConnState::Connecting => (false, true),
                ConnState::Failed(_) => (false, false),
            },
            None => (false, false),
        };
        if connected {
            let topics: Vec<Arc<TopicInfo>> = self.topics_of(&id);
            self.set_connection(Some(id.clone()));
            self.set_topic(None);
            self.topics.set_topics(topics);
            proof {
                let left = old(self)@.remembering();
                let moved = Session { connection: Some(id), topic: None, ..old(self)@.session() };
                assert(self@.sessions =~= left.with_session(moved).sessions);
            }
            self.restore_view(&id);
            Step::Show(self.sync_messages_view())
        } else if pending {
            self.set_connection(Some(id));
            Step::Redraw
        } else {
            self.connect(id)
        }
    }

    /// Gives a connection up. What the views have to show, where they showed it.
    pub fn disconnect(&mut self, id: &str) -> (sync: Option<Sync>)
        requires
            old(self).wf(),
        ensures
            final(self).wf(),
            (final(self)@, sync) == old(self)@.disconnecting(id@),
    {
        let shown: bool = self.is_on(id);
        if shown {
            self.remember_current_view();
        }
        proof {
            fewer_are_told_apart(self@.workers, self@.next_worker, id@);
        }
        let _worker = self.kafka.disconnect(id);
        let _state = self.states.remove(id);
        if shown {
            self.set_connection(None);
            self.set_topic(None);
            self.topics.set_topics(Vec::new());
            proof {
                let (next, _) = old(self)@.disconnecting(id@);
                assert(self@.sessions =~= next.sessions);
                assert(self@.topics.all =~= next.topics.all);
            }
            return Some(self.sync_messages_view());
        }
        None
    }

    /// Saves a connection with its password, in place of the one with its id or as a new
    /// one. An empty password is none.
    pub fn upsert_profile(&mut self, profile: ConnectionProfile, password: Option<String>) -> (sync: Option<Sync>)
        requires
            old(self).wf(),
        ensures
            final(self).wf(),
            (final(self)@, sync) == old(self)@.upserting(profile, password),
    {
        let kept: Option<String> = match password {
            Some(p) => {
                if p.as_str().is_empty() {
                    None
                } else {
                    Some(p)
                }
            },
            None => None,
        };
        let mut saved = profile;
        saved.password = kept;
        let id: String = saved.id.clone();
        put_profile(&mut self.profiles, saved);
        self.disconnect(&id)
    }

    /// Saves a connection that was imported, in place of the one with its name.
    pub fn import_profile(&mut self, profile: ConnectionProfile, password: Option<String>) -> (sync: Option<Sync>)
        requires
            old(self).wf(),
        ensures
            final(self).wf(),
            (final(self)@, sync) == old(self)@.upserting(with_known_id(old(self)@.profiles, profile), password),
    {
        let adopted = crate::model::profile::adopt_id(&self.profiles, profile);
        self.upsert_profile(adopted, password)
    }

    pub fn remove_profile(&mut self, id: &str) -> (sync: Option<Sync>)
        requires
            old(self).wf(),
        ensures
            final(self).wf(),
            (final(self)@, sync) == old(self)@.removing(id@),
    {
        let sync = self.disconnect(id);
        self.profiles = remove_id(&self.profiles, id);
        let _view = self.views.remove(id);
        sync
    }

    /// The connection of an id, to be edited, with its password.
    pub fn edit_profile(&self, id: &str) -> (found: Option<(ConnectionProfile, Option<String>)>)
        ensures
            found == (match place_of_id(self@.profiles, id@, 0) {
                Some(place) => Some((self@.profiles[place], self@.profiles[place].password)),
                None => None,
            }),
    {
        match find_id(&self.profiles, id) {
            Some(place) => {
                let profile = self.profiles[place].clone();
                let password = clone_option(&profile.password);
                Some((profile, password))
            },
            None => None,
        }
    }

    /// Asks the cluster of the shown tab anew.
    pub fn refresh_active(&mut self) -> (step: Step)
        requires
            old(self).wf(),
            old(self)@.next_worker < u64::MAX,
        ensures
            final(self).wf(),
            (final(self)@, step) == old(self)@.refreshing(),
    {
        match clone_option(&self.sessions[self.current].connection) {
            Some(id) => {
                let selected = name_of(&self.sessions[self.current].topic);
                let step = self.connect(id);
                self.reselect_after_refresh = selected;
                step
            },
            None => Step::Stay,
        }
    }

    /// Takes what a cluster answered. What the views have to show, where the shown tab
    /// is on it.
    pub fn on_cluster_loaded(&mut self, id: String, result: Result<LoadedCluster, String>) -> (sync: Option<Sync>)
        requires
            old(self).wf(),
        ensures
            final(self).wf(),
            (final(self)@, sync) == old(self)@.loading(id@, result),
    {
        match result {
            Ok(cluster) => {
                let topics: Vec<Arc<TopicInfo>> = copied_topics(&cluster.topics);
                let shown: bool = self.is_on(&id);
                self.states.insert(id.clone(), ConnState::Connected(cluster));
                if !shown {
                    return None;
                }
                self.topics.set_topics(topics);
                match clone_option(&self.reselect_after_refresh) {
                    Some(name) => {
                        self.reselect_after_refresh = None;
                        self.select_topic_by_name(&name);
                    },
                    None => {
                        self.restore_view(&id);
                    },
                }
                Some(self.sync_messages_view())
            },
            Err(reason) => {
                self.states.insert(id.clone(), ConnState::Failed(reason));
                proof {
                    fewer_are_told_apart(self@.workers, self@.next_worker, id@);
                }
                let _worker = self.kafka.disconnect(&id);
                None
            },
        }
    }

    /// The id of the connection that is so many steps away from the shown one, round and
    /// round.
    pub fn connection_by_offset(&self, offset: isize) -> (id: Option<String>)
        requires
            self.wf(),
        ensures
            id == (if self@.profiles.len() == 0 {
                None
            } else {
                Some(self@.profiles[self@.place_by_offset(offset as int)].id)
            }),
    {
        let count: usize = self.profiles.len();
        if count == 0 {
            return None;
        }
        let place: Option<usize> = match &self.sessions[self.current].connection {
            Some(id) => find_id(&self.profiles, id),
            None => None,
        };
        let from: i128 = match place {
            Some(p) => p as i128,
            None => -1,
        };
        let next: usize = round(from + offset as i128, count);
        Some(self.profiles[next].id.clone())
    }

    /// Moves to the connection that is so many steps away, round and round.
    pub fn switch_connection_by_offset(&mut self, offset: isize) -> (step: Step)
        requires
            old(self).wf(),
            old(self)@.next_worker < u64::MAX,
        ensures
            final(self).wf(),
            (final(self)@, step) == (if old(self)@.profiles.len() == 0 {
                (old(self)@, Step::Stay)
            } else {
                old(self)@.activating(old(self)@.profiles[old(self)@.place_by_offset(offset as int)].id)
            }),
    {
        match self.connection_by_offset(offset) {
            Some(id) => self.activate_connection(id),
            None => Step::Stay,
        }
    }

    /// Moves to the connection at a place, where there is one.
    pub fn on_switch_connection(&mut self, index: usize) -> (step: Step)
        requires
            old(self).wf(),
            old(self)@.next_worker < u64::MAX,
        ensures
            final(self).wf(),
            (final(self)@, step) == (if index < old(self)@.profiles.len() {
                old(self)@.activating(old(self)@.profiles[index as int].id)
            } else {
                (old(self)@, Step::Stay)
            }),
    {
        if index < self.profiles.len() {
            let id: String = self.profiles[index].id.clone();
            return self.activate_connection(id);
        }
        Step::Stay
    }
}

/// The remainder of a number that may be negative.
fn round(moved: i128, count: usize) -> (next: usize)
    requires
        count >= 1,
        moved > i128::MIN,
    ensures
        next == moved as int % count as int,
        next < count,
{
    let len: u128 = count as u128;
    if moved >= 0 {
        let next: u128 = moved as u128 % len;
        next as usize
    } else {
        let below: u128 = (-(moved + 1)) as u128;
        let rest: u128 = below % len;
        let next: u128 = len - 1 - rest;
        proof {
            let n = len as int;
            let q = below as int / n;
            vstd::arithmetic::div_mod::lemma_fundamental_div_mod(below as int, n);
            assert(moved as int == (-q - 1) * n + next as int) by (nonlinear_arith)
                requires
                    below as int == n * q + rest as int,
                    below == -(moved + 1),
                    next as int == n - 1 - rest as int,
            ;
            vstd::arithmetic::div_mod::lemma_fundamental_div_mod_converse(moved as int, n, -q - 1, next as int);
        }
        next as usize
    }
}

// ---- topics ----

impl<W> AppState<W> {
    /// The window after a topic was created: its cluster is asked anew, and the new topic
    /// is to be shown.
    pub open spec fn after_creation(self, name: String) -> (Self, Step) {
        let (next, step) = self.refreshing();
        (AppState { reselect_after_refresh: Some(name), ..next }, step)
    }

    /// Whether the shown tab is on a topic of a name.
    pub open spec fn shows_topic(self, name: Seq<char>) -> bool {
        self.session().topic matches Some(topic) && topic.name@ == name
    }

    /// The window after a topic was deleted: a tab that showed it is on none, and its
    /// cluster is asked anew.
    pub open spec fn without_topic(self, name: Seq<char>) -> Self {
        if self.shows_topic(name) {
            self.with_session(Session { topic: None, ..self.session() })
        } else {
            self
        }
    }
}

impl<W> KafkamitterApp<W> {
    /// Puts the shown tab on the topic in a row of the list. What its views have to show.
    pub fn on_topic_selected(&mut self, row: usize) -> (sync: Sync)
        requires
            old(self).wf(),
        ensures
            final(self).wf(),
            final(self)@ == old(self)@.with_session(
                Session { topic: old(self)@.topics.at(row as int), ..old(self)@.session() },
            ),
            sync == final(self)@.sync(),
    {
        let topic: Option<Arc<TopicInfo>> = self.topics.topic_at(row);
        self.set_topic(topic);
        self.sync_messages_view()
    }

    pub fn toggle_internal_topics(&mut self)
        requires
            old(self).wf(),
        ensures
            final(self).wf(),
            final(self)@ == (AppState {
                topics: TopicList { show_internal: !old(self)@.topics.show_internal, ..old(self)@.topics },
                ..old(self)@
            }),
    {
        let show: bool = !self.topics.show_internal();
        self.topics.set_show_internal(show);
    }

    /// Shows the messages of the topic, where the tab is on one.
    pub fn show_messages(&mut self) -> (shown: bool)
        requires
            old(self).wf(),
        ensures
            final(self).wf(),
            shown == (old(self)@.session().topic is Some),
            final(self)@ == (if shown {
                old(self)@.with_session(Session { tab: MainTab::Messages, ..old(self)@.session() })
            } else {
                old(self)@
            }),
    {
        if self.sessions[self.current].topic.is_none() {
            return false;
        }
        self.set_tab(MainTab::Messages);
        true
    }

    /// The worker of the shown connection, or what is said where there is none.
    pub fn active_worker(&self) -> (worker: Result<u64, String>)
        requires
            self.wf(),
        ensures
            match worker {
                Ok(number) => self@.sync().worker == Some(number),
                Err(message) => self@.sync().worker is None && message@ == "Connect to a cluster first"@,
            },
    {
        match self.sync_messages_view().worker {
            Some(number) => Ok(number),
            None => Err("Connect to a cluster first".to_owned()),
        }
    }

    /// Takes what became of a topic that was to be created: what is said, and what has to
    /// be done.
    pub fn on_topic_created(&mut self, name: String, result: Result<(), String>) -> (outcome: (String, Step))
        requires
            old(self).wf(),
            old(self)@.next_worker < u64::MAX,
        ensures
            final(self).wf(),
            match result {
                Ok(_) => {
                    &&& outcome.0@ == "Created topic "@ + name@
                    &&& (final(self)@, outcome.1) == old(self)@.after_creation(name)
                },
                Err(reason) => {
                    &&& outcome.0@ == "Create topic failed: "@ + reason@
                    &&& outcome.1 is Stay
                    &&& final(self)@ == old(self)@
                },
            },
    {
        match result {
            Ok(_) => {
                let message = joined("Created topic ", &name);
                let step = self.refresh_active();
                self.reselect_after_refresh = Some(name);
                (message, step)
            },
            Err(reason) => (joined("Create topic failed: ", &reason), Step::Stay),
        }
    }

    /// Takes what became of a topic that was to be deleted: what is said, what the views
    /// have to show, and what has to be done.
    pub fn on_topic_deleted(&mut self, name: &str, result: Result<(), String>) -> (outcome: (String, Option<Sync>, Step))
        requires
            old(self).wf(),
            old(self)@.next_worker < u64::MAX,
        ensures
            final(self).wf(),
            match result {
                Ok(_) => {
                    &&& outcome.0@ == "Deleted topic "@ + name@
                    &&& outcome.1 == (if old(self)@.shows_topic(name@) {
                        Some(old(self)@.without_topic(name@).sync())
                    } else {
                        None
                    })
                    &&& (final(self)@, outcome.2) == old(self)@.without_topic(name@).refreshing()
                },
                Err(reason) => {
                    &&& outcome.0@ == "Delete topic failed: "@ + reason@
                    &&& outcome.1 is None && outcome.2 is Stay
                    &&& final(self)@ == old(self)@
                },
            },
    {
        match result {
            Ok(_) => {
                let message = joined("Deleted topic ", name);
                let shown: bool = match &self.sessions[self.current].topic {
                    Some(topic) => same_text(&topic.name, name),
                    None => false,
                };
                let sync: Option<Sync> = if shown {
                    self.set_topic(None);
                    Some(self.sync_messages_view())
                } else {
                    None
                };
                let step = self.refresh_active();
                (message, sync, step)
            },
            Err(reason) => (joined("Delete topic failed: ", &reason), None, Step::Stay),
        }
    }
}

/// What is asked before a topic is deleted.
pub fn delete_question(name: &str) -> (text: String)
    ensures
        text@ == "Delete topic \""@ + name@ + "\" and all of its messages? This cannot be undone."@,
{
    joined3("Delete topic \"", name, "\" and all of its messages? This cannot be undone.")
}

// ---- start ----

/// The ids of the connections that need a password and have none.
pub open spec fn without_password(profiles: Seq<ConnectionProfile>) -> Seq<String>
    decreases profiles.len(),
{
    if profiles.len() == 0 {
        Seq::empty()
    } else {
        let before = without_password(profiles.drop_last());
        let profile = profiles.last();
        if profile.security is SaslSsl && profile.password is None {
            before.push(profile.id)
        } else {
            before
        }
    }
}

/// The connections with the first passwords that were found, each at the connection of
/// its id.
pub open spec fn with_passwords(profiles: Seq<ConnectionProfile>, found: Seq<(String, String)>, n: int) -> Seq<
    ConnectionProfile,
>
    decreases n,
{
    if n <= 0 {
        profiles
    } else {
        let before = with_passwords(profiles, found, n - 1);
        match place_of_id(before, found[n - 1].0@, 0) {
            Some(place) => before.update(
                place,
                ConnectionProfile { password: Some(found[n - 1].1), ..before[place] },
            ),
            None => before,
        }
    }
}

impl<W> KafkamitterApp<W> {
    /// Takes the connections and the settings that were read. What is said where the
    /// connections could not be read.
    pub fn finish_loading(&mut self, loaded: Result<Vec<ConnectionProfile>, String>, settings: Settings) -> (complaint:
        Option<String>)
        requires
            old(self).wf(),
        ensures
            final(self).wf(),
            match loaded {
                Ok(profiles) => complaint is None && final(self)@ == (AppState {
                    profiles: profiles@,
                    settings,
                    ..old(self)@
                }),
                Err(reason) => {
                    &&& complaint matches Some(text) && text@ == "Cannot read saved connections: "@ + reason@
                    &&& final(self)@ == (AppState { settings, ..old(self)@ })
                },
            },
    {
        self.settings = settings;
        match loaded {
            Ok(profiles) => {
                self.profiles = profiles;
                None
            },
            Err(reason) => Some(joined("Cannot read saved connections: ", &reason)),
        }
    }

    pub fn apply_settings(&mut self, settings: Settings)
        requires
            old(self).wf(),
        ensures
            final(self).wf(),
            final(self)@ == (AppState { settings, ..old(self)@ }),
    {
        self.settings = settings;
    }

    /// The connections whose passwords may still lie in the keychain.
    pub fn awaiting_passwords(&self) -> (ids: Vec<String>)
        ensures
            ids@ == without_password(self@.profiles),
    {
        let mut ids: Vec<String> = Vec::new();
        let mut i: usize = 0;
        assert(self.profiles@.take(0) =~= Seq::empty());
        while i < self.profiles.len()
            invariant
                i <= self.profiles@.len(),
                ids@ == without_password(self.profiles@.take(i as int)),
            decreases self.profiles.len() - i,
        {
            assert(self.profiles@.take(i + 1).drop_last() =~= self.profiles@.take(i as int));
            if self.profiles[i].needs_password() && self.profiles[i].password.is_none() {
                ids.push(self.profiles[i].id.clone());
            }
            i = i + 1;
        }
        assert(self.profiles@.take(i as int) =~= self.profiles@);
        ids
    }

    /// Takes the passwords that were found in the keychain. What is said of them, where
    /// there are any.
    pub fn adopt_passwords(&mut self, found: &Vec<(String, String)>) -> (message: Option<String>)
        requires
            old(self).wf(),
        ensures
            final(self).wf(),
            final(self)@ == (AppState {
                profiles: with_passwords(old(self)@.profiles, found@, found@.len() as int),
                ..old(self)@
            }),
            match message {
                Some(text) => found@.len() > 0 && text@ == "Moved "@ + decimal(found@.len() as int)
                    + " password(s) from the Keychain into the connections file"@,
                None => found@.len() == 0,
            },
    {
        let mut i: usize = 0;
        while i < found.len()
            invariant
                i <= found@.len(),
                self.wf(),
                self@ == (AppState { profiles: with_passwords(old(self)@.profiles, found@, i as int), ..old(self)@ }),
            decreases found.len() - i,
        {
            let ghost before = self.profiles@;
            match find_id(&self.profiles, &found[i].0) {
                Some(place) => {
                    let mut profile = self.profiles[place].clone();
                    profile.password = Some(found[i].1.clone());
                    self.profiles.set(place, profile);
                },
                None => {},
            }
            i = i + 1;
            assert(self.profiles@ =~= with_passwords(old(self)@.profiles, found@, i as int));
        }
        if found.len() == 0 {
            return None;
        }
        Some(
            joined3(
                "Moved ",
                &decimal_text(found.len() as i128),
                " password(s) from the Keychain into the connections file",
            ),
        )
    }

    /// Adds a connection at the end and connects to it.
    pub fn add_and_connect(&mut self, profile: ConnectionProfile) -> (step: Step)
        requires
            old(self).wf(),
            old(self)@.next_worker < u64::MAX,
        ensures
            final(self).wf(),
            (final(self)@, step) == (AppState {
                profiles: old(self)@.profiles.push(profile),
                ..old(self)@
            }).connecting(profile.id),
    {
        let id: String = profile.id.clone();
        self.profiles.push(profile);
        self.connect(id)
    }

    /// Adds a connection that is not kept, in place of those with its id, and connects to
    /// it. Its password is not kept either.
    pub fn import_and_connect(&mut self, profile: ConnectionProfile, password: Option<String>) -> (step: Step)
        requires
            old(self).wf(),
            old(self)@.next_worker < u64::MAX,
        ensures
            final(self).wf(),
            (final(self)@, step) == (AppState {
                profiles: without_id(old(self)@.profiles, profile.id@).push(profile),
                dev_passwords: match password {
                    Some(p) => old(self)@.dev_passwords.insert(profile.id@, p),
                    None => old(self)@.dev_passwords,
                },
                ..old(self)@
            }).connecting(profile.id),
    {
        let id: String = profile.id.clone();
        match password {
            Some(p) => {
                self.dev_passwords.insert(id.clone(), p);
            },
            None => {},
        }
        self.profiles = remove_id(&self.profiles, &id);
        self.add_and_connect(profile)
    }

    /// The id of the first connection with a name.
    pub fn id_by_name(&self, name: &str) -> (id: Option<String>)
        ensures
            id == (match place_of_name(self@.profiles, name@, 0) {
                Some(place) => Some(self@.profiles[place].id),
                None => None,
            }),
    {
        match find_name(&self.profiles, name) {
            Some(place) => Some(self.profiles[place].id.clone()),
            None => None,
        }
    }
}

/// The connection to brokers that the environment names.
pub fn passing_profile(bootstrap: String) -> (profile: ConnectionProfile)
    ensures
        profile@ == (crate::model::profile::ProfileView {
            id: DEV_PROFILE_ID@,
            name: "dev"@,
            bootstrap_servers: bootstrap@,
            security: crate::model::profile::SecurityView::Plaintext,
            ca_location: None,
            password: None,
        }),
{
    ConnectionProfile {
        id: DEV_PROFILE_ID.to_owned(),
        name: "dev".to_owned(),
        bootstrap_servers: bootstrap,
        security: Security::Plaintext,
        ca_location: None,
        password: None,
    }
}

/// An imported connection under an id that is not kept.
pub fn as_passing(profile: ConnectionProfile) -> (passing: ConnectionProfile)
    ensures
        passing.id@ == DEV_PROFILE_ID@ + "-"@ + profile.name@,
        passing == (ConnectionProfile { id: passing.id, ..profile }),
{
    let id = joined3(DEV_PROFILE_ID, "-", &profile.name);
    let mut passing = profile;
    passing.id = id;
    passing
}

// ---- what is shown ----

/// The colour of the dot at a connection.
#[derive(Debug, Clone, Copy, PartialEq, Eq, Structural)]
pub enum Dot {
    Green,
    Yellow,
    Red,
    Muted,
}

/// A connection in the list of connections.
pub struct ConnectionRow {
    pub id: String,
    pub name: String,
    pub hint: String,
    pub dot: Dot,
    pub active: bool,
    /// Whether there is a button to try again.
    pub retry: bool,
}

/// A tab in the row of tabs.
pub struct TabItem {
    pub key: u64,
    pub label: String,
    pub active: bool,
}

/// What a tab shows below the row of tabs.
pub enum Content {
    /// A connection that failed.
    Failed {
        id: String,
        title: String,
        error: String,
    },
    /// A hint.
    Hint(&'static str),
    /// A topic, with the place of the part that is shown.
    Topic {
        title: String,
        detail: String,
        tab: MainTab,
    },
}

/// Numbers of brokers and topics, in words.
pub open spec fn cluster_text(brokers: int, topics: int) -> Seq<char> {
    decimal(brokers) + " brokers, "@ + decimal(topics) + " topics"@
}

impl<W> AppState<W> {
    /// What a tab is called: by its topic, or its connection, or not yet.
    pub open spec fn label_of(self, session: Session<W>) -> Seq<char> {
        match session.topic {
            Some(topic) => topic.name@,
            None => match session.connection {
                Some(id) => match place_of_id(self.profiles, id@, 0) {
                    Some(place) => self.profiles[place].name@,
                    None => "New tab"@,
                },
                None => "New tab"@,
            },
        }
    }

    /// The hint at a connection and the colour of its dot.
    pub open spec fn hint_of(self, profile: ConnectionProfile) -> (Dot, Seq<char>) {
        if self.states.contains_key(profile.id@) {
            match self.states[profile.id@] {
                ConnState::Connected(cluster) => (
                    Dot::Green,
                    cluster_text(cluster.brokers@.len() as int, cluster.topics@.len() as int),
                ),
                ConnState::Connecting => (Dot::Yellow, "Connecting"@),
                ConnState::Failed(reason) => (Dot::Red, reason@),
            }
        } else {
            (Dot::Muted, profile.bootstrap_servers@)
        }
    }

    /// The name of a connection, or its id where it has none any more.
    pub open spec fn name_of_connection(self, id: Seq<char>) -> Seq<char> {
        match place_of_id(self.profiles, id, 0) {
            Some(place) => self.profiles[place].name@,
            None => id,
        }
    }

    /// The state of the shown connection, where it has one.
    pub open spec fn shown_state(self) -> Option<ConnState> {
        match self.connection() {
            Some(id) => if self.states.contains_key(id) {
                Some(self.states[id])
            } else {
                None
            },
            None => None,
        }
    }

    /// The hint of a tab that is on no topic.
    pub open spec fn empty_hint(self) -> Seq<char> {
        if self.connection() is Some {
            "Select a topic"@
        } else if self.profiles.len() == 0 {
            "Add a connection to start"@
        } else {
            "Select a connection from the left"@
        }
    }
}

/// How many copies a topic's first partition has.
pub open spec fn replication_of(topic: TopicInfo) -> int {
    if topic.partitions@.len() > 0 {
        topic.partitions@[0].replicas@.len() as int
    } else {
        0
    }
}

impl<W> KafkamitterApp<W> {
    /// What a tab is called.
    pub fn session_label(&self, session: &Session<W>) -> (label: String)
        ensures
            label@ == self@.label_of(*session),
    {
        match &session.topic {
            Some(topic) => {
                return topic.name.clone();
            },
            None => {},
        }
        match &session.connection {
            Some(id) => match find_id(&self.profiles, id) {
                Some(place) => self.profiles[place].name.clone(),
                None => "New tab".to_owned(),
            },
            None => "New tab".to_owned(),
        }
    }

    /// The row of tabs.
    pub fn session_tabs(&self) -> (tabs: Vec<TabItem>)
        requires
            self.wf(),
        ensures
            tabs@.len() == self@.sessions.len(),
            forall|i: int|
                0 <= i < tabs@.len() ==> {
                    &&& (#[trigger] tabs@[i]).key == self@.sessions[i].id
                    &&& tabs@[i].label@ == self@.label_of(self@.sessions[i])
                    &&& tabs@[i].active == (i == self@.current)
                },
    {
        let mut tabs: Vec<TabItem> = Vec::new();
        let mut ix: usize = 0;
        while ix < self.sessions.len()
            invariant
                ix <= self.sessions@.len(),
                tabs@.len() == ix,
                forall|i: int|
                    0 <= i < tabs@.len() ==> {
                        &&& (#[trigger] tabs@[i]).key == self@.sessions[i].id
                        &&& tabs@[i].label@ == self@.label_of(self@.sessions[i])
                        &&& tabs@[i].active == (i == self@.current)
                    },
            decreases self.sessions.len() - ix,
        {
            let session: &Session<W> = &self.sessions[ix];
            let label = self.session_label(session);
            tabs.push(TabItem { key: session.id, label, active: ix == self.current });
            ix = ix + 1;
        }
        tabs
    }

    /// Whether there is no room for another tab.
    pub fn tabs_are_full(&self) -> (full: bool)
        ensures
            full == (self@.sessions.len() >= MAX_TABS),
    {
        self.sessions.len() >= MAX_TABS
    }

    /// A connection in the list of connections.
    pub fn connection_row(&self, profile: &ConnectionProfile) -> (row: ConnectionRow)
        requires
            self.wf(),
        ensures
            row.id == profile.id,
            row.name == profile.name,
            (row.dot, row.hint@) == self@.hint_of(*profile),
            row.active == (self@.connection() == Some(profile.id@)),
            row.retry == (self@.states.contains_key(profile.id@) && self@.states[profile.id@] is Failed),
    {
        let (dot, hint, retry): (Dot, String, bool) = match self.states.get(&profile.id) {
            Some(state) => match state {
                ConnState::Connected(cluster) => {
                    let brokers = decimal_text(cluster.brokers.len() as i128);
                    let topics = decimal_text(cluster.topics.len() as i128);
                    (Dot::Green, joined(&joined3(&brokers, " brokers, ", &topics), " topics"), false)
                },
                ConnState::Connecting => (Dot::Yellow, "Connecting".to_owned(), false),
                ConnState::Failed(reason) => (Dot::Red, reason.clone(), true),
            },
            None => (Dot::Muted, profile.bootstrap_servers.clone(), false),
        };
        ConnectionRow {
            id: profile.id.clone(),
            name: profile.name.clone(),
            hint,
            dot,
            active: self.is_on(&profile.id),
            retry,
        }
    }

    /// The list of connections.
    pub fn connection_rows(&self) -> (rows: Vec<ConnectionRow>)
        requires
            self.wf(),
        ensures
            rows@.len() == self@.profiles.len(),
            forall|i: int|
                0 <= i < rows@.len() ==> {
                    let profile = self@.profiles[i];
                    &&& (#[trigger] rows@[i]).id == profile.id
                    &&& rows@[i].name == profile.name
                    &&& (rows@[i].dot, rows@[i].hint@) == self@.hint_of(profile)
                    &&& rows@[i].active == (self@.connection() == Some(profile.id@))
                    &&& rows@[i].retry == (self@.states.contains_key(profile.id@) && self@.states[profile.id@] is Failed)
                },
    {
        let mut rows: Vec<ConnectionRow> = Vec::new();
        let mut ix: usize = 0;
        while ix < self.profiles.len()
            invariant
                self.wf(),
                ix <= self.profiles@.len(),
                rows@.len() == ix,
                forall|i: int|
                    0 <= i < rows@.len() ==> {
                        let profile = self@.profiles[i];
                        &&& (#[trigger] rows@[i]).id == profile.id
                        &&& rows@[i].name == profile.name
                        &&& (rows@[i].dot, rows@[i].hint@) == self@.hint_of(profile)
                        &&& rows@[i].active == (self@.connection() == Some(profile.id@))
                        &&& rows@[i].retry == (self@.states.contains_key(profile.id@)
                            && self@.states[profile.id@] is Failed)
                    },
            decreases self.profiles.len() - ix,
        {
            let row = self.connection_row(&self.profiles[ix]);
            rows.push(row);
            ix = ix + 1;
        }
        rows
    }

    /// What the shown tab shows: that its connection failed or is being reached, a hint
    /// where it is on no topic, or its topic.
    pub fn session_content(&self) -> (content: Content)
        requires
            self.wf(),
        ensures
            match self@.shown_state() {
                Some(ConnState::Failed(reason)) => content matches Content::Failed { id, title, error } && {
                    &&& Some(id) == self@.session().connection
                    &&& title@ == "Cannot reach "@ + self@.name_of_connection(id@)
                    &&& error == reason
                },
                Some(ConnState::Connecting) => content matches Content::Hint(text) && text@ == "Connecting\u{2026}"@,
                _ => match self@.session().topic {
                    None => content matches Content::Hint(text) && text@ == self@.empty_hint(),
                    Some(topic) => content matches Content::Topic { title, detail, tab } && {
                        &&& title == topic.name
                        &&& detail@ == decimal(topic.partitions@.len() as int) + " partitions, replication "@ + decimal(
                            replication_of(*topic),
                        )
                        &&& tab == self@.session().tab
                    },
                },
            },
    {
        let session: &Session<W> = &self.sessions[self.current];
        match &session.connection {
            Some(id) => match self.states.get(id) {
                Some(state) => match state {
                    ConnState::Failed(reason) => {
                        let name: String = match find_id(&self.profiles, id) {
                            Some(place) => self.profiles[place].name.clone(),
                            None => id.clone(),
                        };
                        return Content::Failed {
                            id: id.clone(),
                            title: joined("Cannot reach ", &name),
                            error: reason.clone(),
                        };
                    },
                    ConnState::Connecting => {
                        return Content::Hint("Connecting\u{2026}");
                    },
                    ConnState::Connected(_) => {},
                },
                None => {},
            },
            None => {},
        }
        match &session.topic {
            None => {
                if session.connection.is_some() {
                    Content::Hint("Select a topic")
                } else if self.profiles.len() == 0 {
                    Content::Hint("Add a connection to start")
                } else {
                    Content::Hint("Select a connection from the left")
                }
            },
            Some(topic) => {
                let replication: usize = if topic.partitions.len() > 0 {
                    topic.partitions[0].replicas.len()
                } else {
                    0
                };
                let partitions = decimal_text(topic.partitions.len() as i128);
                let detail = joined3(&partitions, " partitions, replication ", &decimal_text(replication as i128));
                Content::Topic { title: topic.name.clone(), detail, tab: session.tab }
            },
        }
    }

    /// What the title bar says about the shown cluster, where it was reached.
    pub fn cluster_summary(&self) -> (summary: Option<String>)
        requires
            self.wf(),
        ensures
            match self@.shown_state() {
                Some(ConnState::Connected(cluster)) => summary matches Some(text) && text@ == (match place_of_id(
                    self@.profiles,
                    self@.connection()->0,
                    0,
                ) {
                    Some(place) => self@.profiles[place].name@,
                    None => Seq::empty(),
                }) + " \u{b7} "@ + decimal(cluster.brokers@.len() as int) + " brokers"@,
                _ => summary is None,
            },
    {
        match &self.sessions[self.current].connection {
            Some(id) => match self.states.get(id) {
                Some(state) => match state {
                    ConnState::Connected(cluster) => {
                        let name: String = match find_id(&self.profiles, id) {
                            Some(place) => self.profiles[place].name.clone(),
                            None => String::new(),
                        };
                        assert(place_of_id(self@.profiles, id@, 0) is None ==> name@ =~= Seq::<char>::empty());
                        let brokers = decimal_text(cluster.brokers.len() as i128);
                        Some(joined(&joined3(&name, " \u{b7} ", &brokers), " brokers"))
                    },
                    _ => None,
                },
                None => None,
            },
            None => None,
        }
    }
}

/// What is said where there is no room for another tab.
pub fn no_more_tabs() -> (text: String)
    ensures
        text@ == "A window holds at most "@ + decimal(MAX_TABS as int) + " tabs"@,
{
    joined3("A window holds at most ", &decimal_text(MAX_TABS as i128), " tabs")
}

// ---- the views of a tab ----

/// What has to be done for the views of a tab.
pub struct Shown {
    /// Whether the messages are those of another topic or connection now.
    pub changed: bool,
    /// The partitions to choose from when a message is sent, where they are others.
    pub targets: Option<Vec<String>>,
    /// Whether messages are to be read at once.
    pub start: bool,
}

/// Lets the views of a tab show what it is on. Messages of another topic are read at once
/// where the settings say so.
pub fn show_in_views(
    messages: &mut MessagesView,
    produce: &mut ProduceView,
    consumers: &mut ConsumersView,
    sync: &Sync,
    settings: &Settings,
) -> (shown: Shown)
    requires
        old(messages).wf(),
        old(consumers)@.generation < u64::MAX,
    ensures
        final(messages).wf(),
        shown.changed == !stays_on_topic(old(messages)@, sync.worker, sync.topic),
        if shown.changed {
            &&& emptied(final(messages).table, old(messages).table)
            &&& final(messages)@ == (MessagesState {
                worker: sync.worker,
                topic: sync.topic,
                table: final(messages).table,
                session: false,
                running: false,
                eof: Seq::empty(),
                last_error: None,
                ..old(messages)@
            })
        } else {
            final(messages)@ == (MessagesState { worker: sync.worker, topic: sync.topic, ..old(messages)@ })
        },
        if topic_name(old(produce)@.topic) == topic_name(sync.topic) {
            &&& shown.targets is None
            &&& final(produce)@ == (ProduceState { worker: sync.worker, topic: sync.topic, ..old(produce)@ })
        } else {
            &&& shown.targets matches Some(labels) && views(labels@) == partition_items("Auto"@, sync.topic)
            &&& final(produce)@ == (ProduceState {
                worker: sync.worker,
                topic: sync.topic,
                partition: 0,
                last_result: None,
                ..old(produce)@
            })
        },
        final(consumers)@ == ({
            let moved = ConsumersState { connected: sync.worker is Some, topic: sync.topic, ..old(consumers)@ };
            if topic_name(old(consumers)@.topic) == topic_name(sync.topic) {
                moved
            } else {
                on_new_topic(moved)
            }
        }),
        shown.start == (shown.changed && sync.worker is Some && sync.topic is Some && settings.auto_consume_on_select),
{
    let changed: bool = messages.set_topic(sync.worker, shared_topic(&sync.topic));
    let targets: Option<Vec<String>> = produce.set_topic(sync.worker, shared_topic(&sync.topic));
    consumers.set_topic(sync.worker.is_some(), shared_topic(&sync.topic));
    let start: bool = changed && sync.worker.is_some() && sync.topic.is_some() && settings.auto_consume_on_select;
    Shown { changed, targets, start }
}

fn shared_topic(topic: &Option<Arc<TopicInfo>>) -> (other: Option<Arc<TopicInfo>>)
    ensures
        other == *topic,
{
    match topic {
        Some(t) => Some(share(t)),
        None => None,
    }
}

// ---- laws ----

/// Closing a tab that is not shown leaves the shown one as it is, and shown.
pub proof fn closing_another_tab_keeps_the_shown_one<W>(state: AppState<W>, ix: int, views: W)
    requires
        state.ok(),
        0 <= ix < state.sessions.len(),
        ix != state.current,
    ensures
        state.closing(ix, views).session() == state.session(),
{
}

/// Closing the shown tab shows the one behind it, or the one before it where it was the
/// last.
pub proof fn closing_the_shown_tab_shows_its_neighbour<W>(state: AppState<W>, views: W)
    requires
        state.ok(),
        state.sessions.len() > 1,
    ensures
        state.closing(state.current, views).session() == (if state.current + 1 < state.sessions.len() {
            state.sessions[state.current + 1]
        } else {
            state.sessions[state.current - 1]
        }),
{
}

/// Showing another tab and coming back changes no tab.
pub proof fn tabs_stay_as_they_were<W>(state: AppState<W>, ix: int)
    requires
        state.ok(),
        0 <= ix < state.sessions.len(),
    ensures
        state.showing(ix).sessions == state.sessions,
        state.showing(ix).current == ix,
        state.showing(ix).showing(state.current).sessions == state.sessions,
        state.showing(ix).showing(state.current).current == state.current,
{
}

/// A tab that moves to another connection and back shows the topic and the part that it
/// showed before, where the topic is still listed; no cluster is asked on the way.
pub proof fn a_switch_returns_to_the_view<W>(state: AppState<W>, id: String, other: String)
    requires
        state.ok(),
        state.session().connection == Some(id),
        id@ != other@,
        state.states.contains_key(id@) && state.states[id@] is Connected,
        state.states.contains_key(other@) && state.states[other@] is Connected,
    ensures
        ({
            let (there, step) = state.activating(other);
            let (back, again) = there.activating(id);
            &&& step is Show && again is Show
            &&& back.connection() == Some(id@)
            &&& back.session().tab == state.session().tab
            &&& back.session().topic == (match state.session().topic {
                Some(topic) => listed_topic(
                    TopicList { all: state.topics_of(Some(id@)), selected: None, ..state.topics },
                    topic.name@,
                ),
                None => None,
            })
        }),
{
    let (there, step) = state.activating(other);
    let left = state.remembering();
    assert(left.states == state.states);
    let moved = left.with_session(Session { connection: Some(other), topic: None, ..state.session() }).listing(
        left.topics_of(Some(other@)),
    );
    assert(there == moved.restoring(other@));
    restoring_keeps_the_rest(moved, other@);
    assert(there.connection() == Some(other@));
    assert(there.views == left.views);
    assert(there.states == state.states);
    let again = there.remembering();
    assert(again.views.contains_key(id@) && again.views[id@] == left.views[id@]);
    let returned = again.with_session(Session { connection: Some(id), topic: None, ..there.session() }).listing(
        again.topics_of(Some(id@)),
    );
    let (back, _) = there.activating(id);
    assert(back == returned.restoring(id@));
    assert(returned.topics == (TopicList { all: state.topics_of(Some(id@)), selected: None, ..state.topics }));
    restoring_keeps_the_rest(returned, id@);
}

proof fn restoring_keeps_the_rest<W>(state: AppState<W>, id: Seq<char>)
    requires
        0 <= state.current < state.sessions.len(),
    ensures
        state.restoring(id).views == state.views,
        state.restoring(id).states == state.states,
        state.restoring(id).current == state.current,
        state.restoring(id).sessions.len() == state.sessions.len(),
        state.restoring(id).session().connection == state.session().connection,
        state.restoring(id).topics == (TopicList { selected: state.restoring(id).topics.selected, ..state.topics }),
{
}

/// The connection before the next one is the one to start with.
pub proof fn previous_undoes_next<W>(state: AppState<W>, moved: AppState<W>, place: int)
    requires
        0 <= place < state.profiles.len(),
        state.connection() == Some(state.profiles[place].id@),
        moved.profiles == state.profiles,
        moved.connection() == Some(state.profiles[state.place_by_offset(1)].id@),
        forall|i: int, j: int|
            #![trigger state.profiles[i], state.profiles[j]]
            0 <= i < j < state.profiles.len() ==> state.profiles[i].id@ != state.profiles[j].id@,
    ensures
        moved.place_by_offset(-1) == place,
{
    let n = state.profiles.len() as int;
    a_lone_id_is_found(state.profiles, place, 0);
    let next = state.place_by_offset(1);
    assert(next == (place + 1) % n);
    assert(0 <= next < n) by {
        vstd::arithmetic::div_mod::lemma_mod_bound(place + 1, n);
    }
    a_lone_id_is_found(state.profiles, next, 0);
    assert(moved.place_by_offset(-1) == (next - 1) % n);
    if place + 1 < n {
        vstd::arithmetic::div_mod::lemma_small_mod((place + 1) as nat, n as nat);
        vstd::arithmetic::div_mod::lemma_small_mod(place as nat, n as nat);
    } else {
        vstd::arithmetic::div_mod::lemma_mod_self_0(n);
        vstd::arithmetic::div_mod::lemma_fundamental_div_mod_converse(-1, n, -1, n - 1);
    }
}

proof fn a_lone_id_is_found(profiles: Seq<ConnectionProfile>, place: int, i: int)
    requires
        0 <= i <= place < profiles.len(),
        forall|a: int, b: int|
            #![trigger profiles[a], profiles[b]]
            0 <= a < b < profiles.len() ==> profiles[a].id@ != profiles[b].id@,
    ensures
        place_of_id(profiles, profiles[place].id@, i) == Some(place),
    decreases place - i,
{
    if i < place {
        a_lone_id_is_found(profiles, place, i + 1);
    }
}

/// A refresh that succeeds brings back the topic that was shown, where it is still
/// listed.
pub proof fn a_refresh_keeps_the_topic<W>(state: AppState<W>, id: String, cluster: LoadedCluster)
    requires
        state.ok(),
        state.session().connection == Some(id),
        state.session().topic is Some,
        place_of_id(state.profiles, id@, 0) is Some,
    ensures
        ({
            let (asked, step) = state.refreshing();
            let (next, sync) = asked.loading(id@, Ok(cluster));
            &&& step is Connect
            &&& next.session().topic == listed_topic(
                TopicList { all: cluster.topics@, selected: None, ..state.topics },
                state.session().topic->0.name@,
            )
            &&& next.reselect_after_refresh is None
            &&& sync == Some(next.sync())
        }),
{
    let (asked, step) = state.refreshing();
    assert(asked.connection() == Some(id@));
}

/// A window that gave a connection up has no worker and no state for it, and a tab that
/// showed it is on none.
pub proof fn a_given_up_connection_is_gone<W>(state: AppState<W>, id: Seq<char>)
    requires
        state.ok(),
    ensures
        ({
            let (next, sync) = state.disconnecting(id);
            &&& !next.workers.contains_key(id) && !next.states.contains_key(id)
            &&& next.connection() != Some(id)
            &&& sync is Some <==> state.connection() == Some(id)
        }),
{
}

/// A new tab comes to the end and is shown, on nothing yet, with a number of its own; the
/// other tabs stay. A full window takes none.
pub proof fn a_new_tab_comes_to_the_end<W>(state: AppState<W>, views: W)
    requires
        state.ok(),
    ensures
        ({
            let next = state.adding(views);
            &&& state.sessions.len() == 13 ==> next == state
            &&& state.sessions.len() < 13 ==> {
                &&& next.sessions.len() == state.sessions.len() + 1
                &&& next.sessions.drop_last() == state.sessions
                &&& next.current == state.sessions.len()
                &&& next.session().connection is None && next.session().topic is None && next.session().tab
                    == MainTab::Messages
            }
            &&& next.profiles == state.profiles && next.workers == state.workers && next.states == state.states
        }),
{
    if state.sessions.len() < MAX_TABS {
        assert(state.adding(views).sessions.drop_last() =~= state.sessions);
    }
}

/// A duplicated tab is on what the other one is on, and the other tabs stay.
pub proof fn a_duplicate_shows_what_its_source_shows<W>(state: AppState<W>, ix: int, views: W)
    requires
        state.ok(),
        0 <= state.next_session_id < u64::MAX,
        0 <= ix < state.sessions.len() < MAX_TABS,
    ensures
        ({
            let next = state.duplicating(ix, views);
            &&& next.sessions.len() == state.sessions.len() + 1
            &&& next.sessions.drop_last() == state.sessions
            &&& next.current == state.sessions.len()
            &&& next.session().connection == state.sessions[ix].connection
            &&& next.session().topic == state.sessions[ix].topic
            &&& next.session().tab == state.sessions[ix].tab
            &&& next.session().id != state.sessions[ix].id
        }),
{
    let next = state.duplicating(ix, views);
    assert(next.sessions.drop_last() =~= state.sessions);
    assert(state.sessions[ix].id < state.next_session_id);
}

/// Closing a tab takes it out and no other, and at least one tab is left.
pub proof fn closing_takes_out_one_tab<W>(state: AppState<W>, ix: int, views: W)
    requires
        state.ok(),
        0 <= ix < state.sessions.len(),
    ensures
        ({
            let next = state.closing(ix, views);
            &&& state.sessions.len() > 1 ==> next.sessions == state.sessions.remove(ix)
            &&& state.sessions.len() == 1 ==> next.sessions.len() == 1 && next.session().connection is None
                && next.session().topic is None && next.session().id == state.next_session_id as u64
            &&& 0 <= next.current < next.sessions.len()
            &&& next.profiles == state.profiles && next.workers == state.workers
        }),
{
}

/// A tab that connects is on that connection and on no topic yet. The cluster of the saved
/// connection is asked, with the password that goes with it; a worker that runs already is
/// used again.
pub proof fn connecting_asks_the_saved_connection<W>(state: AppState<W>, id: String)
    requires
        state.ok(),
        0 <= state.next_worker < u64::MAX,
    ensures
        ({
            let (next, step) = state.connecting(id);
            match place_of_id(state.profiles, id@, 0) {
                None => next == state && step is Stay,
                Some(place) => {
                    &&& step matches Step::Connect(order, sync) && {
                        &&& order.profile == state.profiles[place]
                        &&& order.id == id
                        &&& state.workers.contains_key(id@) ==> order.worker == state.workers[id@] && !order.fresh
                        &&& !state.workers.contains_key(id@) ==> order.fresh && order.worker == state.next_worker
                        &&& state.dev_passwords.contains_key(id@) ==> order.password == Some(state.dev_passwords[id@])
                        &&& !state.dev_passwords.contains_key(id@) ==> order.password == state.profiles[place].password
                        &&& sync.worker == Some(order.worker) && sync.topic is None
                    }
                    &&& next.connection() == Some(id@)
                    &&& next.session().topic is None
                    &&& next.states.contains_key(id@) && next.states[id@] is Connecting
                    &&& next.workers.contains_key(id@)
                    &&& next.topics.all.len() == 0
                    &&& next.profiles == state.profiles
                },
            }
        }),
{
    a_found_place_is_in_the_row(state.profiles, id@, 0);
}

/// A cluster that answered is known by its brokers and topics, and a tab that is on it lists
/// them; one that failed is known by its reason, and has no worker any more. No other
/// connection changes.
pub proof fn a_cluster_is_known_by_its_answer<W>(state: AppState<W>, id: Seq<char>, result: Result<LoadedCluster, String>)
    requires
        state.ok(),
    ensures
        ({
            let (next, sync) = state.loading(id, result);
            &&& next.states.contains_key(id)
            &&& result matches Ok(cluster) ==> {
                &&& next.states[id] == ConnState::Connected(cluster)
                &&& next.workers == state.workers
                &&& state.connection() == Some(id) ==> next.topics.all == cluster.topics@ && sync is Some
                &&& state.connection() != Some(id) ==> next.topics == state.topics && sync is None && next.sessions
                    == state.sessions
            }
            &&& result matches Err(reason) ==> next.states[id] == ConnState::Failed(reason)
                && !next.workers.contains_key(id) && sync is None && next.sessions == state.sessions
            &&& forall|other: Seq<char>|
                other != id ==> (#[trigger] next.states.contains_key(other) <==> state.states.contains_key(other)) && (
                state.states.contains_key(other) ==> next.states[other] == state.states[other])
            &&& next.profiles == state.profiles
        }),
{
}

/// A saved connection is found under its id, with its password, of which an empty one is none;
/// every other connection stays. It is given up, so that it is reached anew.
pub proof fn a_saved_connection_is_found<W>(
    state: AppState<W>,
    profile: ConnectionProfile,
    password: Option<String>,
)
    requires
        state.ok(),
    ensures
        ({
            let (next, sync) = state.upserting(profile, password);
            &&& place_of_id(next.profiles, profile.id@, 0) matches Some(place) && {
                let saved = next.profiles[place];
                &&& saved.name == profile.name && saved.bootstrap_servers == profile.bootstrap_servers
                &&& saved.security == profile.security && saved.ca_location == profile.ca_location
                &&& password matches Some(text) ==> (text@.len() > 0 ==> saved.password == Some(text))
                &&& password matches Some(text) ==> (text@.len() == 0 ==> saved.password is None)
                &&& password is None ==> saved.password is None
            }
            &&& forall|k: int|
                0 <= k < state.profiles.len() && (#[trigger] state.profiles[k]).id@ != profile.id@ ==> next.profiles[k]
                    == state.profiles[k]
            &&& !next.workers.contains_key(profile.id@) && !next.states.contains_key(profile.id@)
        }),
{
    let kept = match password {
        Some(p) => if p@.len() == 0 {
            None
        } else {
            Some(p)
        },
        None => None,
    };
    let stored = ConnectionProfile { password: kept, ..profile };
    a_put_profile_is_found(state.profiles, stored, profile.id@);
    saving_keeps_the_others(state.profiles, stored);
    assert(state.upserting(profile, password).0.profiles == with_profile(state.profiles, stored));
}

/// A removed connection is gone, and so is what was remembered of it; no other is.
pub proof fn a_removed_connection_is_gone<W>(state: AppState<W>, id: Seq<char>)
    requires
        state.ok(),
    ensures
        ({
            let (next, sync) = state.removing(id);
            &&& forall|k: int| 0 <= k < next.profiles.len() ==> (#[trigger] next.profiles[k]).id@ != id
            &&& next.profiles == without_id(state.profiles, id)
            &&& !next.workers.contains_key(id) && !next.states.contains_key(id) && !next.views.contains_key(id)
            &&& next.connection() != Some(id)
        }),
{
    a_given_up_connection_is_gone(state, id);
    if state.profiles.len() > 0 {
        removing_takes_out_an_id_alone(Seq::empty(), state.profiles, state.profiles[0], id);
    }
}

/// The neighbour of a connection is the next one in the row, and behind the last comes the
/// first; from no connection the first one is the next.
pub proof fn the_next_connection_is_the_neighbour<W>(state: AppState<W>, place: int)
    requires
        state.profiles.len() > 0,
        state.connection() is Some ==> place_of_id(state.profiles, state.connection()->0, 0) == Some(place),
        state.connection() is None ==> place == -1,
        -1 <= place < state.profiles.len(),
    ensures
        state.place_by_offset(1) == (if place + 1 < state.profiles.len() {
            place + 1
        } else {
            0
        }),
        place >= 0 ==> state.place_by_offset(-1) == (if place > 0 {
            place - 1
        } else {
            state.profiles.len() - 1
        }),
{
    let n = state.profiles.len() as int;
    if place + 1 < n {
        vstd::arithmetic::div_mod::lemma_small_mod((place + 1) as nat, n as nat);
    } else {
        assert(place + 1 == n);
        vstd::arithmetic::div_mod::lemma_mod_self_0(n);
    }
    if place > 0 {
        vstd::arithmetic::div_mod::lemma_small_mod((place - 1) as nat, n as nat);
    } else if place == 0 {
        vstd::arithmetic::div_mod::lemma_mod_add_multiples_vanish(-1, n);
        vstd::arithmetic::div_mod::lemma_small_mod((n - 1) as nat, n as nat);
    }
}

/// The views of a tab show its own topic through the worker of its own connection.
pub proof fn views_show_what_the_tab_is_on<W>(state: AppState<W>)
    ensures
        state.sync().session == state.session().id,
        state.sync().topic == state.session().topic,
        state.connection() is None ==> state.sync().worker is None,
        state.connection() matches Some(id) ==> (state.workers.contains_key(id) ==> state.sync().worker == Some(
            state.workers[id],
        )),
        state.connection() matches Some(id) ==> (!state.workers.contains_key(id) ==> state.sync().worker is None),
{
}

/// A tab is called by its topic, and without one by its connection.
pub proof fn a_tab_is_called_by_what_it_is_on<W>(state: AppState<W>, session: Session<W>)
    ensures
        session.topic matches Some(topic) ==> state.label_of(session) == topic.name@,
        session.topic is None && session.connection is None ==> state.label_of(session) == "New tab"@,
        session.topic is None ==> (session.connection matches Some(id) ==> match place_of_id(state.profiles, id@, 0) {
            Some(place) => state.label_of(session) == state.profiles[place].name@,
            None => state.label_of(session) == "New tab"@,
        }),
{
}

/// A connection's dot and hint tell how it is doing: green with what it has, yellow while it is
/// reached, red with the reason of a failure, and muted with its brokers where it was not
/// asked for.
pub proof fn a_dot_tells_how_a_connection_is_doing<W>(state: AppState<W>, profile: ConnectionProfile)
    ensures
        ({
            let (dot, hint) = state.hint_of(profile);
            let known = state.states.contains_key(profile.id@);
            &&& dot == Dot::Green <==> known && state.states[profile.id@] is Connected
            &&& dot == Dot::Yellow <==> known && state.states[profile.id@] is Connecting
            &&& dot == Dot::Red <==> known && state.states[profile.id@] is Failed
            &&& dot == Dot::Muted <==> !known
            &&& !known ==> hint == profile.bootstrap_servers@
            &&& known ==> (state.states[profile.id@] matches ConnState::Failed(reason) ==> hint == reason@)
        }),
{
}

/// The passwords that are still awaited are those of the connections that need one and have
/// none: of two rows of connections they are those of the first, and behind them those of the
/// second.
pub proof fn missing_passwords_are_awaited(
    first: Seq<ConnectionProfile>,
    second: Seq<ConnectionProfile>,
    profile: ConnectionProfile,
)
    ensures
        without_password(first + second) == without_password(first) + without_password(second),
        profile.security is SaslSsl && profile.password is None ==> without_password(seq![profile]) == seq![profile.id],
        !(profile.security is SaslSsl && profile.password is None) ==> without_password(seq![profile]).len() == 0,
    decreases second.len(),
{
    assert(seq![profile].drop_last() =~= Seq::empty());
    assert(without_password(seq![profile].drop_last()) =~= Seq::empty());
    if profile.security is SaslSsl && profile.password is None {
        assert(without_password(seq![profile]) =~= seq![profile.id]);
    }
    if second.len() == 0 {
        assert(first + second =~= first);
        assert(without_password(first) + without_password(second) =~= without_password(first));
    } else {
        missing_passwords_are_awaited(first, second.drop_last(), profile);
        assert((first + second).drop_last() =~= first + second.drop_last());
        assert(without_password(first + second) =~= without_password(first) + without_password(second));
    }
}

/// A password that was found goes to the connection of its id; the connections stay as they
/// are but for their passwords.
pub proof fn a_found_password_goes_to_its_connection(
    profiles: Seq<ConnectionProfile>,
    found: Seq<(String, String)>,
    n: int,
)
    requires
        0 <= n <= found.len(),
    ensures
        with_passwords(profiles, found, n).len() == profiles.len(),
        forall|k: int|
            0 <= k < profiles.len() ==> {
                let after = #[trigger] with_passwords(profiles, found, n)[k];
                after.id == profiles[k].id && after.name == profiles[k].name && after.bootstrap_servers
                    == profiles[k].bootstrap_servers && after.security == profiles[k].security && after.ca_location
                    == profiles[k].ca_location
            },
        n > 0 ==> (place_of_id(profiles, found[n - 1].0@, 0) matches Some(place) ==> with_passwords(profiles, found, n)[place].password
            == Some(found[n - 1].1)),
        n == 0 ==> with_passwords(profiles, found, n) == profiles,
    decreases n,
{
    if n > 0 {
        a_found_password_goes_to_its_connection(profiles, found, n - 1);
        let before = with_passwords(profiles, found, n - 1);
        let id = found[n - 1].0@;
        same_ids_are_found_at_the_same_place(before, profiles, id, 0);
        a_found_place_is_in_the_row(profiles, id, 0);
    }
}

proof fn same_ids_are_found_at_the_same_place(
    a: Seq<ConnectionProfile>,
    b: Seq<ConnectionProfile>,
    id: Seq<char>,
    i: int,
)
    requires
        0 <= i,
        a.len() == b.len(),
        forall|k: int| 0 <= k < a.len() ==> (#[trigger] a[k]).id == b[k].id,
    ensures
        place_of_id(a, id, i) == place_of_id(b, id, i),
    decreases a.len() - i,
{
    if i < a.len() {
        assert(a[i].id == b[i].id);
        same_ids_are_found_at_the_same_place(a, b, id, i + 1);
    }
}

/// A topic that was created is to be shown when the cluster answers; one that was deleted is
/// shown no more.
pub proof fn topics_come_and_go<W>(state: AppState<W>, name: String)
    requires
        state.ok(),
    ensures
        state.after_creation(name).0.reselect_after_refresh == Some(name),
        !state.without_topic(name@).shows_topic(name@),
        !state.shows_topic(name@) ==> state.without_topic(name@) == state,
{
}

/// A tab is found at its place, under its label.
pub proof fn main_tabs_stand_at_their_places(tab: MainTab, place: usize, at: MainTab, label: &'static str)
    requires
        call_ensures(MainTab::place, (tab,), place),
        call_ensures(MainTab::at, (place,), at),
        call_ensures(MainTab::label, (tab,), label),
    ensures
        at == tab,
        place < 3 && MainTab::ALL[place as int] == tab,
        tab is Messages <==> label@ == "Messages"@,
        tab is Produce <==> label@ == "Produce"@,
        tab is Consumers <==> label@ == "Consumers"@,
{
    reveal_strlit("Messages");
    reveal_strlit("Produce");
    reveal_strlit("Consumers");
    assert("Messages"@.len() == 8 && "Produce"@.len() == 7 && "Consumers"@.len() == 9);
}

/// A topic is read at once when it is shown anew, where the settings say so and it can be; the
/// views then show it, on its connection.
pub proof fn a_new_topic_is_read_at_once(
    messages: &mut MessagesView,
    produce: &mut ProduceView,
    consumers: &mut ConsumersView,
    sync: &Sync,
    settings: &Settings,
    shown: Shown,
)
    requires
        call_ensures(show_in_views, (messages, produce, consumers, sync, settings), shown),
    ensures
        final(messages)@.topic == sync.topic && final(messages)@.worker == sync.worker,
        final(produce)@.topic == sync.topic && final(produce)@.worker == sync.worker,
        final(consumers)@.topic == sync.topic && final(consumers)@.connected == (sync.worker is Some),
        shown.start ==> sync.worker is Some && sync.topic is Some && settings.auto_consume_on_select && shown.changed,
        shown.changed && sync.worker is Some && sync.topic is Some && settings.auto_consume_on_select ==> shown.start,
        shown.changed ==> final(messages).table.records().len() == 0 && !final(messages)@.running,
        !shown.changed ==> final(messages).table == old(messages).table,
{
}

/// A connection that was imported is saved under its name, in place of the one that has it,
/// with its password.
pub proof fn an_imported_connection_is_saved<W>(
    app: &mut KafkamitterApp<W>,
    profile: ConnectionProfile,
    password: Option<String>,
    sync: Option<Sync>,
)
    requires
        old(app)@.ok(),
        call_ensures(KafkamitterApp::<W>::import_profile, (app, profile, password), sync),
    ensures
        exists|k: int|
            0 <= k < final(app)@.profiles.len() && (#[trigger] final(app)@.profiles[k]).name == profile.name
                && final(app)@.profiles[k].bootstrap_servers == profile.bootstrap_servers
                && final(app)@.profiles[k].security == profile.security && (password matches Some(text) ==> (text@.len()
                > 0 ==> final(app)@.profiles[k].password == Some(text))),
        (exists|k: int|
            0 <= k < old(app)@.profiles.len() && (#[trigger] old(app)@.profiles[k]).name@ == profile.name@) ==> final(app)@.profiles.len() == old(app)@.profiles.len(),
{
    let before = old(app)@.profiles;
    let adopted = with_known_id(before, profile);
    an_import_takes_the_place_of_its_name(before, profile);
    a_saved_connection_is_found(old(app)@, adopted, password);
    let place = place_of_id(final(app)@.profiles, adopted.id@, 0)->0;
    a_found_place_is_in_the_row(final(app)@.profiles, adopted.id@, 0);
    assert(final(app)@.profiles[place].name == profile.name);
    let kept = match password {
        Some(p) => if p@.len() == 0 {
            None
        } else {
            Some(p)
        },
        None => None,
    };
    let stored = ConnectionProfile { password: kept, ..adopted };
    saving_keeps_the_others(before, stored);
    saving_keeps_the_others(before, adopted);
    assert(final(app)@.profiles == with_profile(before, stored));
}

/// The connection that is edited is the one of its id, with its password; and the shown one's
/// worker is the one that requests go to.
pub proof fn the_edited_connection_is_the_one_of_its_id<W>(
    app: &KafkamitterApp<W>,
    id: &str,
    found: Option<(ConnectionProfile, Option<String>)>,
    worker: Result<u64, String>,
)
    requires
        call_ensures(KafkamitterApp::<W>::edit_profile, (app, id), found),
        call_ensures(KafkamitterApp::<W>::active_worker, (app,), worker),
    ensures
        found matches Some((profile, password)) ==> profile.id@ == id@ && password == profile.password
            && app@.profiles.contains(profile),
        found is None ==> forall|k: int| 0 <= k < app@.profiles.len() ==> (#[trigger] app@.profiles[k]).id@ != id@,
        worker matches Ok(number) ==> (app@.connection() matches Some(shown) && app@.workers.contains_key(shown)
            && app@.workers[shown] == number),
        app@.connection() is None ==> worker is Err,
{
    profiles_are_found_at_their_first_place(app@.profiles, id@, 0);
}

/// A tab shows what its connection and its topic are: a failure with its reason, a hint while
/// it is reached or where it is on no topic, and else its topic with its partitions.
pub proof fn a_tab_shows_its_topic_or_why_not<W>(app: &KafkamitterApp<W>, content: Content)
    requires
        call_ensures(KafkamitterApp::<W>::session_content, (app,), content),
    ensures
        content is Failed <==> (app@.connection() matches Some(id) && app@.states.contains_key(id)
            && app@.states[id] is Failed),
        content matches Content::Failed { error, .. } ==> (app@.connection() matches Some(id) && app@.states[id]
            == ConnState::Failed(error)),
        content is Topic <==> app@.session().topic is Some && !(app@.connection() matches Some(id)
            && app@.states.contains_key(id) && !(app@.states[id] is Connected)),
        content matches Content::Topic { title, tab, .. } ==> Some(title@) == topic_name(app@.session().topic) && tab
            == app@.session().tab,
{
}

/// The topic of a row is what the shown tab is then on, and its views are told; no other tab
/// changes.
pub proof fn a_selected_topic_is_shown<W>(app: &mut KafkamitterApp<W>, row: usize, sync: Sync)
    requires
        old(app)@.ok(),
        call_ensures(KafkamitterApp::<W>::on_topic_selected, (app, row), sync),
    ensures
        final(app)@.session().topic == old(app)@.topics.at(row as int),
        final(app)@.session().connection == old(app)@.session().connection,
        sync.topic == final(app)@.session().topic && sync.session == final(app)@.session().id,
        final(app)@.sessions.len() == old(app)@.sessions.len(),
        forall|i: int|
            0 <= i < old(app)@.sessions.len() && i != old(app)@.current ==> #[trigger] final(app)@.sessions[i]
                == old(app)@.sessions[i],
{
}

/// A topic that was created is said to be, and the cluster is asked anew so that it is shown; a
/// failure is said with its reason, and changes nothing.
pub proof fn a_created_topic_is_looked_for<W>(
    app: &mut KafkamitterApp<W>,
    name: String,
    result: Result<(), String>,
    outcome: (String, Step),
)
    requires
        call_ensures(KafkamitterApp::<W>::on_topic_created, (app, name, result), outcome),
    ensures
        result is Ok ==> final(app)@.reselect_after_refresh == Some(name),
        result matches Err(reason) ==> outcome.1 is Stay && final(app)@ == old(app)@ && crate::text::ends_with(
            outcome.0@,
            reason@,
        ),
{
    if result is Err {
        let reason = result->Err_0@;
        let text = "Create topic failed: "@ + reason;
        assert(text.skip(text.len() - reason.len()) =~= reason);
    }
}

/// The connections that were read are those of the window, and where they could not be read,
/// the reason is said and those that there were stay.
pub proof fn read_connections_are_shown<W>(
    app: &mut KafkamitterApp<W>,
    loaded: Result<Vec<ConnectionProfile>, String>,
    settings: Settings,
    complaint: Option<String>,
)
    requires
        call_ensures(KafkamitterApp::<W>::finish_loading, (app, loaded, settings), complaint),
    ensures
        loaded matches Ok(profiles) ==> complaint is None && final(app)@.profiles == profiles@,
        loaded is Err ==> complaint is Some && final(app)@.profiles == old(app)@.profiles,
        final(app)@.settings == settings,
        final(app)@.sessions == old(app)@.sessions,
{
}

/// A connection that is not kept has an id by which it is known as such.
pub proof fn passing_connections_are_known_by_their_id(bootstrap: String, profile: ConnectionProfile, other: ConnectionProfile, passing: ConnectionProfile)
    requires
        call_ensures(passing_profile, (bootstrap,), profile),
        call_ensures(as_passing, (other,), passing),
    ensures
        crate::model::profile::is_passing(profile.id@),
        profile.bootstrap_servers@ == bootstrap@ && profile.security is Plaintext,
        crate::model::profile::is_passing(passing.id@),
        passing.name == other.name && passing.bootstrap_servers == other.bootstrap_servers && passing.security
            == other.security,
{
    let start = DEV_PROFILE_ID@ + "-"@;
    assert(passing.id@.take(start.len() as int) =~= start);
    assert(profile@.security == profile.security@);
    assert(profile@.id == profile.id@);
}

/// A tab that is closed is taken out and the others stay; the shown one stays shown where
/// another is closed, and the last one gives way to an empty one.
pub proof fn a_closed_tab_is_taken_out<W>(app: &mut KafkamitterApp<W>, ix: usize, fresh: W)
    requires
        old(app)@.ok(),
        ix < old(app)@.sessions.len(),
        call_ensures(KafkamitterApp::<W>::close_session, (app, ix, fresh), ()),
    ensures
        old(app)@.sessions.len() > 1 ==> final(app)@.sessions == old(app)@.sessions.remove(ix as int),
        ix != old(app)@.current ==> final(app)@.session() == old(app)@.session(),
        old(app)@.sessions.len() == 1 ==> final(app)@.sessions.len() == 1 && final(app)@.session().topic is None
            && final(app)@.session().connection is None,
        final(app)@.profiles == old(app)@.profiles && final(app)@.workers == old(app)@.workers && final(app)@.states
            == old(app)@.states,
{
    closing_takes_out_one_tab(old(app)@, ix as int, fresh);
    if ix != old(app)@.current {
        closing_another_tab_keeps_the_shown_one(old(app)@, ix as int, fresh);
    }
}

/// Closing all tabs leaves an empty one, and the connections stay.
pub proof fn closing_all_tabs_leaves_an_empty_one<W>(app: &mut KafkamitterApp<W>, fresh: W)
    requires
        call_ensures(KafkamitterApp::<W>::on_close_all_tabs, (app, fresh), ()),
    ensures
        final(app)@.sessions.len() == 1 && final(app)@.current == 0,
        final(app)@.session().topic is None && final(app)@.session().connection is None,
        final(app)@.topics.all.len() == 0,
        final(app)@.profiles == old(app)@.profiles && final(app)@.workers == old(app)@.workers && final(app)@.states
            == old(app)@.states,
{
}

/// A tab that is chosen is then the shown one, with the topics of its connection, and no tab
/// changes.
pub proof fn a_chosen_tab_is_then_shown<W>(app: &mut KafkamitterApp<W>, ix: usize, moved: bool)
    requires
        old(app)@.ok(),
        call_ensures(KafkamitterApp::<W>::select_session, (app, ix), moved),
    ensures
        final(app)@.sessions == old(app)@.sessions,
        ix < old(app)@.sessions.len() ==> final(app)@.current == ix,
        ix >= old(app)@.sessions.len() ==> final(app)@ == old(app)@,
        moved <==> final(app)@.current != old(app)@.current,
        moved ==> final(app)@.topics.all == final(app)@.topics_of(final(app)@.connection()),
{
    if ix < old(app)@.sessions.len() {
        tabs_stay_as_they_were(old(app)@, ix as int);
    }
}

/// A new tab comes to the end and is shown, until the window is full; it is on no connection.
pub proof fn an_opened_tab_is_shown<W>(app: &mut KafkamitterApp<W>, views: W, added: bool)
    requires
        old(app)@.ok(),
        call_ensures(KafkamitterApp::<W>::on_new_tab, (app, views), added),
    ensures
        added <==> final(app)@.sessions.len() == old(app)@.sessions.len() + 1,
        !added ==> final(app)@ == old(app)@ && old(app)@.sessions.len() == MAX_TABS,
        added ==> final(app)@.sessions.drop_last() == old(app)@.sessions && final(app)@.current
            == old(app)@.sessions.len() && final(app)@.session().connection is None && final(app)@.session().topic is None
            && final(app)@.topics.all.len() == 0,
{
    a_new_tab_comes_to_the_end(old(app)@, views);
}

/// A session that is added comes to the end and is shown, where the window has room for it.
pub proof fn an_added_session_is_the_last<W>(
    app: &mut KafkamitterApp<W>,
    views: W,
    full: bool,
    added: bool,
)
    requires
        old(app)@.ok(),
        call_ensures(KafkamitterApp::<W>::tabs_are_full, (&*old(app),), full),
        call_ensures(KafkamitterApp::<W>::add_session, (app, views), added),
    ensures
        added <==> !full,
        added ==> final(app)@.sessions.drop_last() == old(app)@.sessions && final(app)@.current
            == old(app)@.sessions.len(),
        !added ==> final(app)@ == old(app)@,
{
    a_new_tab_comes_to_the_end(old(app)@, views);
}

/// A tab that is duplicated is shown once more, at the end, on the same topic, tab and
/// connection; in a full window nothing changes.
pub proof fn a_tab_is_shown_twice<W>(app: &mut KafkamitterApp<W>, ix: usize, views: W, sync: Option<Sync>)
    requires
        old(app)@.ok(),
        old(app)@.next_session_id < u64::MAX,
        ix < old(app)@.sessions.len(),
        call_ensures(KafkamitterApp::<W>::duplicate_session, (app, ix, views), sync),
    ensures
        sync is Some <==> old(app)@.sessions.len() < MAX_TABS,
        sync is Some ==> final(app)@.sessions.drop_last() == old(app)@.sessions && final(app)@.current
            == old(app)@.sessions.len(),
        sync is Some ==> final(app)@.session().topic == old(app)@.sessions[ix as int].topic
            && final(app)@.session().connection == old(app)@.sessions[ix as int].connection && final(app)@.session().tab
            == old(app)@.sessions[ix as int].tab,
        sync matches Some(shown) ==> shown.topic == final(app)@.session().topic && shown.session
            == final(app)@.session().id,
        sync is None ==> final(app)@ == old(app)@,
{
    if old(app)@.sessions.len() < MAX_TABS {
        a_duplicate_shows_what_its_source_shows(old(app)@, ix as int, views);
        views_show_what_the_tab_is_on(final(app)@);
    }
}

/// A saved connection that is connected to is asked for its cluster, with its password, and the
/// shown tab is then on it; one that is not saved changes nothing.
pub proof fn a_saved_connection_is_asked<W>(app: &mut KafkamitterApp<W>, id: String, step: Step)
    requires
        old(app)@.ok(),
        0 <= old(app)@.next_worker < u64::MAX,
        call_ensures(KafkamitterApp::<W>::connect, (app, id), step),
    ensures
        step is Connect <==> exists|k: int|
            0 <= k < old(app)@.profiles.len() && (#[trigger] old(app)@.profiles[k]).id@ == id@,
        !(step is Connect) ==> final(app)@ == old(app)@ && step is Stay,
        step matches Step::Connect(order, sync) ==> {
            &&& order.profile.id@ == id@ && old(app)@.profiles.contains(order.profile)
            &&& old(app)@.dev_passwords.contains_key(id@) ==> order.password == Some(old(app)@.dev_passwords[id@])
            &&& !old(app)@.dev_passwords.contains_key(id@) ==> order.password == order.profile.password
            &&& final(app)@.connection() == Some(id@) && final(app)@.session().topic is None
            &&& final(app)@.states.contains_key(id@) && final(app)@.states[id@] is Connecting
            &&& final(app)@.workers.contains_key(id@) && final(app)@.workers[id@] == order.worker
            &&& sync.worker == Some(order.worker)
        },
        final(app)@.profiles == old(app)@.profiles,
{
    connecting_asks_the_saved_connection(old(app)@, id);
    profiles_are_found_at_their_first_place(old(app)@.profiles, id@, 0);
    if step is Connect {
        let place = place_of_id(old(app)@.profiles, id@, 0)->0;
        assert(old(app)@.profiles[place].id@ == id@);
        views_show_what_the_tab_is_on(final(app)@);
    }
}

/// A connection that is reached anew gets a worker of its own, whichever it had.
pub proof fn a_new_attempt_gets_a_new_worker<W>(app: &mut KafkamitterApp<W>, id: String, step: Step)
    requires
        old(app)@.ok(),
        0 <= old(app)@.next_worker < u64::MAX,
        call_ensures(KafkamitterApp::<W>::reconnect, (app, id), step),
    ensures
        step matches Step::Connect(order, sync) ==> order.fresh && order.worker == old(app)@.next_worker
            && order.profile.id@ == id@ && final(app)@.connection() == Some(id@),
        place_of_id(old(app)@.profiles, id@, 0) is Some ==> step is Connect,
{
    connecting_asks_the_saved_connection(old(app)@.dropping(id@), id);
    profiles_are_found_at_their_first_place(old(app)@.profiles, id@, 0);
}

/// A connection that is switched to is the shown tab's from then on; what the tab showed of the
/// one that it leaves is remembered. Switching to the shown connection changes nothing.
pub proof fn a_tab_switches_its_connection<W>(app: &mut KafkamitterApp<W>, id: String, step: Step)
    requires
        old(app)@.ok(),
        0 <= old(app)@.next_worker < u64::MAX,
        call_ensures(KafkamitterApp::<W>::activate_connection, (app, id), step),
    ensures
        switches(old(app)@, final(app)@, id, step),
{
    switching_remembers_the_view(old(app)@, id);
}

/// What a switch to a connection does.
pub open spec fn switches<W>(before: AppState<W>, after: AppState<W>, id: String, step: Step) -> bool {
    let known = before.states.contains_key(id@) && !(before.states[id@] is Failed);
    &&& before.connection() == Some(id@) ==> after == before && step is Stay
    &&& before.connection() != Some(id@) && (known || place_of_id(before.profiles, id@, 0) is Some)
        ==> after.connection() == Some(id@)
    &&& before.connection() != Some(id@) ==> (before.session().connection matches Some(left)
        ==> after.views.contains_key(left@) && after.views[left@].tab == before.session().tab && option_view(
        after.views[left@].topic,
    ) == topic_name(before.session().topic))
    &&& after.sessions.len() == before.sessions.len()
    &&& forall|i: int|
        0 <= i < before.sessions.len() && i != before.current ==> #[trigger] after.sessions[i] == before.sessions[i]
    &&& after.profiles == before.profiles
}

/// A switch to a connection leaves the other tabs alone and remembers what the shown one was on.
pub proof fn switching_remembers_the_view<W>(state: AppState<W>, id: String)
    requires
        state.ok(),
        0 <= state.next_worker < u64::MAX,
    ensures
        switches(state, state.activating(id).0, id, state.activating(id).1),
{
    let left = state.remembering();
    assert(left.sessions == state.sessions && left.profiles == state.profiles && left.states == state.states);
    connecting_asks_the_saved_connection(left, id);
}

/// The next and the previous connection, and the one with a number, are switched to as if they
/// had been chosen; without connections nothing changes.
pub proof fn neighbours_are_switched_to<W>(app: &mut KafkamitterApp<W>, offset: isize, id: Option<String>, step: Step)
    requires
        old(app)@.ok(),
        0 <= old(app)@.next_worker < u64::MAX,
        call_ensures(KafkamitterApp::<W>::connection_by_offset, (&*old(app), offset), id),
        call_ensures(KafkamitterApp::<W>::switch_connection_by_offset, (app, offset), step),
    ensures
        id is None <==> old(app)@.profiles.len() == 0,
        id is None ==> final(app)@ == old(app)@ && step is Stay,
        id matches Some(neighbour) ==> switches(old(app)@, final(app)@, neighbour, step),
        offset == 0 && old(app)@.connection() is Some && place_of_id(old(app)@.profiles, old(app)@.connection()->0, 0) is Some
            ==> (id matches Some(neighbour) && Some(neighbour@) == old(app)@.connection()),
        offset == 1 && old(app)@.connection() is None && old(app)@.profiles.len() > 0 ==> id == Some(
            old(app)@.profiles[0].id,
        ),
{
    let state = old(app)@;
    let n = state.profiles.len() as int;
    if n > 0 {
        switching_remembers_the_view(state, state.profiles[state.place_by_offset(offset as int)].id);
        if state.connection() is None {
            the_next_connection_is_the_neighbour(state, -1);
        } else {
            profiles_are_found_at_their_first_place(state.profiles, state.connection()->0, 0);
            if let Some(place) = place_of_id(state.profiles, state.connection()->0, 0) {
                vstd::arithmetic::div_mod::lemma_small_mod(place as nat, n as nat);
            }
        }
    }
}

/// A connection is switched to by its number in the row; beyond the row nothing changes.
pub proof fn a_numbered_connection_is_switched_to<W>(app: &mut KafkamitterApp<W>, index: usize, step: Step)
    requires
        old(app)@.ok(),
        0 <= old(app)@.next_worker < u64::MAX,
        call_ensures(KafkamitterApp::<W>::on_switch_connection, (app, index), step),
    ensures
        index < old(app)@.profiles.len() ==> switches(old(app)@, final(app)@, old(app)@.profiles[index as int].id, step),
        index >= old(app)@.profiles.len() ==> final(app)@ == old(app)@ && step is Stay,
{
    if index < old(app)@.profiles.len() {
        switching_remembers_the_view(old(app)@, old(app)@.profiles[index as int].id);
    }
}

/// A connection that is saved is in the row with what it says and the password that was given,
/// an empty one being none; the others stay, and the connection is reached anew.
pub proof fn saving_puts_a_connection_into_the_row<W>(
    app: &mut KafkamitterApp<W>,
    profile: ConnectionProfile,
    password: Option<String>,
    sync: Option<Sync>,
)
    requires
        old(app)@.ok(),
        call_ensures(KafkamitterApp::<W>::upsert_profile, (app, profile, password), sync),
    ensures
        exists|k: int|
            0 <= k < final(app)@.profiles.len() && (#[trigger] final(app)@.profiles[k]).id@ == profile.id@
                && final(app)@.profiles[k].name == profile.name && final(app)@.profiles[k].bootstrap_servers
                == profile.bootstrap_servers && final(app)@.profiles[k].security == profile.security
                && final(app)@.profiles[k].password == (if password is Some && password->0@.len() > 0 {
                password
            } else {
                None
            }),
        forall|k: int|
            0 <= k < old(app)@.profiles.len() && (#[trigger] old(app)@.profiles[k]).id@ != profile.id@
                ==> final(app)@.profiles[k] == old(app)@.profiles[k],
        !final(app)@.workers.contains_key(profile.id@) && !final(app)@.states.contains_key(profile.id@),
{
    a_saved_connection_is_found(old(app)@, profile, password);
    profiles_are_found_at_their_first_place(final(app)@.profiles, profile.id@, 0);
    let place = place_of_id(final(app)@.profiles, profile.id@, 0)->0;
    assert(final(app)@.profiles[place].id@ == profile.id@);
}

/// A connection that is removed leaves nothing of itself, and the others stay.
pub proof fn removing_leaves_nothing_of_a_connection<W>(app: &mut KafkamitterApp<W>, id: &str, sync: Option<Sync>)
    requires
        old(app)@.ok(),
        call_ensures(KafkamitterApp::<W>::remove_profile, (app, id), sync),
    ensures
        forall|k: int| 0 <= k < final(app)@.profiles.len() ==> (#[trigger] final(app)@.profiles[k]).id@ != id@,
        forall|k: int|
            0 <= k < old(app)@.profiles.len() && (#[trigger] old(app)@.profiles[k]).id@ != id@
                ==> final(app)@.profiles.contains(old(app)@.profiles[k]),
        !final(app)@.workers.contains_key(id@) && !final(app)@.states.contains_key(id@)
            && !final(app)@.views.contains_key(id@),
        final(app)@.connection() != Some(id@),
        sync is Some <==> old(app)@.connection() == Some(id@),
{
    a_removed_connection_is_gone(old(app)@, id@);
    a_given_up_connection_is_gone(old(app)@, id@);
    others_are_kept(old(app)@.profiles, id@);
}

/// A refresh asks the shown connection anew and remembers the topic that is shown; a tab on no
/// connection stays.
pub proof fn a_refresh_asks_the_shown_connection<W>(app: &mut KafkamitterApp<W>, step: Step)
    requires
        old(app)@.ok(),
        0 <= old(app)@.next_worker < u64::MAX,
        call_ensures(KafkamitterApp::<W>::refresh_active, (app,), step),
    ensures
        old(app)@.connection() is None ==> final(app)@ == old(app)@ && step is Stay,
        old(app)@.connection() is Some ==> option_view(final(app)@.reselect_after_refresh) == topic_name(
            old(app)@.session().topic,
        ),
        step matches Step::Connect(order, sync) ==> Some(order.profile.id@) == old(app)@.connection(),
        old(app)@.connection() matches Some(id) ==> (place_of_id(old(app)@.profiles, id, 0) is Some ==> step is Connect),
{
    if let Some(id) = old(app)@.session().connection {
        connecting_asks_the_saved_connection(old(app)@, id);
        profiles_are_found_at_their_first_place(old(app)@.profiles, id@, 0);
    }
}

/// A cluster that was read is what its connection is known by, a failure is known with its
/// reason; the shown tab lists the topics where it is on this connection.
pub proof fn an_answer_is_shown_where_it_belongs<W>(
    app: &mut KafkamitterApp<W>,
    id: String,
    result: Result<LoadedCluster, String>,
    sync: Option<Sync>,
)
    requires
        old(app)@.ok(),
        call_ensures(KafkamitterApp::<W>::on_cluster_loaded, (app, id, result), sync),
    ensures
        final(app)@.states.contains_key(id@),
        result matches Ok(cluster) ==> final(app)@.states[id@] == ConnState::Connected(cluster),
        result matches Err(reason) ==> final(app)@.states[id@] == ConnState::Failed(reason)
            && !final(app)@.workers.contains_key(id@),
        result matches Ok(cluster) ==> (old(app)@.connection() == Some(id@) ==> final(app)@.topics.all
            == cluster.topics@),
        old(app)@.connection() != Some(id@) ==> final(app)@.sessions == old(app)@.sessions && final(app)@.topics
            == old(app)@.topics,
        forall|other: Seq<char>|
            other != id@ && old(app)@.states.contains_key(other) ==> #[trigger] final(app)@.states[other]
                == old(app)@.states[other],
{
    a_cluster_is_known_by_its_answer(old(app)@, id@, result);
}

/// A topic is selected by its name, where one of this name is listed; else the tab is on none.
pub proof fn a_topic_is_found_in_the_list<W>(app: &mut KafkamitterApp<W>, name: &str)
    requires
        old(app)@.ok(),
        call_ensures(KafkamitterApp::<W>::select_topic_by_name, (app, name), ()),
    ensures
        final(app)@.session().topic matches Some(topic) ==> topic.name@ == name@,
        (exists|k: int|
            0 <= k < old(app)@.topics.rows().len() && old(app)@.topics.all[#[trigger] old(app)@.topics.rows()[k] as int].name@
                == name@) ==> final(app)@.session().topic is Some,
        final(app)@.session().connection == old(app)@.session().connection && final(app)@.session().tab
            == old(app)@.session().tab,
{
    a_row_is_found_by_its_name(old(app)@.topics, name@, 0);
}

/// The tab of a session changes alone.
pub proof fn the_tab_of_a_session_changes_alone<W>(app: &mut KafkamitterApp<W>, tab: MainTab)
    requires
        old(app)@.ok(),
        call_ensures(KafkamitterApp::<W>::set_tab, (app, tab), ()),
    ensures
        final(app)@.session().tab == tab,
        final(app)@.session().topic == old(app)@.session().topic && final(app)@.session().connection
            == old(app)@.session().connection,
        final(app)@.sessions.len() == old(app)@.sessions.len() && final(app)@.topics == old(app)@.topics,
{
}

/// The messages are shown where a topic is, and internal topics are shown or hidden in turn.
pub proof fn messages_are_shown_of_a_topic<W>(app: &mut KafkamitterApp<W>, shown: bool)
    requires
        old(app)@.ok(),
        call_ensures(KafkamitterApp::<W>::show_messages, (app,), shown),
    ensures
        shown <==> old(app)@.session().topic is Some,
        shown ==> final(app)@.session().tab is Messages && final(app)@.session().topic == old(app)@.session().topic,
        !shown ==> final(app)@ == old(app)@,
{
}

/// Internal topics are listed and hidden in turn, and nothing else changes.
pub proof fn internal_topics_come_and_go<W>(app: &mut KafkamitterApp<W>)
    requires
        call_ensures(KafkamitterApp::<W>::toggle_internal_topics, (app,), ()),
    ensures
        final(app)@.topics.show_internal == !old(app)@.topics.show_internal,
        final(app)@.topics.all == old(app)@.topics.all && final(app)@.topics.query == old(app)@.topics.query,
        final(app)@.sessions == old(app)@.sessions && final(app)@.profiles == old(app)@.profiles,
{
}

/// A topic that was deleted is no longer shown, and the cluster is asked anew; a failure is said
/// with its reason and changes nothing.
pub proof fn a_deleted_topic_is_left<W>(
    app: &mut KafkamitterApp<W>,
    name: &str,
    result: Result<(), String>,
    outcome: (String, Option<Sync>, Step),
)
    requires
        old(app)@.ok(),
        0 <= old(app)@.next_worker < u64::MAX,
        call_ensures(KafkamitterApp::<W>::on_topic_deleted, (app, name, result), outcome),
    ensures
        result is Ok ==> !(final(app)@.session().topic matches Some(topic) && topic.name@ == name@),
        result is Ok ==> (outcome.1 is Some <==> (old(app)@.session().topic matches Some(topic) && topic.name@ == name@)),
        result is Ok ==> (outcome.1 matches Some(sync) ==> sync.topic is None),
        result is Ok && old(app)@.connection() is Some && place_of_id(old(app)@.profiles, old(app)@.connection()->0, 0) is Some
            ==> outcome.2 is Connect,
        result is Err ==> final(app)@ == old(app)@ && outcome.1 is None && outcome.2 is Stay,
        result is Ok ==> crate::text::ends_with(outcome.0@, name@),
        result matches Err(reason) ==> crate::text::ends_with(outcome.0@, reason@),
{
    if result is Ok {
        let left = old(app)@.without_topic(name@);
        assert(left.ok());
        if let Some(id) = left.session().connection {
            connecting_asks_the_saved_connection(left, id);
        }
        let text = "Deleted topic "@ + name@;
        assert(text.skip(text.len() - name@.len()) =~= name@);
    } else {
        let reason = result->Err_0@;
        let text = "Delete topic failed: "@ + reason;
        assert(text.skip(text.len() - reason.len()) =~= reason);
    }
}

/// Passwords that were found go to the connections of their ids, the last one found for an id
/// counts, and nothing else of a connection changes.
pub proof fn found_passwords_are_adopted<W>(
    app: &mut KafkamitterApp<W>,
    found: &Vec<(String, String)>,
    message: Option<String>,
)
    requires
        call_ensures(KafkamitterApp::<W>::adopt_passwords, (app, found), message),
    ensures
        final(app)@.profiles.len() == old(app)@.profiles.len(),
        forall|k: int|
            #![trigger final(app)@.profiles[k]]
            0 <= k < old(app)@.profiles.len() ==> final(app)@.profiles[k].id == old(app)@.profiles[k].id
                && final(app)@.profiles[k].bootstrap_servers == old(app)@.profiles[k].bootstrap_servers
                && final(app)@.profiles[k].security == old(app)@.profiles[k].security,
        found@.len() > 0 ==> (place_of_id(old(app)@.profiles, found@.last().0@, 0) matches Some(place)
            ==> final(app)@.profiles[place].password == Some(found@.last().1)),
        found@.len() == 0 ==> final(app)@.profiles == old(app)@.profiles,
        message is None <==> found@.len() == 0,
{
    a_found_password_goes_to_its_connection(old(app)@.profiles, found@, found@.len() as int);
}

/// A connection that is added is the last one and is asked at once.
pub proof fn an_added_connection_is_asked<W>(app: &mut KafkamitterApp<W>, profile: ConnectionProfile, step: Step)
    requires
        old(app)@.ok(),
        0 <= old(app)@.next_worker < u64::MAX,
        call_ensures(KafkamitterApp::<W>::add_and_connect, (app, profile), step),
    ensures
        final(app)@.profiles == old(app)@.profiles.push(profile),
        step matches Step::Connect(order, sync) && order.profile.id@ == profile.id@,
        final(app)@.connection() == Some(profile.id@),
{
    let state = AppState { profiles: old(app)@.profiles.push(profile), ..old(app)@ };
    connecting_asks_the_saved_connection(state, profile.id);
    profiles_are_found_at_their_first_place(state.profiles, profile.id@, 0);
    assert(state.profiles[old(app)@.profiles.len() as int].id@ == profile.id@);
}

/// A connection that is imported for the moment is asked with the password that came with it,
/// in place of one with its id.
pub proof fn an_imported_connection_is_asked<W>(
    app: &mut KafkamitterApp<W>,
    profile: ConnectionProfile,
    password: Option<String>,
    step: Step,
)
    requires
        old(app)@.ok(),
        0 <= old(app)@.next_worker < u64::MAX,
        call_ensures(KafkamitterApp::<W>::import_and_connect, (app, profile, password), step),
    ensures
        final(app)@.profiles.last() == profile,
        step matches Step::Connect(order, sync) && order.profile == profile && (password is Some ==> order.password
            == password),
        final(app)@.connection() == Some(profile.id@),
        forall|k: int|
            0 <= k < old(app)@.profiles.len() && (#[trigger] old(app)@.profiles[k]).id@ != profile.id@
                ==> final(app)@.profiles.contains(old(app)@.profiles[k]),
{
    let others = without_id(old(app)@.profiles, profile.id@);
    let state = AppState {
        profiles: others.push(profile),
        dev_passwords: match password {
            Some(p) => old(app)@.dev_passwords.insert(profile.id@, p),
            None => old(app)@.dev_passwords,
        },
        ..old(app)@
    };
    connecting_asks_the_saved_connection(state, profile.id);
    profiles_are_found_at_their_first_place(state.profiles, profile.id@, 0);
    removing_takes_out_an_id_alone(Seq::empty(), old(app)@.profiles, profile, profile.id@);
    others_are_kept(old(app)@.profiles, profile.id@);
    assert(state.profiles[others.len() as int] == profile);
    let place = place_of_id(state.profiles, profile.id@, 0)->0;
    assert(state.profiles[place].id@ == profile.id@);
    if place < others.len() {
        assert(others[place].id@ != profile.id@);
    }
    assert forall|k: int|
        0 <= k < old(app)@.profiles.len() && (#[trigger] old(app)@.profiles[k]).id@ != profile.id@ implies final(app)@.profiles.contains(
        old(app)@.profiles[k],
    ) by {
        assert(others.contains(old(app)@.profiles[k]));
        let i = choose|i: int| 0 <= i < others.len() && others[i] == old(app)@.profiles[k];
        assert(final(app)@.profiles[i] == old(app)@.profiles[k]);
    }
}

/// The window shows each tab by its label and each connection by its name; one of each is the
/// shown one, and only one that failed can be tried again.
pub proof fn the_window_shows_tabs_and_connections<W>(
    app: &KafkamitterApp<W>,
    tabs: Vec<TabItem>,
    rows: Vec<ConnectionRow>,
    sync: Sync,
)
    requires
        call_ensures(KafkamitterApp::<W>::session_tabs, (app,), tabs),
        call_ensures(KafkamitterApp::<W>::connection_rows, (app,), rows),
        call_ensures(KafkamitterApp::<W>::sync_messages_view, (app,), sync),
    ensures
        tabs@.len() == app@.sessions.len(),
        forall|i: int|
            0 <= i < tabs@.len() ==> ((#[trigger] tabs@[i]).active <==> i == app@.current) && (app@.sessions[i].topic matches Some(
                topic,
            ) ==> tabs@[i].label@ == topic.name@),
        rows@.len() == app@.profiles.len(),
        forall|i: int|
            0 <= i < rows@.len() ==> {
                &&& (#[trigger] rows@[i]).name == app@.profiles[i].name && rows@[i].id == app@.profiles[i].id
                &&& rows@[i].active <==> app@.connection() == Some(app@.profiles[i].id@)
                &&& rows@[i].retry <==> rows@[i].dot == Dot::Red
                &&& rows@[i].dot == Dot::Green <==> app@.states.contains_key(app@.profiles[i].id@)
                    && app@.states[app@.profiles[i].id@] is Connected
            },
        sync.topic == app@.session().topic && sync.session == app@.session().id,
{
    views_show_what_the_tab_is_on(app@);
    assert forall|i: int| 0 <= i < tabs@.len() implies ((#[trigger] tabs@[i]).active <==> i == app@.current) && (
    app@.sessions[i].topic matches Some(topic) ==> tabs@[i].label@ == topic.name@) by {
        a_tab_is_called_by_what_it_is_on(app@, app@.sessions[i]);
    }
    assert forall|i: int| 0 <= i < rows@.len() implies {
        &&& (#[trigger] rows@[i]).name == app@.profiles[i].name && rows@[i].id == app@.profiles[i].id
        &&& rows@[i].active <==> app@.connection() == Some(app@.profiles[i].id@)
        &&& rows@[i].retry <==> rows@[i].dot == Dot::Red
        &&& rows@[i].dot == Dot::Green <==> app@.states.contains_key(app@.profiles[i].id@)
            && app@.states[app@.profiles[i].id@] is Connected
    } by {
        a_dot_tells_how_a_connection_is_doing(app@, app@.profiles[i]);
    }
}

/// A connection is found by its name: the first that has it.
pub proof fn a_connection_is_found_by_its_name<W>(app: &KafkamitterApp<W>, name: &str, id: Option<String>, ids: Vec<String>)
    requires
        call_ensures(KafkamitterApp::<W>::id_by_name, (app, name), id),
        call_ensures(KafkamitterApp::<W>::awaiting_passwords, (app,), ids),
    ensures
        id matches Some(found) ==> exists|k: int|
            0 <= k < app@.profiles.len() && (#[trigger] app@.profiles[k]).id == found && app@.profiles[k].name@ == name@,
        id is None ==> forall|k: int| 0 <= k < app@.profiles.len() ==> (#[trigger] app@.profiles[k]).name@ != name@,
        app@.profiles.len() == 0 ==> ids@.len() == 0,
        app@.profiles.len() > 0 && app@.profiles.last().security is SaslSsl && app@.profiles.last().password is None
            ==> ids@.len() > 0 && ids@.last() == app@.profiles.last().id,
{
    a_name_is_found_at_its_first_place(app@.profiles, name@, 0);
    if let Some(place) = place_of_name(app@.profiles, name@, 0) {
        assert(app@.profiles[place].name@ == name@);
    }
    if app@.profiles.len() > 0 {
        let last = app@.profiles.last();
        missing_passwords_are_awaited(app@.profiles.drop_last(), seq![last], last);
        assert(app@.profiles.drop_last() + seq![last] =~= app@.profiles);
    }
}

proof fn a_name_is_found_at_its_first_place(profiles: Seq<ConnectionProfile>, name: Seq<char>, from: int)
    requires
        0 <= from,
    ensures
        match place_of_name(profiles, name, from) {
            Some(place) => from <= place < profiles.len() && profiles[place].name@ == name,
            None => forall|k: int| from <= k < profiles.len() ==> (#[trigger] profiles[k]).name@ != name,
        },
    decreases profiles.len() - from,
{
    if from < profiles.len() {
        a_name_is_found_at_its_first_place(profiles, name, from + 1);
    }
}

/// A tab without a topic says what to do: to add a connection, to select one, or to select a
/// topic; while a connection is reached, it says so. A topic is shown with how many partitions
/// and copies it has.
pub proof fn a_tab_says_what_to_do<W>(app: &KafkamitterApp<W>, content: Content)
    requires
        call_ensures(KafkamitterApp::<W>::session_content, (app,), content),
    ensures
        app@.shown_state() is None && app@.session().topic is None && app@.connection() is None && app@.profiles.len() == 0
            ==> (content matches Content::Hint(text) && text@ == "Add a connection to start"@),
        app@.session().topic is None && app@.connection() is None && app@.profiles.len() > 0 ==> (
        content matches Content::Hint(text) && text@ == "Select a connection from the left"@),
        app@.session().topic is None && app@.connection() is Some && !(app@.shown_state() matches Some(state) && !(
        state is Connected)) ==> (content matches Content::Hint(text) && text@ == "Select a topic"@),
        app@.shown_state() matches Some(state) ==> (state is Connecting ==> (content matches Content::Hint(text) && text@
            == "Connecting\u{2026}"@)),
        content matches Content::Topic { detail, .. } ==> (app@.session().topic matches Some(topic)
            && crate::text::starts_with(detail@, decimal(topic.partitions@.len() as int) + " partitions"@) && (
        topic.partitions@.len() > 0 ==> crate::text::ends_with(
            detail@,
            " "@ + decimal(topic.partitions@[0].replicas@.len() as int),
        ))),
{
    if let Content::Topic { detail, .. } = content {
        let topic = app@.session().topic->0;
        reveal_strlit(" partitions, replication ");
        reveal_strlit(" partitions");
        reveal_strlit(" ");
        let first = decimal(topic.partitions@.len() as int) + " partitions"@;
        assert(detail@.take(first.len() as int) =~= first);
        if topic.partitions@.len() > 0 {
            let last = " "@ + decimal(topic.partitions@[0].replicas@.len() as int);
            assert(detail@.skip(detail@.len() - last.len()) =~= last);
        }
    }
}

} // verus!
