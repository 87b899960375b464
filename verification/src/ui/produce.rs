//! The view that sends messages.

use std::sync::Arc;

use vstd::prelude::*;
use vstd::utf8::{decode_utf8, encode_utf8, encode_utf8_decode_utf8, encode_utf8_valid_utf8, valid_utf8};

use crate::kafka::metadata::TopicInfo;
use crate::kafka::produce::{Delivered, ProduceRequest};
use crate::text::{
    a_text_is_found_where_it_stands, contains_text, decimal, decimal_text, ends_with, joined, joined3, option_view, trim,
    trimmed, views,
};
use crate::ui::consumers::{same_topic, topic_name};
use crate::ui::messages::{partition_items, partition_labels};

verus! {

/// What the view holds: a message that is written, and what became of the last one.
pub struct ProduceView {
    /// The connection that messages go to, by a number that no other has.
    pub worker: Option<u64>,
    pub topic: Option<Arc<TopicInfo>>,
    pub key: String,
    pub value: String,
    /// The headers that are written, each a name and a value.
    pub headers: Vec<(String, String)>,
    /// The item of the choice of partitions; the first is for none.
    pub partition: usize,
    pub sending: bool,
    pub last_result: Option<String>,
}

/// The view as values.
pub struct ProduceState {
    pub worker: Option<u64>,
    pub topic: Option<Arc<TopicInfo>>,
    pub key: Seq<char>,
    pub value: Seq<char>,
    pub headers: Seq<(Seq<char>, Seq<char>)>,
    pub partition: usize,
    pub sending: bool,
    pub last_result: Option<Seq<char>>,
}

/// Headers with their strings as characters.
pub open spec fn header_texts(headers: Seq<(String, String)>) -> Seq<(Seq<char>, Seq<char>)> {
    headers.map_values(|h: (String, String)| (h.0@, h.1@))
}

impl View for ProduceView {
    type V = ProduceState;

    open spec fn view(&self) -> ProduceState {
        ProduceState {
            worker: self.worker,
            topic: self.topic,
            key: self.key@,
            value: self.value@,
            headers: header_texts(self.headers@),
            partition: self.partition,
            sending: self.sending,
            last_result: option_view(self.last_result),
        }
    }
}

/// The headers of a request: those that were written with a name.
pub open spec fn named_headers(headers: Seq<(Seq<char>, Seq<char>)>) -> Seq<(Seq<char>, Option<Seq<u8>>)>
    decreases headers.len(),
{
    if headers.len() == 0 {
        Seq::empty()
    } else {
        let before = named_headers(headers.drop_last());
        let (name, value) = headers.last();
        if trim(name).len() == 0 {
            before
        } else {
            before.push((trim(name), Some(encode_utf8(value))))
        }
    }
}

/// The headers of a request as values.
pub open spec fn request_headers(headers: Seq<(String, Option<Vec<u8>>)>) -> Seq<(Seq<char>, Option<Seq<u8>>)> {
    headers.map_values(|h: (String, Option<Vec<u8>>)| (h.0@, vec_view(h.1)))
}

/// Optional bytes as values.
pub open spec fn vec_view(bytes: Option<Vec<u8>>) -> Option<Seq<u8>> {
    match bytes {
        Some(b) => Some(b@),
        None => None,
    }
}

/// The partition that an item of the choice stands for: the first is for none.
pub open spec fn chosen_partition(topic: TopicInfo, item: int) -> Option<i32> {
    if 1 <= item <= topic.partitions@.len() {
        Some(topic.partitions@[item - 1].id)
    } else {
        None
    }
}

/// Whether a request is the message that a view holds, for a topic.
pub open spec fn asks_for(request: ProduceRequest, state: ProduceState, topic: TopicInfo) -> bool {
    &&& request.topic@ == topic.name@
    &&& request.partition == chosen_partition(topic, state.partition as int)
    &&& vec_view(request.key) == (if state.key.len() == 0 {
        None
    } else {
        Some(encode_utf8(state.key))
    })
    &&& vec_view(request.value) == Some(encode_utf8(state.value))
    &&& request_headers(request.headers@) == named_headers(state.headers)
}

/// What became of a message, in words.
pub open spec fn result_text(result: Result<Delivered, Seq<char>>) -> Seq<char> {
    match result {
        Ok(delivered) => "Produced to partition "@ + decimal(delivered.partition as int) + " at offset "@ + decimal(
            delivered.offset as int,
        ),
        Err(reason) => "Produce failed: "@ + reason,
    }
}

fn bytes_of(text: &str) -> (bytes: Vec<u8>)
    ensures
        bytes@ == encode_utf8(text@),
{
    vstd::slice::slice_to_vec(text.as_bytes())
}

impl ProduceView {
    pub fn new() -> (view: Self)
        ensures
            view@ == (ProduceState {
                worker: None,
                topic: None,
                key: Seq::empty(),
                value: Seq::empty(),
                headers: Seq::empty(),
                partition: 0,
                sending: false,
                last_result: None,
            }),
    {
        let key = String::new();
        let value = String::new();
        let headers: Vec<(String, String)> = Vec::new();
        assert(key@ =~= Seq::empty());
        assert(value@ =~= Seq::empty());
        assert(header_texts(headers@) =~= Seq::empty());
        ProduceView {
            worker: None,
            topic: None,
            key,
            value,
            headers,
            partition: 0,
            sending: false,
            last_result: None,
        }
    }

    /// Shows a topic. Another one brings its partitions to choose from, and nothing is
    /// said about the last message.
    pub fn set_topic(&mut self, worker: Option<u64>, topic: Option<Arc<TopicInfo>>) -> (items: Option<Vec<String>>)
        ensures
            if topic_name(old(self)@.topic) == topic_name(topic) {
                items is None && final(self)@ == (ProduceState { worker, topic, ..old(self)@ })
            } else {
                &&& items matches Some(labels) && views(labels@) == partition_items("Auto"@, topic)
                &&& final(self)@ == (ProduceState { worker, topic, partition: 0, last_result: None, ..old(self)@ })
            },
    {
        let same: bool = same_topic(&self.topic, &topic);
        self.worker = worker;
        self.topic = topic;
        if same {
            return None;
        }
        let labels = partition_labels("Auto", &self.topic);
        self.partition = 0;
        self.last_result = None;
        Some(labels)
    }

    /// Adds an empty header.
    pub fn add_header(&mut self)
        ensures
            final(self)@ == (ProduceState {
                headers: old(self)@.headers.push((Seq::empty(), Seq::empty())),
                ..old(self)@
            }),
    {
        let name = String::new();
        let value = String::new();
        assert(name@ =~= Seq::empty());
        assert(value@ =~= Seq::empty());
        let ghost before = self.headers@;
        self.headers.push((name, value));
        assert(header_texts(self.headers@) =~= header_texts(before).push((Seq::empty(), Seq::empty())));
    }

    /// Removes a header, where there is one at the place.
    pub fn remove_header(&mut self, place: usize)
        ensures
            final(self)@ == (ProduceState {
                headers: if place < old(self)@.headers.len() {
                    old(self)@.headers.remove(place as int)
                } else {
                    old(self)@.headers
                },
                ..old(self)@
            }),
    {
        if place < self.headers.len() {
            let ghost before = self.headers@;
            self.headers.remove(place);
            assert(header_texts(self.headers@) =~= header_texts(before).remove(place as int));
        }
    }

    /// The message that the view holds, where there is a topic for it.
    pub fn build_request(&self) -> (request: Option<ProduceRequest>)
        ensures
            match request {
                Some(r) => self@.topic is Some && asks_for(r, self@, *self@.topic->0),
                None => self@.topic is None,
            },
    {
        match &self.topic {
            None => None,
            Some(topic) => {
                let partition: Option<i32> = if self.partition >= 1 && self.partition <= topic.partitions.len() {
                    Some(topic.partitions[self.partition - 1].id)
                } else {
                    None
                };
                let key: Option<Vec<u8>> = if self.key.as_str().is_empty() {
                    None
                } else {
                    Some(bytes_of(&self.key))
                };
                let ghost all = header_texts(self.headers@);
                let mut headers: Vec<(String, Option<Vec<u8>>)> = Vec::new();
                let mut i: usize = 0;
                assert(all.take(0) =~= Seq::empty());
                assert(request_headers(headers@) =~= Seq::empty());
                while i < self.headers.len()
                    invariant
                        i <= self.headers@.len(),
                        all == header_texts(self.headers@),
                        request_headers(headers@) == named_headers(all.take(i as int)),
                    decreases self.headers.len() - i,
                {
                    let ghost before = headers@;
                    assert(all.take(i + 1).drop_last() =~= all.take(i as int));
                    assert(all.take(i + 1).last() == all[i as int]);
                    let name = trimmed(&self.headers[i].0);
                    if !name.as_str().is_empty() {
                        let value = bytes_of(&self.headers[i].1);
                        let ghost entry = (name@, Some(value@));
                        headers.push((name, Some(value)));
                        assert(request_headers(headers@) =~= request_headers(before).push(entry));
                    }
                    i = i + 1;
                }
                assert(all.take(i as int) =~= all);
                Some(
                    ProduceRequest {
                        topic: topic.name.clone(),
                        partition,
                        key,
                        value: Some(bytes_of(&self.value)),
                        headers,
                    },
                )
            },
        }
    }

    /// Sends the message that the view holds, where there is a connection and a topic.
    pub fn send(&mut self) -> (order: Option<(u64, ProduceRequest)>)
        ensures
            match order {
                Some((worker, request)) => {
                    &&& old(self)@.worker == Some(worker)
                    &&& old(self)@.topic is Some && asks_for(request, old(self)@, *old(self)@.topic->0)
                    &&& final(self)@ == (ProduceState { sending: true, last_result: None, ..old(self)@ })
                },
                None => {
                    &&& old(self)@.worker is None || old(self)@.topic is None
                    &&& final(self)@ == old(self)@
                },
            },
    {
        match (self.worker, self.build_request()) {
            (Some(worker), Some(request)) => {
                self.sending = true;
                self.last_result = None;
                Some((worker, request))
            },
            _ => None,
        }
    }

    /// Writes a message to try the connection with, and sends it.
    pub fn send_test_message(&mut self) -> (order: Option<(u64, ProduceRequest)>)
        ensures
            ({
                let written = ProduceState {
                    key: "kafkamitter"@,
                    value: "{\"source\":\"kafkamitter\",\"hello\":true}"@,
                    ..old(self)@
                };
                match order {
                    Some((worker, request)) => {
                        &&& written.worker == Some(worker)
                        &&& written.topic is Some && asks_for(request, written, *written.topic->0)
                        &&& final(self)@ == (ProduceState { sending: true, last_result: None, ..written })
                    },
                    None => (written.worker is None || written.topic is None) && final(self)@ == written,
                }
            }),
    {
        self.key = "kafkamitter".to_owned();
        self.value = "{\"source\":\"kafkamitter\",\"hello\":true}".to_owned();
        self.send()
    }

    /// Notes what became of the message that was sent, and says it.
    pub fn on_sent(&mut self, result: Result<Delivered, String>) -> (message: String)
        ensures
            message@ == result_text(
                match result {
                    Ok(delivered) => Ok(delivered),
                    Err(reason) => Err(reason@),
                },
            ),
            final(self)@ == (ProduceState { sending: false, last_result: Some(message@), ..old(self)@ }),
    {
        self.sending = false;
        let message: String = match result {
            Ok(delivered) => joined(
                &joined3("Produced to partition ", &decimal_text(delivered.partition as i128), " at offset "),
                &decimal_text(delivered.offset as i128),
            ),
            Err(reason) => joined("Produce failed: ", &reason),
        };
        self.last_result = Some(message.clone());
        message
    }
}

// ---- laws ----

/// The headers of a request are those of one part of the form, and behind them those of the
/// rest.
pub proof fn headers_are_sent_in_order(
    first: Seq<(Seq<char>, Seq<char>)>,
    second: Seq<(Seq<char>, Seq<char>)>,
)
    ensures
        named_headers(first + second) == named_headers(first) + named_headers(second),
    decreases second.len(),
{
    if second.len() == 0 {
        assert(first + second =~= first);
        assert(named_headers(first) + named_headers(second) =~= named_headers(first));
    } else {
        headers_are_sent_in_order(first, second.drop_last());
        assert((first + second).drop_last() =~= first + second.drop_last());
        assert(named_headers(first + second) =~= named_headers(first) + named_headers(second));
    }
}

/// A header is sent where its name is more than white space, and only there. It is sent under
/// its trimmed name, with bytes that spell the value.
pub proof fn a_header_is_sent_under_its_name(name: Seq<char>, value: Seq<char>)
    ensures
        named_headers(seq![(name, value)]).len() == (if trim(name).len() > 0 {
            1int
        } else {
            0
        }),
        trim(name).len() > 0 ==> {
            let sent = named_headers(seq![(name, value)])[0];
            &&& sent.0 == trim(name)
            &&& sent.1 matches Some(bytes) && valid_utf8(bytes) && decode_utf8(bytes) == value
        },
{
    let one = seq![(name, value)];
    assert(one.drop_last() =~= Seq::empty());
    assert(named_headers(one.drop_last()) =~= Seq::empty());
    encode_utf8_valid_utf8(value);
    encode_utf8_decode_utf8(value);
}

/// Where each header has a name, each is sent, at its own place.
pub proof fn named_headers_are_all_sent(headers: Seq<(Seq<char>, Seq<char>)>)
    requires
        forall|k: int| 0 <= k < headers.len() ==> trim((#[trigger] headers[k]).0).len() > 0,
    ensures
        named_headers(headers).len() == headers.len(),
        forall|k: int|
            0 <= k < headers.len() ==> {
                let sent = #[trigger] named_headers(headers)[k];
                &&& sent.0 == trim(headers[k].0)
                &&& sent.1 matches Some(bytes) && valid_utf8(bytes) && decode_utf8(bytes) == headers[k].1
            },
    decreases headers.len(),
{
    if headers.len() > 0 {
        let rest = headers.drop_last();
        let (name, value) = headers.last();
        assert(trim(headers[headers.len() - 1].0).len() > 0);
        assert forall|k: int| 0 <= k < rest.len() implies trim((#[trigger] rest[k]).0).len() > 0 by {
            assert(rest[k] == headers[k]);
        }
        named_headers_are_all_sent(rest);
        encode_utf8_valid_utf8(value);
        encode_utf8_decode_utf8(value);
        assert forall|k: int| 0 <= k < headers.len() implies {
            let sent = #[trigger] named_headers(headers)[k];
            &&& sent.0 == trim(headers[k].0)
            &&& sent.1 matches Some(bytes) && valid_utf8(bytes) && decode_utf8(bytes) == headers[k].1
        } by {
            if k < rest.len() {
                assert(named_headers(headers)[k] == named_headers(rest)[k]);
                assert(rest[k] == headers[k]);
            }
        }
    }
}

/// What is sent spells what was written: the value always, and the key where one was
/// written; without one the message has none. It goes to the topic that is shown.
pub proof fn a_request_spells_what_was_written(request: ProduceRequest, state: ProduceState, topic: Arc<TopicInfo>)
    requires
        asks_for(request, state, *topic),
    ensures
        request.topic@ == topic.name@,
        vec_view(request.value) matches Some(bytes) && valid_utf8(bytes) && decode_utf8(bytes) == state.value,
        vec_view(request.key) is None <==> state.key.len() == 0,
        vec_view(request.key) matches Some(bytes) ==> valid_utf8(bytes) && decode_utf8(bytes) == state.key,
{
    encode_utf8_valid_utf8(state.value);
    encode_utf8_decode_utf8(state.value);
    encode_utf8_valid_utf8(state.key);
    encode_utf8_decode_utf8(state.key);
}

/// A message goes to the partition that the chosen item names, and to none in particular
/// where the first item is chosen.
pub proof fn the_chosen_item_names_the_partition(
    request: ProduceRequest,
    state: ProduceState,
    topic: Arc<TopicInfo>,
    all: Seq<char>,
)
    requires
        asks_for(request, state, *topic),
    ensures
        state.partition == 0 ==> request.partition is None,
        0 < state.partition < partition_items(all, Some(topic)).len() ==> (request.partition matches Some(id)
            && partition_items(all, Some(topic))[state.partition as int] == "Partition "@ + decimal(id as int)),
        partition_items(all, Some(topic))[0] == all,
        partition_items(all, Some(topic)).len() == topic.partitions@.len() + 1,
{
}

/// The message that a form builds: the topic that is shown, the key and the value that were
/// written, and every header with a name, at its place where all have one.
pub proof fn a_built_request_spells_the_form(view: &ProduceView, request: Option<ProduceRequest>)
    requires
        call_ensures(ProduceView::build_request, (view,), request),
    ensures
        request is Some <==> view@.topic is Some,
        request matches Some(r) ==> {
            &&& r.topic@ == view@.topic->0.name@
            &&& vec_view(r.value) matches Some(bytes) && valid_utf8(bytes) && decode_utf8(bytes) == view@.value
            &&& vec_view(r.key) is None <==> view@.key.len() == 0
            &&& vec_view(r.key) matches Some(bytes) ==> decode_utf8(bytes) == view@.key
            &&& r.headers@.len() <= view@.headers.len()
            &&& (forall|k: int| 0 <= k < view@.headers.len() ==> trim((#[trigger] view@.headers[k]).0).len() > 0) ==> {
                &&& r.headers@.len() == view@.headers.len()
                &&& forall|k: int|
                    0 <= k < view@.headers.len() ==> (#[trigger] r.headers@[k]).0@ == trim(view@.headers[k].0) && (
                    vec_view(r.headers@[k].1) matches Some(bytes) && decode_utf8(bytes) == view@.headers[k].1)
            }
        },
{
    if request is Some {
        let r = request->0;
        let headers = view@.headers;
        a_request_spells_what_was_written(r, view@, view@.topic->0);
        headers_are_no_more_than_written(headers);
        assert(request_headers(r.headers@).len() == r.headers@.len());
        if forall|k: int| 0 <= k < headers.len() ==> trim((#[trigger] headers[k]).0).len() > 0 {
            named_headers_are_all_sent(headers);
            assert forall|k: int| 0 <= k < headers.len() implies (#[trigger] r.headers@[k]).0@ == trim(headers[k].0) && (
            vec_view(r.headers@[k].1) matches Some(bytes) && decode_utf8(bytes) == headers[k].1) by {
                assert(request_headers(r.headers@)[k] == named_headers(headers)[k]);
            }
        }
    }
}

proof fn headers_are_no_more_than_written(headers: Seq<(Seq<char>, Seq<char>)>)
    ensures
        named_headers(headers).len() <= headers.len(),
    decreases headers.len(),
{
    if headers.len() > 0 {
        headers_are_no_more_than_written(headers.drop_last());
    }
}

/// A message is sent through the connection that is shown, and exactly where there is one and
/// a topic; until its answer comes, the view says that it is being sent.
pub proof fn a_message_is_sent_where_it_can_be(view: &mut ProduceView, order: Option<(u64, ProduceRequest)>)
    requires
        call_ensures(ProduceView::send, (view,), order),
    ensures
        order is Some <==> old(view)@.worker is Some && old(view)@.topic is Some,
        order matches Some((worker, request)) ==> {
            &&& Some(worker) == old(view)@.worker
            &&& request.topic@ == old(view)@.topic->0.name@
            &&& vec_view(request.value) matches Some(bytes) && decode_utf8(bytes) == old(view)@.value
            &&& final(view)@.sending
            &&& final(view)@.last_result is None
        },
        final(view)@.headers == old(view)@.headers && final(view)@.key == old(view)@.key && final(view)@.value == old(view)@.value,
{
    if order is Some {
        a_request_spells_what_was_written((order->0).1, old(view)@, old(view)@.topic->0);
    }
}

/// What is said of a message names the partition and the offset that it got, or the reason
/// why it got none.
pub proof fn a_result_names_the_place_or_the_reason(delivered: Delivered, reason: Seq<char>)
    ensures
        contains_text(result_text(Ok(delivered)), "partition "@ + decimal(delivered.partition as int) + " "@),
        ends_with(result_text(Ok(delivered)), " offset "@ + decimal(delivered.offset as int)),
        ends_with(result_text(Err(reason)), reason),
        result_text(Err(reason)).len() > reason.len(),
{
    reveal_strlit("Produced to partition ");
    reveal_strlit("partition ");
    reveal_strlit(" ");
    reveal_strlit(" at offset ");
    reveal_strlit(" offset ");
    reveal_strlit("Produce failed: ");
    reveal_strlit("Produced to ");
    reveal_strlit("at offset ");
    let p = decimal(delivered.partition as int);
    let o = decimal(delivered.offset as int);
    let all = result_text(Ok(delivered));
    let part = "partition "@ + p + " "@;
    assert(all =~= "Produced to "@ + part + ("at offset "@ + o));
    a_text_is_found_where_it_stands("Produced to "@, part, "at offset "@ + o, all);
    assert(all.skip(all.len() - (" offset "@ + o).len()) =~= " offset "@ + o);
    let failed = result_text(Err(reason));
    assert(failed.skip(failed.len() - reason.len()) =~= reason);
}

/// A header that was added is the last, and empty; taking it out again leaves the form as it
/// was.
pub proof fn an_added_header_can_be_taken_out(view: &mut ProduceView, later: &mut ProduceView, place: usize)
    requires
        call_ensures(ProduceView::add_header, (view,), ()),
        *old(later) == *final(view),
        place == old(view)@.headers.len(),
        call_ensures(ProduceView::remove_header, (later, place), ()),
    ensures
        final(view)@.headers.len() == old(view)@.headers.len() + 1,
        final(view)@.headers.last().0.len() == 0 && final(view)@.headers.last().1.len() == 0,
        final(later)@ == old(view)@,
{
    assert(final(later)@.headers =~= old(view)@.headers);
}

/// What became of a message is said and kept, and it is no longer being sent.
pub proof fn what_became_of_a_message_is_kept(
    view: &mut ProduceView,
    result: Result<Delivered, String>,
    message: String,
)
    requires
        call_ensures(ProduceView::on_sent, (view, result), message),
    ensures
        !final(view)@.sending,
        final(view)@.last_result == Some(message@),
        result matches Err(reason) ==> ends_with(message@, reason@),
        result matches Ok(delivered) ==> ends_with(message@, " offset "@ + decimal(delivered.offset as int)),
{
    match result {
        Ok(delivered) => {
            a_result_names_the_place_or_the_reason(delivered, Seq::empty());
        },
        Err(reason) => {
            a_result_names_the_place_or_the_reason(Delivered { partition: 0, offset: 0 }, reason@);
        },
    }
}

/// A test message is sent as one that was written is, where it can be, to the shown topic.
pub proof fn a_test_message_is_sent_to_the_shown_topic(view: &mut ProduceView, order: Option<(u64, ProduceRequest)>)
    requires
        call_ensures(ProduceView::send_test_message, (view,), order),
    ensures
        order is Some <==> old(view)@.worker is Some && old(view)@.topic is Some,
        order matches Some((worker, request)) ==> old(view)@.worker == Some(worker) && request.topic@
            == old(view)@.topic->0.name@ && final(view)@.sending,
        final(view)@.topic == old(view)@.topic && final(view)@.worker == old(view)@.worker && final(view)@.headers
            == old(view)@.headers,
        final(view)@.key.len() > 0 && final(view)@.value.len() > 0,
{
    reveal_strlit("kafkamitter");
    reveal_strlit("{\"source\":\"kafkamitter\",\"hello\":true}");
}

} // verus!
