//! The partitions that a group's leader gave to a member, as Kafka's consumer
//! protocol encodes them.

use vstd::prelude::*;
use vstd::utf8::{decode_utf8, encode_utf8, encode_utf8_decode_utf8, encode_utf8_valid_utf8, valid_utf8};

use crate::text::{decimal, decimal_text, joined3, utf8_text};
use crate::wire::{
    be16, be32, bytes16, bytes16_are_read_back, bytes32, bytes32_are_read_back, signed16, signed32, stands_at,
    stands_in_parts, Reader,
};

verus! {

#[derive(Debug, PartialEq, Eq)]
pub struct TopicAssignment {
    pub topic: String,
    pub partitions: Vec<i32>,
}

/// A topic's partitions with the name as characters.
pub struct AssignmentView {
    pub topic: Seq<char>,
    pub partitions: Seq<i32>,
}

impl View for TopicAssignment {
    type V = AssignmentView;

    open spec fn view(&self) -> AssignmentView {
        AssignmentView { topic: self.topic@, partitions: self.partitions@ }
    }
}

pub open spec fn assignment_views(list: Seq<TopicAssignment>) -> Seq<AssignmentView> {
    list.map_values(|a: TopicAssignment| a@)
}

#[derive(Debug, Clone, Copy, PartialEq, Eq, Structural)]
pub enum DecodeError {
    Truncated,
    NegativeLength,
    InvalidUtf8,
    UnsupportedVersion(i16),
}

/// What an error says.
pub open spec fn error_text(error: DecodeError) -> Seq<char> {
    match error {
        DecodeError::Truncated => "assignment bytes are truncated"@,
        DecodeError::NegativeLength => "assignment contains a negative length"@,
        DecodeError::InvalidUtf8 => "assignment topic name is not UTF-8"@,
        DecodeError::UnsupportedVersion(v) => "assignment version "@ + decimal(v as int) + " is not supported"@,
    }
}

impl DecodeError {
    /// The error in words.
    pub fn message(&self) -> (text: String)
        ensures
            text@ == error_text(*self),
    {
        match self {
            DecodeError::Truncated => "assignment bytes are truncated".to_owned(),
            DecodeError::NegativeLength => "assignment contains a negative length".to_owned(),
            DecodeError::InvalidUtf8 => "assignment topic name is not UTF-8".to_owned(),
            DecodeError::UnsupportedVersion(v) => {
                joined3("assignment version ", &decimal_text(*v as i128), " is not supported")
            },
        }
    }
}

/// The partitions at a place: a row of numbers with signs.
pub open spec fn partitions_at(b: Seq<u8>, i: int, count: int) -> Seq<i32> {
    Seq::new(count as nat, |k: int| signed32(be32(b, i + 4 * k)) as i32)
}

/// The topic at a place, and the place behind it: the name with its length, and the
/// partitions with their number.
pub open spec fn topic_at(b: Seq<u8>, i: int) -> Result<(AssignmentView, int), DecodeError> {
    let size = signed16(be16(b, i));
    let names = i + 2 + size;
    let count = signed32(be32(b, names));
    if i + 2 > b.len() {
        Err(DecodeError::Truncated)
    } else if size < 0 {
        Err(DecodeError::NegativeLength)
    } else if names > b.len() {
        Err(DecodeError::Truncated)
    } else if !valid_utf8(b.subrange(i + 2, names)) {
        Err(DecodeError::InvalidUtf8)
    } else if names + 4 > b.len() {
        Err(DecodeError::Truncated)
    } else if count < 0 {
        Err(DecodeError::NegativeLength)
    } else if names + 4 + 4 * count > b.len() {
        Err(DecodeError::Truncated)
    } else {
        Ok(
            (
                AssignmentView {
                    topic: decode_utf8(b.subrange(i + 2, names)),
                    partitions: partitions_at(b, names + 4, count),
                },
                names + 4 + 4 * count,
            ),
        )
    }
}

/// A number of topics from a place on, and the place behind them.
pub open spec fn topics_at(b: Seq<u8>, i: int, count: int) -> Result<(Seq<AssignmentView>, int), DecodeError>
    decreases count,
{
    if count <= 0 {
        Ok((Seq::empty(), i))
    } else {
        match topic_at(b, i) {
            Err(error) => Err(error),
            Ok((topic, next)) => match topics_at(b, next, count - 1) {
                Err(error) => Err(error),
                Ok((rest, end)) => Ok((seq![topic] + rest, end)),
            },
        }
    }
}

/// An assignment, and the place behind it. What follows it is the member's own.
pub open spec fn assignment_at_start(b: Seq<u8>) -> Result<(Seq<AssignmentView>, int), DecodeError> {
    let version = signed16(be16(b, 0));
    let count = signed32(be32(b, 2));
    if b.len() < 2 {
        Err(DecodeError::Truncated)
    } else if version < 0 {
        Err(DecodeError::UnsupportedVersion(version as i16))
    } else if b.len() < 6 {
        Err(DecodeError::Truncated)
    } else if count < 0 {
        Err(DecodeError::NegativeLength)
    } else {
        topics_at(b, 6, count)
    }
}

/// What bytes decode to.
pub open spec fn decoded(b: Seq<u8>) -> Result<Seq<AssignmentView>, DecodeError> {
    match assignment_at_start(b) {
        Ok((topics, _)) => Ok(topics),
        Err(error) => Err(error),
    }
}

/// A result with topics in front of it.
spec fn behind(
    first: Seq<AssignmentView>,
    rest: Result<(Seq<AssignmentView>, int), DecodeError>,
) -> Result<(Seq<AssignmentView>, int), DecodeError> {
    match rest {
        Ok((topics, end)) => Ok((first + topics, end)),
        Err(error) => Err(error),
    }
}

/// One topic, read at a place.
fn read_topic<'a>(r: &mut Reader<'a>) -> (topic: Result<TopicAssignment, DecodeError>)
    requires
        old(r).wf(),
    ensures
        final(r).wf(),
        final(r).bytes == old(r).bytes,
        match topic {
            Ok(t) => topic_at(old(r).bytes@, old(r).pos as int) == Ok::<_, DecodeError>((t@, final(r).pos as int)),
            Err(error) => topic_at(old(r).bytes@, old(r).pos as int) == Err::<(AssignmentView, int), _>(error),
        },
{
    let ghost b = r.bytes@;
    let ghost i = r.pos as int;
    let size: i16 = match r.i16() {
        Some(n) => n,
        None => {
            return Err(DecodeError::Truncated);
        },
    };
    if size < 0 {
        return Err(DecodeError::NegativeLength);
    }
    let raw: Vec<u8> = match r.take(size as usize) {
        Some(block) => vstd::slice::slice_to_vec(block),
        None => {
            return Err(DecodeError::Truncated);
        },
    };
    let topic: String = match utf8_text(raw) {
        Some(text) => text,
        None => {
            return Err(DecodeError::InvalidUtf8);
        },
    };
    let count: i32 = match r.i32() {
        Some(n) => n,
        None => {
            return Err(DecodeError::Truncated);
        },
    };
    if count < 0 {
        return Err(DecodeError::NegativeLength);
    }
    let mut partitions: Vec<i32> = Vec::new();
    let mut k: i32 = 0;
    let ghost start = r.pos as int;
    while k < count
        invariant
            0 <= k <= count,
            r.wf(),
            r.bytes == old(r).bytes,
            b == r.bytes@,
            i == old(r).pos,
            r.pos == start + 4 * k,
            partitions@ == partitions_at(b, start, k as int),
            start + 4 * count > b.len() ==> topic_at(b, i) == Err::<(AssignmentView, int), _>(DecodeError::Truncated),
        decreases count - k,
    {
        match r.i32() {
            Some(p) => {
                assert(partitions_at(b, start, k + 1) =~= partitions@.push(p));
                partitions.push(p);
            },
            None => {
                return Err(DecodeError::Truncated);
            },
        }
        k = k + 1;
    }
    Ok(TopicAssignment { topic, partitions })
}

/// Reads an assignment. What follows the topics is not looked at.
pub fn decode_assignment(bytes: &[u8]) -> (topics: Result<Vec<TopicAssignment>, DecodeError>)
    ensures
        match topics {
            Ok(list) => decoded(bytes@) == Ok::<_, DecodeError>(assignment_views(list@)),
            Err(error) => decoded(bytes@) == Err::<Seq<AssignmentView>, _>(error),
        },
{
    let mut r = Reader { bytes, pos: 0 };
    let version: i16 = match r.i16() {
        Some(v) => v,
        None => {
            return Err(DecodeError::Truncated);
        },
    };
    if version < 0 {
        return Err(DecodeError::UnsupportedVersion(version));
    }
    let count: i32 = match r.i32() {
        Some(n) => n,
        None => {
            return Err(DecodeError::Truncated);
        },
    };
    if count < 0 {
        return Err(DecodeError::NegativeLength);
    }
    let ghost whole = topics_at(bytes@, 6, count as int);
    let mut out: Vec<TopicAssignment> = Vec::new();
    let mut k: i32 = 0;
    proof {
        assert(assignment_views(out@) =~= Seq::empty());
        if whole is Ok {
            assert(Seq::<AssignmentView>::empty() + whole->Ok_0.0 =~= whole->Ok_0.0);
        }
    }
    while k < count
        invariant
            0 <= k <= count,
            r.wf(),
            r.bytes@ == bytes@,
            assignment_at_start(bytes@) == whole,
            behind(assignment_views(out@), topics_at(bytes@, r.pos as int, count - k)) == whole,
        decreases count - k,
    {
        let ghost before = out@;
        let ghost from = r.pos as int;
        match read_topic(&mut r) {
            Ok(topic) => {
                out.push(topic);
                proof {
                    let rest = topics_at(bytes@, r.pos as int, count - k - 1);
                    assert(assignment_views(out@) =~= assignment_views(before).push(topic@));
                    if rest is Ok {
                        assert(assignment_views(before) + (seq![topic@] + rest->Ok_0.0)
                            =~= assignment_views(out@) + rest->Ok_0.0);
                    }
                }
            },
            Err(error) => {
                return Err(error);
            },
        }
        k = k + 1;
    }
    assert(assignment_views(out@) + Seq::empty() =~= assignment_views(out@));
    Ok(out)
}

// ---- laws ----

/// Partitions one after the other, each in four bytes.
pub open spec fn encoded_partitions(partitions: Seq<i32>) -> Seq<u8>
    decreases partitions.len(),
{
    if partitions.len() == 0 {
        Seq::empty()
    } else {
        encoded_partitions(partitions.drop_last()) + bytes32(unsigned32(partitions.last() as int))
    }
}

/// A number with a sign as a four-byte number without one.
pub open spec fn unsigned32(n: int) -> int {
    if n < 0 {
        n + 0x1_0000_0000
    } else {
        n
    }
}

pub open spec fn encoded_topic(topic: AssignmentView) -> Seq<u8> {
    bytes16(encode_utf8(topic.topic).len() as int) + encode_utf8(topic.topic) + bytes32(topic.partitions.len() as int)
        + encoded_partitions(topic.partitions)
}

pub open spec fn encoded_topics(topics: Seq<AssignmentView>) -> Seq<u8>
    decreases topics.len(),
{
    if topics.len() == 0 {
        Seq::empty()
    } else {
        encoded_topic(topics[0]) + encoded_topics(topics.skip(1))
    }
}

/// An assignment in the consumer protocol, without the member's own data.
pub open spec fn encoded(version: int, topics: Seq<AssignmentView>) -> Seq<u8> {
    bytes16(version) + bytes32(topics.len() as int) + encoded_topics(topics)
}

/// Whether the lengths of a topic fit the encoding.
pub open spec fn topic_fits(topic: AssignmentView) -> bool {
    encode_utf8(topic.topic).len() < 0x8000 && topic.partitions.len() < 0x8000_0000
}

proof fn partitions_are_read_back(b: Seq<u8>, i: int, partitions: Seq<i32>)
    requires
        stands_at(b, i, encoded_partitions(partitions)),
    ensures
        encoded_partitions(partitions).len() == 4 * partitions.len(),
        partitions_at(b, i, partitions.len() as int) == partitions,
    decreases partitions.len(),
{
    if partitions.len() > 0 {
        let first = partitions.drop_last();
        let last = partitions.last();
        stands_in_parts(b, i, encoded_partitions(first), bytes32(unsigned32(last as int)));
        partitions_are_read_back(b, i, first);
        bytes32_are_read_back(b, i + 4 * first.len(), unsigned32(last as int));
        assert(partitions_at(b, i, partitions.len() as int).drop_last() =~= partitions_at(b, i, first.len() as int));
        assert(partitions_at(b, i, partitions.len() as int) =~= partitions) by {
            assert forall|k: int| 0 <= k < partitions.len() implies
                #[trigger] partitions_at(b, i, partitions.len() as int)[k] == partitions[k] by {
                if k < first.len() {
                    assert(partitions_at(b, i, first.len() as int)[k] == first[k]);
                }
            }
        }
    } else {
        assert(partitions_at(b, i, 0) =~= partitions);
    }
}

proof fn a_topic_is_read_back(b: Seq<u8>, i: int, topic: AssignmentView)
    requires
        stands_at(b, i, encoded_topic(topic)),
        topic_fits(topic),
    ensures
        topic_at(b, i) == Ok::<_, DecodeError>((topic, i + encoded_topic(topic).len())),
{
    let name = encode_utf8(topic.topic);
    let size = bytes16(name.len() as int);
    let count = bytes32(topic.partitions.len() as int);
    let parts = encoded_partitions(topic.partitions);
    stands_in_parts(b, i, size + name + count, parts);
    stands_in_parts(b, i, size + name, count);
    stands_in_parts(b, i, size, name);
    bytes16_are_read_back(b, i, name.len() as int);
    bytes32_are_read_back(b, i + 2 + name.len(), topic.partitions.len() as int);
    partitions_are_read_back(b, i + 2 + name.len() + 4, topic.partitions);
    encode_utf8_valid_utf8(topic.topic);
    encode_utf8_decode_utf8(topic.topic);
    assert(b.subrange(i + 2, i + 2 + name.len()) == name);
}

proof fn topics_are_read_back(b: Seq<u8>, i: int, topics: Seq<AssignmentView>)
    requires
        stands_at(b, i, encoded_topics(topics)),
        forall|k: int| 0 <= k < topics.len() ==> topic_fits(#[trigger] topics[k]),
    ensures
        topics_at(b, i, topics.len() as int) == Ok::<_, DecodeError>((topics, i + encoded_topics(topics).len())),
    decreases topics.len(),
{
    if topics.len() > 0 {
        let rest = topics.skip(1);
        stands_in_parts(b, i, encoded_topic(topics[0]), encoded_topics(rest));
        a_topic_is_read_back(b, i, topics[0]);
        assert forall|k: int| 0 <= k < rest.len() implies topic_fits(#[trigger] rest[k]) by {
            assert(rest[k] == topics[k + 1]);
        }
        topics_are_read_back(b, i + encoded_topic(topics[0]).len(), rest);
        assert(seq![topics[0]] + rest =~= topics);
    } else {
        assert(topics =~= Seq::empty());
    }
}

/// Decoding gives back what was encoded, whatever the member's own data behind it.
pub proof fn decoding_reverses_encoding(version: int, topics: Seq<AssignmentView>, user_data: Seq<u8>)
    requires
        0 <= version < 0x8000,
        topics.len() < 0x8000_0000,
        forall|k: int| 0 <= k < topics.len() ==> topic_fits(#[trigger] topics[k]),
    ensures
        decoded(encoded(version, topics) + user_data) == Ok::<_, DecodeError>(topics),
        assignment_at_start(encoded(version, topics) + user_data) == Ok::<_, DecodeError>(
            (topics, encoded(version, topics).len() as int),
        ),
{
    let b = encoded(version, topics) + user_data;
    assert(b.subrange(0, encoded(version, topics).len() as int) =~= encoded(version, topics));
    assert(stands_at(b, 0, encoded(version, topics)));
    stands_in_parts(b, 0, bytes16(version) + bytes32(topics.len() as int), encoded_topics(topics));
    stands_in_parts(b, 0, bytes16(version), bytes32(topics.len() as int));
    bytes16_are_read_back(b, 0, version);
    bytes32_are_read_back(b, 2, topics.len() as int);
    topics_are_read_back(b, 6, topics);
}

proof fn numbers_stay_in_a_cut(b: Seq<u8>, cut: int, i: int)
    requires
        0 <= i,
        0 <= cut <= b.len(),
    ensures
        i + 2 <= cut ==> be16(b.take(cut), i) == be16(b, i),
        i + 4 <= cut ==> be32(b.take(cut), i) == be32(b, i),
{
}

proof fn topic_at_is_inside(b: Seq<u8>, i: int)
    requires
        0 <= i,
    ensures
        topic_at(b, i) matches Ok((_, next)) ==> i < next <= b.len(),
{
}

proof fn topics_at_is_inside(b: Seq<u8>, i: int, count: int)
    requires
        0 <= i <= b.len(),
    ensures
        topics_at(b, i, count) matches Ok((_, end)) ==> i <= end <= b.len(),
    decreases count,
{
    if count > 0 {
        topic_at_is_inside(b, i);
        if topic_at(b, i) is Ok {
            topics_at_is_inside(b, topic_at(b, i)->Ok_0.1, count - 1);
        }
    }
}

proof fn a_cut_topic_is_noticed(b: Seq<u8>, i: int, cut: int)
    requires
        0 <= i <= cut <= b.len(),
        topic_at(b, i) is Ok,
    ensures
        ({
            let next = topic_at(b, i)->Ok_0.1;
            if next <= cut {
                topic_at(b.take(cut), i) == topic_at(b, i)
            } else {
                topic_at(b.take(cut), i) == Err::<(AssignmentView, int), _>(DecodeError::Truncated)
            }
        }),
{
    let c = b.take(cut);
    let names = i + 2 + signed16(be16(b, i));
    numbers_stay_in_a_cut(b, cut, i);
    numbers_stay_in_a_cut(b, cut, names);
    if i + 2 <= cut && names <= cut {
        assert(c.subrange(i + 2, names) =~= b.subrange(i + 2, names));
        let count = signed32(be32(b, names));
        if names + 4 + 4 * count <= cut {
            assert(partitions_at(c, names + 4, count) =~= partitions_at(b, names + 4, count)) by {
                assert forall|k: int| 0 <= k < count implies
                    #[trigger] partitions_at(c, names + 4, count)[k] == partitions_at(b, names + 4, count)[k] by {
                    numbers_stay_in_a_cut(b, cut, names + 4 + 4 * k);
                }
            }
        }
    }
}

proof fn cut_topics_are_noticed(b: Seq<u8>, i: int, count: int, cut: int)
    requires
        0 <= i <= cut <= b.len(),
        topics_at(b, i, count) is Ok,
        cut < topics_at(b, i, count)->Ok_0.1,
    ensures
        topics_at(b.take(cut), i, count) == Err::<(Seq<AssignmentView>, int), _>(DecodeError::Truncated),
    decreases count,
{
    if count > 0 {
        a_cut_topic_is_noticed(b, i, cut);
        topic_at_is_inside(b, i);
        let next = topic_at(b, i)->Ok_0.1;
        if next <= cut {
            cut_topics_are_noticed(b, next, count - 1, cut);
        }
    }
}

/// An assignment that is cut short is reported as such, wherever it is cut.
pub proof fn a_cut_assignment_is_noticed(b: Seq<u8>, cut: int)
    requires
        assignment_at_start(b) is Ok,
        0 <= cut < assignment_at_start(b)->Ok_0.1,
    ensures
        decoded(b.take(cut)) == Err::<Seq<AssignmentView>, _>(DecodeError::Truncated),
{
    topics_at_is_inside(b, 6, signed32(be32(b, 2)));
    numbers_stay_in_a_cut(b, cut, 0);
    numbers_stay_in_a_cut(b, cut, 2);
    if cut >= 6 {
        cut_topics_are_noticed(b, 6, signed32(be32(b, 2)), cut);
    }
}

/// What stands behind the topics does not change what is decoded.
pub proof fn user_data_is_ignored(b: Seq<u8>, extra: Seq<u8>)
    requires
        decoded(b) is Ok,
    ensures
        decoded(b + extra) == decoded(b),
{
    let whole = b + extra;
    assert(whole.take(b.len() as int) =~= b);
    numbers_stay_in_a_cut(whole, b.len() as int, 0);
    numbers_stay_in_a_cut(whole, b.len() as int, 2);
    topics_stay(b, extra, 6, signed32(be32(b, 2)));
}

proof fn topics_stay(b: Seq<u8>, extra: Seq<u8>, i: int, count: int)
    requires
        0 <= i <= b.len(),
        topics_at(b, i, count) is Ok,
    ensures
        topics_at(b + extra, i, count) == topics_at(b, i, count),
    decreases count,
{
    if count > 0 {
        let whole = b + extra;
        let cut = b.len() as int;
        assert(whole.take(cut) =~= b);
        let names = i + 2 + signed16(be16(b, i));
        numbers_stay_in_a_cut(whole, cut, i);
        numbers_stay_in_a_cut(whole, cut, names);
        assert(whole.subrange(i + 2, names) =~= b.subrange(i + 2, names));
        let n = signed32(be32(b, names));
        assert(partitions_at(whole, names + 4, n) =~= partitions_at(b, names + 4, n)) by {
            assert forall|k: int| 0 <= k < n implies
                #[trigger] partitions_at(whole, names + 4, n)[k] == partitions_at(b, names + 4, n)[k] by {
                numbers_stay_in_a_cut(whole, cut, names + 4 + 4 * k);
            }
        }
        topic_at_is_inside(b, i);
        topics_stay(b, extra, topic_at(b, i)->Ok_0.1, count - 1);
    }
}

/// An assignment that was encoded is decoded again as it was, whatever follows it; a cut one is
/// refused.
pub proof fn an_encoded_assignment_is_decoded(
    version: int,
    topics: Seq<AssignmentView>,
    user_data: Seq<u8>,
    bytes: &[u8],
    read: Result<Vec<TopicAssignment>, DecodeError>,
)
    requires
        0 <= version < 0x8000,
        topics.len() < 0x8000_0000,
        forall|k: int| 0 <= k < topics.len() ==> topic_fits(#[trigger] topics[k]),
        bytes@ == encoded(version, topics) + user_data,
        call_ensures(decode_assignment, (bytes,), read),
    ensures
        read matches Ok(list) && assignment_views(list@) == topics,
{
    decoding_reverses_encoding(version, topics, user_data);
}

/// Errors are told apart by what they say, and a version that is not known is named.
pub proof fn errors_say_what_is_wrong(error: DecodeError, text: String)
    requires
        call_ensures(DecodeError::message, (&error,), text),
    ensures
        error is Truncated ==> text@ == "assignment bytes are truncated"@,
        error is NegativeLength ==> text@ == "assignment contains a negative length"@,
        error is InvalidUtf8 ==> text@ == "assignment topic name is not UTF-8"@,
        error matches DecodeError::UnsupportedVersion(v) ==> text@ == "assignment version "@ + decimal(v as int)
            + " is not supported"@,
{
}

} // verus!
