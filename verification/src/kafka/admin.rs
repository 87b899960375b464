//! Creating and deleting topics.

use vstd::prelude::*;

use crate::text::joined3;

verus! {

#[derive(Debug, PartialEq, Eq)]
pub struct NewTopicSpec {
    pub name: String,
    pub partitions: i32,
    pub replication_factor: i32,
    pub configs: Vec<(String, String)>,
}

/// What the cluster answers for one topic: its name, or its name and an error.
pub type TopicResult = Result<String, (String, String)>;

/// The first topic that failed, with the reason.
pub open spec fn first_failure(results: Seq<TopicResult>, i: int) -> Option<(Seq<char>, Seq<char>)>
    decreases results.len() - i,
{
    if i >= results.len() {
        None
    } else {
        match results[i] {
            Err((name, code)) => Some((name@, code@)),
            Ok(_) => first_failure(results, i + 1),
        }
    }
}

/// What became of a request on topics: the first failure is reported, with the name
/// of the operation.
pub fn topic_outcome(operation: &str, results: &Vec<TopicResult>) -> (outcome: Result<(), String>)
    ensures
        match outcome {
            Ok(_) => first_failure(results@, 0) is None,
            Err(message) => first_failure(results@, 0) matches Some((name, code)) && message@ == operation@ + " topic "@
                + name + ": "@ + code,
        },
{
    let mut i: usize = 0;
    while i < results.len()
        invariant
            i <= results@.len(),
            first_failure(results@, 0) == first_failure(results@, i as int),
        decreases results.len() - i,
    {
        match &results[i] {
            Err((name, code)) => {
                return Err(joined3(&joined3(operation, " topic ", name), ": ", code));
            },
            Ok(_) => {},
        }
        i = i + 1;
    }
    Ok(())
}

/// A failure is told of the first topic that has one, and none where each was done.
pub proof fn the_first_failure_is_told(results: Seq<TopicResult>, i: int)
    requires
        0 <= i,
    ensures
        first_failure(results, i) is None <==> forall|k: int| i <= k < results.len() ==> #[trigger] results[k] is Ok,
        first_failure(results, i) matches Some((name, code)) ==> exists|k: int|
            i <= k < results.len() && (#[trigger] results[k] matches Err((n, c)) && n@ == name && c@ == code) && forall|l: int|
                i <= l < k ==> #[trigger] results[l] is Ok,
    decreases results.len() - i,
{
    if i < results.len() {
        the_first_failure_is_told(results, i + 1);
        if results[i] is Ok {
            if first_failure(results, i) is Some {
                let (name, code) = first_failure(results, i)->0;
                let k = choose|k: int|
                    i + 1 <= k < results.len() && (#[trigger] results[k] matches Err((n, c)) && n@ == name && c@ == code)
                        && forall|l: int| i + 1 <= l < k ==> #[trigger] results[l] is Ok;
                assert(results[k] matches Err((n, c)) && n@ == name && c@ == code);
                assert forall|l: int| i <= l < k implies #[trigger] results[l] is Ok by {}
            }
        } else {
            assert(results[i] is Err);
        }
    }
}

/// An operation on topics succeeds where it does for each of them; else the first that failed
/// is told, with the reason.
pub proof fn an_operation_fails_with_its_first_failure(
    operation: &str,
    results: &Vec<TopicResult>,
    outcome: Result<(), String>,
)
    requires
        call_ensures(topic_outcome, (operation, results), outcome),
    ensures
        outcome is Ok <==> forall|k: int| 0 <= k < results@.len() ==> #[trigger] results@[k] is Ok,
        results@.len() > 0 ==> (results@[0] matches Err((name, code)) ==> (outcome matches Err(message) && message@
            == operation@ + " topic "@ + name@ + ": "@ + code@)),
{
    the_first_failure_is_told(results@, 0);
}

} // verus!
