//! Messages that are sent.

use vstd::prelude::*;

use crate::text::joined;

verus! {

#[derive(Debug, Clone, Copy, PartialEq, Eq, Structural)]
pub struct Delivered {
    pub partition: i32,
    pub offset: i64,
}

#[derive(Debug, PartialEq, Eq)]
pub struct ProduceRequest {
    pub topic: String,
    pub partition: Option<i32>,
    pub key: Option<Vec<u8>>,
    pub value: Option<Vec<u8>>,
    pub headers: Vec<(String, Option<Vec<u8>>)>,
}

/// What became of a message, out of the delivery report: its place, or the reason why
/// it has none.
pub fn delivery(report: Result<(i32, i64), String>) -> (outcome: Result<Delivered, String>)
    ensures
        match report {
            Ok((partition, offset)) => outcome == Ok::<_, String>((Delivered { partition, offset })),
            Err(reason) => outcome matches Err(message) && message@ == "delivery failed: "@ + reason@,
        },
{
    match report {
        Ok((partition, offset)) => Ok(Delivered { partition, offset }),
        Err(reason) => Err(joined("delivery failed: ", &reason)),
    }
}

/// What is reported of a message that could not be queued.
pub fn enqueue_failure(reason: &str) -> (message: String)
    ensures
        message@ == "enqueue failed: "@ + reason@,
{
    joined("enqueue failed: ", reason)
}

// ---- laws ----

/// A message that was delivered has the place that the report names; one that was not has the
/// reason at the end of what is said.
pub proof fn a_delivery_names_the_place(report: Result<(i32, i64), String>, outcome: Result<Delivered, String>)
    requires
        call_ensures(delivery, (report,), outcome),
    ensures
        outcome is Ok <==> report is Ok,
        report matches Ok((partition, offset)) ==> (outcome matches Ok(d) && d.partition == partition && d.offset
            == offset),
        report matches Err(reason) ==> (outcome matches Err(message) && crate::text::ends_with(message@, reason@)),
{
    if report is Err {
        let reason = report->Err_0@;
        let message = "delivery failed: "@ + reason;
        assert(message.skip(message.len() - reason.len()) =~= reason);
    }
}

} // verus!
