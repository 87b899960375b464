//! What the application says about itself.

use vstd::prelude::*;

use crate::text::{joined, joined3};

verus! {

pub const VERSION: &'static str = "0.3.0";

pub const HOMEPAGE: &'static str = "https://github.com/isdaniarf/kafkamitter";

/// `rdkafka::util::get_rdkafka_version`: the version of the client library that is
/// linked, in words. Which one that is depends on how the application was built, and is
/// not stated.
#[verifier::external_body]
pub fn librdkafka_version() -> String {
    rdkafka::util::get_rdkafka_version().1
}

/// The application, where it runs, and its client library.
pub open spec fn summary_text(os: Seq<char>, arch: Seq<char>, library: Seq<char>) -> Seq<char> {
    "Kafkamitter "@ + VERSION@ + " ("@ + os + " "@ + arch + ", librdkafka "@ + library + ")"@
}

/// The application, where it runs, and its client library.
pub fn summary_of(os: &str, arch: &str, library: &str) -> (text: String)
    ensures
        text@ == summary_text(os@, arch@, library@),
{
    let head = joined(&joined3("Kafkamitter ", VERSION, " ("), os);
    let place = joined3(&joined3(&head, " ", arch), ", librdkafka ", library);
    joined(&place, ")")
}

/// The application, where it runs, and the client library that is linked.
pub fn summary(os: &str, arch: &str) -> (text: String)
    ensures
        exists|library: Seq<char>| text@ == #[trigger] summary_text(os@, arch@, library),
{
    let library = librdkafka_version();
    summary_of(os, arch, &library)
}

/// Where the application runs.
pub fn platform(os: &str, arch: &str) -> (text: String)
    ensures
        text@ == os@ + " "@ + arch@,
{
    joined3(os, " ", arch)
}

/// The summary names the program, its version, the platform and the library, in this order.
pub proof fn a_summary_names_platform_and_library(os: &str, arch: &str, library: &str, text: String, place: String, line: String)
    requires
        call_ensures(summary_of, (os, arch, library), text),
        call_ensures(platform, (os, arch), place),
        call_ensures(summary, (os, arch), line),
    ensures
        text@ == "Kafkamitter "@ + VERSION@ + " ("@ + place@ + ", librdkafka "@ + library@ + ")"@,
        place@ == os@ + " "@ + arch@,
        ({
            let start = "Kafkamitter "@ + VERSION@ + " ("@ + place@ + ", librdkafka "@;
            line@.len() >= start.len() && line@.take(start.len() as int) == start
        }),
{
    assert(text@ =~= "Kafkamitter "@ + VERSION@ + " ("@ + place@ + ", librdkafka "@ + library@ + ")"@);
    let start = "Kafkamitter "@ + VERSION@ + " ("@ + place@ + ", librdkafka "@;
    let found = choose|found: Seq<char>| line@ == #[trigger] summary_text(os@, arch@, found);
    assert(line@ =~= start + found + ")"@);
    assert(line@.take(start.len() as int) =~= start);
}

} // verus!
