//! The command line.

use vstd::prelude::*;

use crate::kafka::import::CheckReport;
use crate::model::profile::{
    adopt_id, an_import_takes_the_place_of_its_name, mechanism_name, profiles_are_found_at_their_first_place, put_profile,
    saving_keeps_the_others, with_known_id, with_profile, ConnectionProfile, Security, SecurityView,
};
use crate::text::{decimal, decimal_text, joined, joined3, same_text};

verus! {

pub const USAGE: &'static str = "usage: kafkamitter [--check <file.properties> | --import <file.properties>]";

/// What the arguments ask for.
pub enum Command {
    /// Try the connection that a file describes.
    Check(String),
    /// Keep the connection that a file describes.
    Import(String),
    Help,
    /// Open the window.
    Window,
}

/// What arguments ask for.
pub open spec fn asked(args: Seq<String>) -> Command {
    if args.len() == 2 && args[0]@ == "--check"@ {
        Command::Check(args[1])
    } else if args.len() == 2 && args[0]@ == "--import"@ {
        Command::Import(args[1])
    } else if args.len() == 1 && (args[0]@ == "--help"@ || args[0]@ == "-h"@) {
        Command::Help
    } else {
        Command::Window
    }
}

/// What the arguments ask for. Anything else opens the window.
pub fn command(args: &Vec<String>) -> (command: Command)
    ensures
        command == asked(args@),
{
    if args.len() == 2 {
        if same_text(&args[0], "--check") {
            return Command::Check(args[1].clone());
        }
        if same_text(&args[0], "--import") {
            return Command::Import(args[1].clone());
        }
    }
    if args.len() == 1 && (same_text(&args[0], "--help") || same_text(&args[0], "-h")) {
        return Command::Help;
    }
    Command::Window
}

/// How a connection is secured, in words.
pub open spec fn security_text(security: SecurityView) -> Seq<char> {
    match security {
        SecurityView::Plaintext => "PLAINTEXT"@,
        SecurityView::SaslSsl { mechanism, username } => "SASL_SSL "@ + mechanism_name(mechanism) + " as "@ + username,
    }
}

/// What is said before a connection is tried.
pub fn check_headline(profile: &ConnectionProfile) -> (line: String)
    ensures
        line@ == "checking "@ + profile@.name + " ("@ + profile@.bootstrap_servers + ", "@ + security_text(
            profile@.security,
        ) + ")"@,
{
    let security: String = match &profile.security {
        Security::Plaintext => "PLAINTEXT".to_owned(),
        Security::SaslSsl { mechanism, username } => joined(
            &joined3("SASL_SSL ", mechanism.kafka_name(), " as "),
            username,
        ),
    };
    let head = joined3("checking ", &profile.name, " (");
    let place = joined3(&head, &profile.bootstrap_servers, ", ");
    joined3(&place, &security, ")")
}

/// What is said of a connection that was tried, with the time that it took in
/// milliseconds.
pub fn check_line(report: &CheckReport, milliseconds: &str) -> (line: String)
    ensures
        line@ == "ok: "@ + decimal(report.brokers as int) + " brokers, "@ + decimal(report.topics as int) + " topics, "@
            + decimal(report.groups as int) + " consumer groups in "@ + milliseconds@ + " ms"@,
{
    let brokers = joined3("ok: ", &decimal_text(report.brokers as i128), " brokers, ");
    let topics = joined3(&brokers, &decimal_text(report.topics as i128), " topics, ");
    let groups = joined3(&topics, &decimal_text(report.groups as i128), " consumer groups in ");
    joined3(&groups, milliseconds, " ms")
}

/// The profiles with an imported one, in place of the one with its name or at the end.
pub fn import_into(profiles: &mut Vec<ConnectionProfile>, profile: ConnectionProfile)
    ensures
        final(profiles)@ == with_profile(old(profiles)@, with_known_id(old(profiles)@, profile)),
{
    let adopted = adopt_id(profiles, profile);
    put_profile(profiles, adopted);
}

/// What is said of a connection that was imported into a file.
pub fn imported_line(name: &str, file: &str) -> (line: String)
    ensures
        line@ == "imported "@ + name@ + " into "@ + file@,
{
    joined(&joined3("imported ", name, " into "), file)
}

/// What is said where something failed.
pub fn failure_line(what: &str, reason: &str) -> (line: String)
    ensures
        line@ == what@ + ": "@ + reason@,
{
    joined3(what, ": ", reason)
}

// ---- laws ----

/// A file behind the option to check or to import is checked or imported; help is given where
/// it is asked for; and anything else opens the window.
pub proof fn arguments_ask_for_what_they_say(args: Seq<String>)
    ensures
        asked(args) matches Command::Check(file) ==> args.len() == 2 && args[0]@ == "--check"@ && file == args[1],
        asked(args) matches Command::Import(file) ==> args.len() == 2 && args[0]@ == "--import"@ && file == args[1],
        asked(args) is Help ==> args.len() == 1 && (args[0]@ == "--help"@ || args[0]@ == "-h"@),
        args.len() == 2 && args[0]@ == "--check"@ ==> asked(args) is Check,
        args.len() == 2 && args[0]@ == "--import"@ ==> asked(args) is Import,
        args.len() == 1 && (args[0]@ == "--help"@ || args[0]@ == "-h"@) ==> asked(args) is Help,
        args.len() == 0 || args.len() > 2 ==> asked(args) is Window,
{
    reveal_strlit("--check");
    reveal_strlit("--import");
    assert("--check"@.len() != "--import"@.len());
}

/// An imported connection with a name and an id that are new comes to the end, and the others
/// stay.
pub proof fn a_new_import_comes_to_the_end(
    profiles: &mut Vec<ConnectionProfile>,
    profile: ConnectionProfile,
)
    requires
        call_ensures(import_into, (profiles, profile), ()),
        forall|k: int| 0 <= k < old(profiles)@.len() ==> (#[trigger] old(profiles)@[k]).name@ != profile.name@,
        forall|k: int| 0 <= k < old(profiles)@.len() ==> (#[trigger] old(profiles)@[k]).id@ != profile.id@,
    ensures
        final(profiles)@ == old(profiles)@.push(profile),
{
    profiles_are_found_at_their_first_place(old(profiles)@, profile.name@, 0);
    profiles_are_found_at_their_first_place(old(profiles)@, profile.id@, 0);
}

/// An imported connection whose name is known adds none: the row stays as long as it was, and
/// holds the new connection under the id that was there.
pub proof fn a_known_name_is_imported_over(
    profiles: &mut Vec<ConnectionProfile>,
    profile: ConnectionProfile,
    k: int,
)
    requires
        call_ensures(import_into, (profiles, profile), ()),
        0 <= k < old(profiles)@.len(),
        old(profiles)@[k].name@ == profile.name@,
    ensures
        final(profiles)@.len() == old(profiles)@.len(),
        exists|i: int|
            0 <= i < final(profiles)@.len() && (#[trigger] final(profiles)@[i]).name == profile.name && final(profiles)@[i].security == profile.security && final(profiles)@[i].bootstrap_servers == profile.bootstrap_servers
                && final(profiles)@[i].password == profile.password,
{
    let before = old(profiles)@;
    an_import_takes_the_place_of_its_name(before, profile);
    let adopted = with_known_id(before, profile);
    saving_keeps_the_others(before, adopted);
    assert(final(profiles)@.contains(adopted));
    let i = choose|i: int| 0 <= i < final(profiles)@.len() && final(profiles)@[i] == adopted;
    assert(final(profiles)@[i].name == profile.name);
}

/// The lines on the screen name what they are about.
pub proof fn lines_name_what_they_are_about(
    args: &Vec<String>,
    asked_for: Command,
    profile: &ConnectionProfile,
    headline: String,
    what: &str,
    reason: &str,
    failure: String,
    name: &str,
    file: &str,
    imported: String,
)
    requires
        call_ensures(command, (args,), asked_for),
        call_ensures(check_headline, (profile,), headline),
        call_ensures(failure_line, (what, reason), failure),
        call_ensures(imported_line, (name, file), imported),
    ensures
        args@.len() == 2 && args@[0]@ == "--check"@ ==> asked_for == Command::Check(args@[1]),
        args@.len() == 2 && args@[0]@ == "--import"@ ==> asked_for == Command::Import(args@[1]),
        crate::text::starts_with(headline@, "checking "@ + profile@.name + " ("@ + profile@.bootstrap_servers),
        crate::text::starts_with(failure@, what@),
        crate::text::ends_with(failure@, reason@),
        crate::text::ends_with(imported@, file@),
        crate::text::starts_with(imported@, "imported "@ + name@),
{
    arguments_ask_for_what_they_say(args@);
    let first = "checking "@ + profile@.name + " ("@ + profile@.bootstrap_servers;
    assert(headline@.take(first.len() as int) =~= first);
    assert(failure@.take(what@.len() as int) =~= what@);
    assert(failure@.skip(failure@.len() - reason@.len()) =~= reason@);
    assert(imported@.skip(imported@.len() - file@.len()) =~= file@);
    let start = "imported "@ + name@;
    assert(imported@.take(start.len() as int) =~= start);
}

/// A check tells how many brokers, topics and groups were found, in this order.
pub proof fn a_check_tells_what_was_found(report: &CheckReport, milliseconds: &str, line: String)
    requires
        call_ensures(check_line, (report, milliseconds), line),
    ensures
        crate::text::starts_with(line@, "ok: "@ + decimal(report.brokers as int) + " brokers, "@),
        crate::text::starts_with(
            line@,
            "ok: "@ + decimal(report.brokers as int) + " brokers, "@ + decimal(report.topics as int) + " topics, "@
                + decimal(report.groups as int) + " consumer groups"@,
        ),
        crate::text::ends_with(line@, milliseconds@ + " ms"@),
{
    let brokers = "ok: "@ + decimal(report.brokers as int) + " brokers, "@;
    assert(line@.take(brokers.len() as int) =~= brokers);
    reveal_strlit(" consumer groups in ");
    reveal_strlit(" consumer groups");
    let all = brokers + decimal(report.topics as int) + " topics, "@ + decimal(report.groups as int)
        + " consumer groups"@;
    assert(line@.take(all.len() as int) =~= all);
    let tail = milliseconds@ + " ms"@;
    assert(line@.skip(line@.len() - tail.len()) =~= tail);
}

} // verus!
