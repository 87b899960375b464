//! The form of the settings.

use vstd::prelude::*;

use crate::model::settings::Settings;
use crate::text::{decimal, decimal_text, is_white, joined, parse_usize, parsed_int, trim, trimmed};

verus! {

/// What the form holds: numbers as text, and switches.
pub struct SettingsForm {
    pub newest: String,
    pub max_messages: String,
    pub max_megabytes: String,
    pub auto_consume: bool,
    pub open_newest: bool,
    pub pretty_json: bool,
}

/// The positive number that a text holds, where it does.
pub open spec fn positive(text: Seq<char>) -> Option<int> {
    match parsed_int(trim(text), 0, usize::MAX as int) {
        Some(n) => if n >= 1 {
            Some(n)
        } else {
            None
        },
        None => None,
    }
}

/// Reads a positive number, or says under its label that there is none.
pub fn positive_number(text: &str, label: &str) -> (number: Result<usize, String>)
    ensures
        match number {
            Ok(n) => positive(text@) == Some(n as int),
            Err(message) => positive(text@) is None && message@ == label@ + " must be a positive number"@,
        },
{
    match parse_usize(&trimmed(text)) {
        Some(n) => {
            if n >= 1 {
                return Ok(n);
            }
        },
        None => {},
    }
    Err(joined(label, " must be a positive number"))
}

/// Why a form is not settings: the first number that is none.
pub open spec fn complaint(newest: Seq<char>, max_messages: Seq<char>, max_megabytes: Seq<char>) -> Option<Seq<char>> {
    if positive(newest) is None {
        Some("Newest messages per partition"@ + " must be a positive number"@)
    } else if positive(max_messages) is None {
        Some("Maximum messages kept"@ + " must be a positive number"@)
    } else if positive(max_megabytes) is None {
        Some("Maximum memory"@ + " must be a positive number"@)
    } else {
        None
    }
}

impl SettingsForm {
    /// The form of the settings in force.
    pub fn new(current: &Settings) -> (form: Self)
        ensures
            form.newest@ == decimal(current.newest_per_partition as int),
            form.max_messages@ == decimal(current.max_messages as int),
            form.max_megabytes@ == decimal(current.max_megabytes as int),
            form.auto_consume == current.auto_consume_on_select,
            form.open_newest == current.open_newest_message,
            form.pretty_json == current.pretty_json_default,
    {
        SettingsForm {
            newest: decimal_text(current.newest_per_partition as i128),
            max_messages: decimal_text(current.max_messages as i128),
            max_megabytes: decimal_text(current.max_megabytes as i128),
            auto_consume: current.auto_consume_on_select,
            open_newest: current.open_newest_message,
            pretty_json: current.pretty_json_default,
        }
    }

    /// The settings that the form holds, or why it holds none.
    pub fn build(&self) -> (built: Result<Settings, String>)
        ensures
            match built {
                Ok(settings) => {
                    &&& complaint(self.newest@, self.max_messages@, self.max_megabytes@) is None
                    &&& settings.newest_per_partition == (positive(self.newest@)->0 as usize) as i64
                    &&& positive(self.max_messages@) == Some(settings.max_messages as int)
                    &&& positive(self.max_megabytes@) == Some(settings.max_megabytes as int)
                    &&& settings.auto_consume_on_select == self.auto_consume
                    &&& settings.open_newest_message == self.open_newest
                    &&& settings.pretty_json_default == self.pretty_json
                },
                Err(message) => complaint(self.newest@, self.max_messages@, self.max_megabytes@) == Some(message@),
            },
    {
        let newest: usize = match positive_number(&self.newest, "Newest messages per partition") {
            Ok(n) => n,
            Err(message) => {
                return Err(message);
            },
        };
        let max_messages: usize = match positive_number(&self.max_messages, "Maximum messages kept") {
            Ok(n) => n,
            Err(message) => {
                return Err(message);
            },
        };
        let max_megabytes: usize = match positive_number(&self.max_megabytes, "Maximum memory") {
            Ok(n) => n,
            Err(message) => {
                return Err(message);
            },
        };
        Ok(
            Settings {
                auto_consume_on_select: self.auto_consume,
                newest_per_partition: newest as i64,
                open_newest_message: self.open_newest,
                pretty_json_default: self.pretty_json,
                max_messages,
                max_megabytes,
            },
        )
    }
}

proof fn digits_are_not_white(n: nat)
    ensures
        forall|i: int| 0 <= i < crate::text::digits(n, 10).len() ==> !is_white(#[trigger] crate::text::digits(n, 10)[i]),
    decreases n,
{
    let s = crate::text::digits(n, 10);
    if n < 10 {
        assert(s.len() == 1);
    } else {
        digits_are_not_white(n / 10);
        assert forall|i: int| 0 <= i < s.len() implies !is_white(#[trigger] s[i]) by {
            if i < s.len() - 1 {
                assert(s[i] == crate::text::digits(n / 10, 10)[i]);
            }
        }
    }
}

/// A number that a form shows is read back as it was.
pub proof fn shown_numbers_are_read_back(n: int)
    requires
        1 <= n <= usize::MAX,
    ensures
        positive(decimal(n)) == Some(n),
{
    digits_are_not_white(n as nat);
    crate::text::decimal_is_read_back(n, 0, usize::MAX as int);
    assert(trim(decimal(n)) == decimal(n));
}

/// A text is a positive number only where it is one, of at least one and no larger than a word
/// holds.
pub proof fn positive_numbers_are_at_least_one(text: Seq<char>)
    ensures
        positive(text) matches Some(n) ==> 1 <= n <= usize::MAX && parsed_int(trim(text), 0, usize::MAX as int) == Some(n),
        trim(text).len() == 0 ==> positive(text) is None,
        positive(decimal(0)) is None,
{
    crate::text::a_number_is_trimmed(0);
    crate::text::decimal_is_read_back(0, 0, usize::MAX as int);
}

/// Settings that are shown in a form and read back without a change stay as they are, where
/// their numbers are positive.
pub proof fn unchanged_settings_stay(current: &Settings, form: SettingsForm, built: Result<Settings, String>)
    requires
        call_ensures(SettingsForm::new, (current,), form),
        call_ensures(SettingsForm::build, (&form,), built),
        1 <= current.newest_per_partition <= usize::MAX,
        1 <= current.max_messages,
        1 <= current.max_megabytes,
    ensures
        built matches Ok(settings) && settings == *current,
{
    shown_numbers_are_read_back(current.newest_per_partition as int);
    shown_numbers_are_read_back(current.max_messages as int);
    shown_numbers_are_read_back(current.max_megabytes as int);
}

/// A form with a number that is not positive is refused, and only such a one.
pub proof fn settings_need_positive_numbers(form: &SettingsForm, built: Result<Settings, String>)
    requires
        call_ensures(SettingsForm::build, (form,), built),
    ensures
        built is Ok <==> positive(form.newest@) is Some && positive(form.max_messages@) is Some && positive(
            form.max_megabytes@,
        ) is Some,
{
}

/// Settings are refused for the first entry that is no positive number, which is named.
pub proof fn a_refused_number_is_named(form: &SettingsForm, built: Result<Settings, String>, text: &str, label: &str, number: Result<usize, String>)
    requires
        call_ensures(SettingsForm::build, (form,), built),
        call_ensures(positive_number, (text, label), number),
    ensures
        positive(form.newest@) is None ==> (built matches Err(message) && message@ == "Newest messages per partition"@
            + " must be a positive number"@),
        positive(form.newest@) is Some && positive(form.max_messages@) is None ==> (built matches Err(message) && message@
            == "Maximum messages kept"@ + " must be a positive number"@),
        built matches Err(message) ==> (positive(form.newest@) is Some && positive(form.max_messages@) is Some ==> message@
            == "Maximum memory"@ + " must be a positive number"@),
        number matches Ok(n) ==> n >= 1,
        number matches Err(message) ==> message@ == label@ + " must be a positive number"@,
        text@ == crate::text::decimal(7) ==> number == Ok::<usize, String>(7),
{
    shown_numbers_are_read_back(7);
}

} // verus!
