//! The user's settings.

use vstd::prelude::*;

use crate::model::profile::{app_support_dir, slice_view, support_path};
use crate::path::{join_path, path_join};

verus! {

#[derive(Debug, Clone, Copy, PartialEq, Eq, Structural)]
pub struct Settings {
    pub auto_consume_on_select: bool,
    pub newest_per_partition: i64,
    pub open_newest_message: bool,
    pub pretty_json_default: bool,
    pub max_messages: usize,
    pub max_megabytes: usize,
}

/// The settings of a new user.
pub open spec fn default_settings() -> Settings {
    Settings {
        auto_consume_on_select: true,
        newest_per_partition: 200,
        open_newest_message: true,
        pretty_json_default: true,
        max_messages: 10_000,
        max_megabytes: 256,
    }
}

impl Default for Settings {
    fn default() -> (settings: Self)
        ensures
            settings == default_settings(),
    {
        Settings {
            auto_consume_on_select: true,
            newest_per_partition: 200,
            open_newest_message: true,
            pretty_json_default: true,
            max_messages: 10_000,
            max_megabytes: 256,
        }
    }
}

/// The bytes of a number of megabytes, of which there is at least one.
pub open spec fn bytes_of_megabytes(megabytes: int) -> int {
    if megabytes >= 1 {
        megabytes * 1024 * 1024
    } else {
        0x10_0000
    }
}

impl Settings {
    pub fn max_bytes(&self) -> (bytes: usize)
        requires
            bytes_of_megabytes(self.max_megabytes as int) <= usize::MAX,
        ensures
            bytes == bytes_of_megabytes(self.max_megabytes as int),
    {
        let megabytes: usize = if self.max_megabytes >= 1 { self.max_megabytes } else { 1 };
        megabytes * 1024 * 1024
    }
}

pub fn settings_path(home: Option<&str>) -> (path: String)
    ensures
        path@ == path_join(support_path(slice_view(home)), "settings.json"@),
{
    join_path(&app_support_dir(home), "settings.json")
}

/// The settings that are in force: those that were read, or the defaults where there
/// are none that can be read.
pub fn load_settings(read: Option<Settings>) -> (settings: Settings)
    ensures
        settings == (match read {
            Some(s) => s,
            None => default_settings(),
        }),
{
    match read {
        Some(settings) => settings,
        None => Settings::default(),
    }
}

// ---- laws ----

/// The memory that messages may take up grows by a megabyte with each one that is set, and is
/// one megabyte at least.
pub proof fn memory_is_set_in_megabytes(megabytes: int)
    requires
        1 <= megabytes,
    ensures
        bytes_of_megabytes(megabytes) == megabytes * 1_048_576,
        bytes_of_megabytes(megabytes + 1) == bytes_of_megabytes(megabytes) + 1_048_576,
        bytes_of_megabytes(0) == 1_048_576,
{
}

/// Settings that were read are in force, and where there are none, those of a new user: they
/// read a topic when it is selected, the newest two hundred messages of each partition, open
/// the newest one, lay JSON out, and keep ten thousand messages or 256 megabytes.
pub proof fn read_settings_are_in_force(read: Option<Settings>, settings: Settings)
    requires
        call_ensures(load_settings, (read,), settings),
    ensures
        read matches Some(s) ==> settings == s,
        read is None ==> {
            &&& settings.auto_consume_on_select && settings.open_newest_message && settings.pretty_json_default
            &&& settings.newest_per_partition == 200
            &&& settings.max_messages == 10_000
            &&& settings.max_megabytes == 256
        },
{
}

/// Without settings of its own the program reads at once, opens the newest message, lays JSON
/// out, and keeps the newest messages within its limits.
pub proof fn the_first_settings_read_at_once(settings: Settings)
    requires
        call_ensures(Settings::default, (), settings),
    ensures
        settings.auto_consume_on_select && settings.open_newest_message && settings.pretty_json_default,
        settings.newest_per_partition == 200 && settings.max_messages == 10_000 && settings.max_megabytes == 256,
{
}

} // verus!
