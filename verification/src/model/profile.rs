//! Connection profiles.

use vstd::prelude::*;

use crate::path::{join_path, path_join};
use crate::text::{
    chars_of, clone_option, has_prefix, hex, hex_text, joined, joined3, option_view, same_option, same_text, starts_with,
};

verus! {

/// How the client proves its identity to a broker.
#[derive(Debug, Clone, Copy, PartialEq, Eq, Structural)]
pub enum SaslMechanism {
    Plain,
    ScramSha256,
    ScramSha512,
}

/// The name of a mechanism in Kafka's configuration.
pub open spec fn mechanism_name(mechanism: SaslMechanism) -> Seq<char> {
    match mechanism {
        SaslMechanism::Plain => "PLAIN"@,
        SaslMechanism::ScramSha256 => "SCRAM-SHA-256"@,
        SaslMechanism::ScramSha512 => "SCRAM-SHA-512"@,
    }
}

impl SaslMechanism {
    pub const ALL: [SaslMechanism; 3] = [
        SaslMechanism::Plain,
        SaslMechanism::ScramSha256,
        SaslMechanism::ScramSha512,
    ];

    pub fn kafka_name(self) -> (name: &'static str)
        ensures
            name@ == mechanism_name(self),
    {
        match self {
            SaslMechanism::Plain => "PLAIN",
            SaslMechanism::ScramSha256 => "SCRAM-SHA-256",
            SaslMechanism::ScramSha512 => "SCRAM-SHA-512",
        }
    }

    pub fn label(self) -> (label: &'static str)
        ensures
            label@ == mechanism_name(self),
    {
        self.kafka_name()
    }
}

#[derive(Debug, PartialEq, Eq)]
pub enum Security {
    Plaintext,
    SaslSsl {
        mechanism: SaslMechanism,
        username: String,
    },
}

/// A connection's security with its strings as characters.
pub enum SecurityView {
    Plaintext,
    SaslSsl {
        mechanism: SaslMechanism,
        username: Seq<char>,
    },
}

impl View for Security {
    type V = SecurityView;

    open spec fn view(&self) -> SecurityView {
        match self {
            Security::Plaintext => SecurityView::Plaintext,
            Security::SaslSsl { mechanism, username } => SecurityView::SaslSsl {
                mechanism: *mechanism,
                username: username@,
            },
        }
    }
}

impl Clone for Security {
    fn clone(&self) -> (copy: Self)
        ensures
            copy == *self,
    {
        match self {
            Security::Plaintext => Security::Plaintext,
            Security::SaslSsl { mechanism, username } => Security::SaslSsl {
                mechanism: *mechanism,
                username: username.clone(),
            },
        }
    }
}

#[derive(Debug, PartialEq, Eq)]
pub struct ConnectionProfile {
    pub id: String,
    pub name: String,
    pub bootstrap_servers: String,
    pub security: Security,
    pub ca_location: Option<String>,
    /// The SASL password, stored in the profiles file.
    pub password: Option<String>,
}

/// A profile with its strings as characters.
pub struct ProfileView {
    pub id: Seq<char>,
    pub name: Seq<char>,
    pub bootstrap_servers: Seq<char>,
    pub security: SecurityView,
    pub ca_location: Option<Seq<char>>,
    pub password: Option<Seq<char>>,
}

impl View for ConnectionProfile {
    type V = ProfileView;

    open spec fn view(&self) -> ProfileView {
        ProfileView {
            id: self.id@,
            name: self.name@,
            bootstrap_servers: self.bootstrap_servers@,
            security: self.security@,
            ca_location: option_view(self.ca_location),
            password: option_view(self.password),
        }
    }
}

impl Clone for ConnectionProfile {
    fn clone(&self) -> (copy: Self)
        ensures
            copy == *self,
    {
        ConnectionProfile {
            id: self.id.clone(),
            name: self.name.clone(),
            bootstrap_servers: self.bootstrap_servers.clone(),
            security: self.security.clone(),
            ca_location: clone_option(&self.ca_location),
            password: clone_option(&self.password),
        }
    }
}

impl ConnectionProfile {
    pub fn needs_password(&self) -> (needed: bool)
        ensures
            needed == (self@.security is SaslSsl),
    {
        match &self.security {
            Security::Plaintext => false,
            Security::SaslSsl { .. } => true,
        }
    }

    /// Whether two profiles hold the same.
    pub fn same_as(&self, other: &ConnectionProfile) -> (same: bool)
        ensures
            same == (self@ == other@),
    {
        let same_security: bool = match (&self.security, &other.security) {
            (Security::Plaintext, Security::Plaintext) => true,
            (
                Security::SaslSsl { mechanism: a, username: x },
                Security::SaslSsl { mechanism: b, username: y },
            ) => *a == *b && same_text(x, y),
            _ => false,
        };
        same_security && same_text(&self.id, &other.id) && same_text(&self.name, &other.name)
            && same_text(&self.bootstrap_servers, &other.bootstrap_servers)
            && same_option(&self.ca_location, &other.ca_location)
            && same_option(&self.password, &other.password)
    }
}

// ---- rows of profiles ----

/// The first place from a given one of a profile with an id.
pub open spec fn place_of_id(profiles: Seq<ConnectionProfile>, id: Seq<char>, i: int) -> Option<int>
    decreases profiles.len() - i,
{
    if i >= profiles.len() {
        None
    } else if profiles[i].id@ == id {
        Some(i)
    } else {
        place_of_id(profiles, id, i + 1)
    }
}

/// The first place from a given one of a profile with a name.
pub open spec fn place_of_name(profiles: Seq<ConnectionProfile>, name: Seq<char>, i: int) -> Option<int>
    decreases profiles.len() - i,
{
    if i >= profiles.len() {
        None
    } else if profiles[i].name@ == name {
        Some(i)
    } else {
        place_of_name(profiles, name, i + 1)
    }
}

/// A place where a profile is found is one of the row, and holds that profile.
pub proof fn a_found_place_is_in_the_row(profiles: Seq<ConnectionProfile>, id: Seq<char>, i: int)
    requires
        0 <= i,
    ensures
        place_of_id(profiles, id, i) matches Some(place) ==> i <= place < profiles.len() && profiles[place].id@ == id,
    decreases profiles.len() - i,
{
    if i < profiles.len() && profiles[i].id@ != id {
        a_found_place_is_in_the_row(profiles, id, i + 1);
    }
}

/// The place of the first profile with an id.
pub fn find_id(profiles: &Vec<ConnectionProfile>, id: &str) -> (place: Option<usize>)
    ensures
        match place {
            Some(p) => place_of_id(profiles@, id@, 0) == Some(p as int) && p < profiles@.len() && profiles@[p as int].id@
                == id@,
            None => place_of_id(profiles@, id@, 0) is None,
        },
{
    let mut i: usize = 0;
    while i < profiles.len()
        invariant
            i <= profiles@.len(),
            place_of_id(profiles@, id@, 0) == place_of_id(profiles@, id@, i as int),
        decreases profiles.len() - i,
    {
        if same_text(&profiles[i].id, id) {
            return Some(i);
        }
        i = i + 1;
    }
    None
}

/// The place of the first profile with a name.
pub fn find_name(profiles: &Vec<ConnectionProfile>, name: &str) -> (place: Option<usize>)
    ensures
        match place {
            Some(p) => place_of_name(profiles@, name@, 0) == Some(p as int) && p < profiles@.len(),
            None => place_of_name(profiles@, name@, 0) is None,
        },
{
    let mut i: usize = 0;
    while i < profiles.len()
        invariant
            i <= profiles@.len(),
            place_of_name(profiles@, name@, 0) == place_of_name(profiles@, name@, i as int),
        decreases profiles.len() - i,
    {
        if same_text(&profiles[i].name, name) {
            return Some(i);
        }
        i = i + 1;
    }
    None
}

/// A row with a profile in place of the one with its id, or at the end.
pub open spec fn with_profile(profiles: Seq<ConnectionProfile>, profile: ConnectionProfile) -> Seq<ConnectionProfile> {
    match place_of_id(profiles, profile.id@, 0) {
        Some(place) => profiles.update(place, profile),
        None => profiles.push(profile),
    }
}

/// Puts a profile into a row, in place of the one with its id or at the end.
pub fn put_profile(profiles: &mut Vec<ConnectionProfile>, profile: ConnectionProfile)
    ensures
        final(profiles)@ == with_profile(old(profiles)@, profile),
{
    match find_id(profiles, &profile.id) {
        Some(place) => {
            profiles.set(place, profile);
        },
        None => {
            profiles.push(profile);
        },
    }
}

/// An imported profile, under the id of the one that has its name already.
pub open spec fn with_known_id(profiles: Seq<ConnectionProfile>, profile: ConnectionProfile) -> ConnectionProfile {
    match place_of_name(profiles, profile.name@, 0) {
        Some(place) => ConnectionProfile { id: profiles[place].id, ..profile },
        None => profile,
    }
}

/// An imported profile, under the id of the one that has its name already.
pub fn adopt_id(profiles: &Vec<ConnectionProfile>, profile: ConnectionProfile) -> (adopted: ConnectionProfile)
    ensures
        adopted == with_known_id(profiles@, profile),
{
    match find_name(profiles, &profile.name) {
        Some(place) => {
            let mut adopted = profile;
            adopted.id = profiles[place].id.clone();
            adopted
        },
        None => profile,
    }
}

/// A row without the profiles of an id.
pub open spec fn without_id(profiles: Seq<ConnectionProfile>, id: Seq<char>) -> Seq<ConnectionProfile>
    decreases profiles.len(),
{
    if profiles.len() == 0 {
        Seq::empty()
    } else {
        let before = without_id(profiles.drop_last(), id);
        if profiles.last().id@ == id {
            before
        } else {
            before.push(profiles.last())
        }
    }
}

/// A row without the profiles of an id.
pub fn remove_id(profiles: &Vec<ConnectionProfile>, id: &str) -> (kept: Vec<ConnectionProfile>)
    ensures
        kept@ == without_id(profiles@, id@),
{
    let mut kept: Vec<ConnectionProfile> = Vec::new();
    let mut i: usize = 0;
    assert(profiles@.take(0) =~= Seq::empty());
    while i < profiles.len()
        invariant
            i <= profiles@.len(),
            kept@ == without_id(profiles@.take(i as int), id@),
        decreases profiles.len() - i,
    {
        assert(profiles@.take(i + 1).drop_last() =~= profiles@.take(i as int));
        if !same_text(&profiles[i].id, id) {
            kept.push(profiles[i].clone());
        }
        i = i + 1;
    }
    assert(profiles@.take(i as int) =~= profiles@);
    kept
}

/// The id of the connection that the environment can ask for.
pub const DEV_PROFILE_ID: &'static str = "dev";

/// Whether an id is one that the environment asked for. Such connections are not kept.
pub open spec fn is_passing(id: Seq<char>) -> bool {
    id == DEV_PROFILE_ID@ || starts_with(id, DEV_PROFILE_ID@ + "-"@)
}

/// The profiles of a row that are kept.
pub open spec fn kept_profiles(profiles: Seq<ConnectionProfile>) -> Seq<ConnectionProfile>
    decreases profiles.len(),
{
    if profiles.len() == 0 {
        Seq::empty()
    } else {
        let before = kept_profiles(profiles.drop_last());
        if is_passing(profiles.last().id@) {
            before
        } else {
            before.push(profiles.last())
        }
    }
}

/// The profiles that are written to the profiles file.
pub fn persisted(profiles: &Vec<ConnectionProfile>) -> (kept: Vec<ConnectionProfile>)
    ensures
        kept@ == kept_profiles(profiles@),
{
    let prefix = chars_of(&joined(DEV_PROFILE_ID, "-"));
    let mut kept: Vec<ConnectionProfile> = Vec::new();
    let mut i: usize = 0;
    assert(profiles@.take(0) =~= Seq::empty());
    while i < profiles.len()
        invariant
            i <= profiles@.len(),
            prefix@ == DEV_PROFILE_ID@ + "-"@,
            kept@ == kept_profiles(profiles@.take(i as int)),
        decreases profiles.len() - i,
    {
        assert(profiles@.take(i + 1).drop_last() =~= profiles@.take(i as int));
        let id: &String = &profiles[i].id;
        if !(same_text(id, DEV_PROFILE_ID) || has_prefix(&chars_of(id), &prefix)) {
            kept.push(profiles[i].clone());
        }
        i = i + 1;
    }
    assert(profiles@.take(i as int) =~= profiles@);
    kept
}

/// After a profile was put into a row, its id leads to it, and every other id to what it
/// led to before.
pub proof fn a_put_profile_is_found(profiles: Seq<ConnectionProfile>, profile: ConnectionProfile, id: Seq<char>)
    ensures
        ({
            let after = with_profile(profiles, profile);
            if id == profile.id@ {
                place_of_id(after, id, 0) matches Some(place) && after[place] == profile
            } else {
                match place_of_id(profiles, id, 0) {
                    Some(place) => place_of_id(after, id, 0) == Some(place) && after[place] == profiles[place],
                    None => place_of_id(after, id, 0) is None,
                }
            }
        }),
{
    let after = with_profile(profiles, profile);
    a_found_place_is_in_the_row(profiles, profile.id@, 0);
    match place_of_id(profiles, profile.id@, 0) {
        Some(place) => {
            an_update_moves_no_id(profiles, profile, place, id, 0);
            a_found_place_is_in_the_row(after, id, 0);
            a_found_place_is_in_the_row(profiles, id, 0);
        },
        None => {
            a_push_comes_last(profiles, profile, id, 0);
            a_found_place_is_in_the_row(profiles, id, 0);
        },
    }
}

proof fn an_update_moves_no_id(profiles: Seq<ConnectionProfile>, profile: ConnectionProfile, place: int, id: Seq<char>, i: int)
    requires
        0 <= place < profiles.len(),
        profiles[place].id@ == profile.id@,
        0 <= i,
    ensures
        place_of_id(profiles.update(place, profile), id, i) == place_of_id(profiles, id, i),
    decreases profiles.len() - i,
{
    if i < profiles.len() {
        an_update_moves_no_id(profiles, profile, place, id, i + 1);
    }
}

proof fn a_push_comes_last(profiles: Seq<ConnectionProfile>, profile: ConnectionProfile, id: Seq<char>, i: int)
    requires
        0 <= i <= profiles.len(),
    ensures
        match place_of_id(profiles, id, i) {
            Some(place) => place_of_id(profiles.push(profile), id, i) == Some(place),
            None => place_of_id(profiles.push(profile), id, i) == (if profile.id@ == id {
                Some(profiles.len() as int)
            } else {
                None
            }),
        },
    decreases profiles.len() - i,
{
    reveal_with_fuel(place_of_id, 2);
    if i < profiles.len() {
        assert(profiles.push(profile)[i] == profiles[i]);
        a_push_comes_last(profiles, profile, id, i + 1);
    }
}

// ---- paths and ids ----

/// Where the application keeps its files, below a home directory.
pub open spec fn support_path(home: Option<Seq<char>>) -> Seq<char> {
    let base = match home {
        Some(path) => path,
        None => "."@,
    };
    path_join(path_join(path_join(base, "Library"@), "Application Support"@), "kafkamitter"@)
}

/// The characters of an optional string slice.
pub open spec fn slice_view(text: Option<&str>) -> Option<Seq<char>> {
    match text {
        Some(t) => Some(t@),
        None => None,
    }
}

/// Where the application keeps its files, given the home directory of its user.
pub fn app_support_dir(home: Option<&str>) -> (path: String)
    ensures
        path@ == support_path(slice_view(home)),
{
    let base: &str = match home {
        Some(path) => path,
        None => ".",
    };
    join_path(&join_path(&join_path(base, "Library"), "Application Support"), "kafkamitter")
}

pub fn profiles_path(home: Option<&str>) -> (path: String)
    ensures
        path@ == path_join(support_path(slice_view(home)), "connections.json"@),
{
    join_path(&app_support_dir(home), "connections.json")
}

pub fn ca_dir(home: Option<&str>) -> (path: String)
    ensures
        path@ == path_join(support_path(slice_view(home)), "ca"@),
{
    join_path(&app_support_dir(home), "ca")
}

/// The id of a profile that a process made at a time, as the given one in its row.
pub open spec fn profile_id(nanos: nat, process: nat, sequence: nat) -> Seq<char> {
    hex(nanos) + "-"@ + hex(process) + "-"@ + hex(sequence)
}

/// An id for a new profile, from the time in nanoseconds, the process and a counter.
/// The counter keeps apart the ids of profiles that are made in one clock tick.
pub fn new_profile_id(nanos: u128, process: u32, sequence: u64) -> (id: String)
    ensures
        id@ == profile_id(nanos as nat, process as nat, sequence as nat),
{
    let start = joined3(&hex_text(nanos), "-", &hex_text(process as u128));
    let id = joined3(&start, "-", &hex_text(sequence as u128));
    assert(id@ =~= profile_id(nanos as nat, process as nat, sequence as nat));
    id
}

/// Hands out the ids of new profiles. It counts them, and begins anew behind the largest
/// number.
#[derive(Debug)]
pub struct ProfileIds {
    next: u64,
}

/// The number of the profile that is made so many profiles later.
pub open spec fn number_behind(start: int, steps: int) -> int {
    (start + steps) % 0x1_0000_0000_0000_0000
}

impl ProfileIds {
    /// The number of the next profile.
    pub closed spec fn number(&self) -> int {
        self.next as int
    }

    pub fn new() -> (ids: Self)
        ensures
            ids.number() == 0,
    {
        ProfileIds { next: 0 }
    }

    /// An id for a new profile, from the time in nanoseconds and the process. The count
    /// goes up by one.
    pub fn next_id(&mut self, nanos: u128, process: u32) -> (id: String)
        ensures
            id@ == profile_id(nanos as nat, process as nat, old(self).number() as nat),
            final(self).number() == number_behind(old(self).number(), 1),
    {
        let id = new_profile_id(nanos, process, self.next);
        self.next = if self.next == u64::MAX { 0 } else { self.next + 1 };
        id
    }
}

/// So many profiles later and then one more is one more profile later.
pub proof fn numbers_go_up(start: int, steps: int)
    requires
        0 <= start <= u64::MAX,
        0 <= steps,
    ensures
        number_behind(start, 0) == start,
        number_behind(number_behind(start, steps), 1) == number_behind(start, steps + 1),
        0 <= number_behind(start, steps) <= u64::MAX,
{
}

/// Ids that one source hands out differ, whatever the clock says, as long as it has not
/// counted through all numbers in between.
pub proof fn handed_out_ids_differ(
    start: int,
    i: int,
    j: int,
    nanos_i: nat,
    nanos_j: nat,
    process_i: nat,
    process_j: nat,
)
    requires
        0 <= start <= u64::MAX,
        0 <= i < j,
        j - i <= u64::MAX,
    ensures
        profile_id(nanos_i, process_i, number_behind(start, i) as nat) != profile_id(
            nanos_j,
            process_j,
            number_behind(start, j) as nat,
        ),
{
    profile_ids_differ(
        nanos_i,
        nanos_j,
        process_i,
        process_j,
        number_behind(start, i) as nat,
        number_behind(start, j) as nat,
    );
}

/// Hexadecimal tells numbers apart, and holds no dash.
pub proof fn hex_tells_apart(a: nat, b: nat)
    ensures
        hex(a) == hex(b) ==> a == b,
        forall|i: int| 0 <= i < hex(a).len() ==> hex(a)[i] != '-',
    decreases a,
{
    assert(forall|d: nat, e: nat| d < 16 && e < 16 && crate::text::digit_char(d) == crate::text::digit_char(e) ==> d == e);
    assert(forall|d: nat| d < 16 ==> #[trigger] crate::text::digit_char(d) != '-');
    let x = hex(a);
    let y = hex(b);
    if a >= 16 {
        hex_tells_apart(a / 16, b / 16);
        assert(x.drop_last() =~= hex(a / 16));
        if b >= 16 {
            assert(y.drop_last() =~= hex(b / 16));
            if x == y {
                assert(x.last() == y.last());
            }
        } else {
            assert(hex(a / 16).len() > 0) by {
                hex_is_not_empty(a / 16);
            }
        }
        assert forall|i: int| 0 <= i < x.len() implies x[i] != '-' by {
            if i < x.len() - 1 {
                assert(x[i] == hex(a / 16)[i]);
            }
        }
    } else {
        if b >= 16 {
            hex_is_not_empty(b / 16);
            assert(y.len() == hex(b / 16).len() + 1);
        } else if x == y {
            assert(x[0] == y[0]);
        }
    }
}

proof fn hex_is_not_empty(n: nat)
    ensures
        hex(n).len() > 0,
{
}

/// Ids differ when the counter does, whatever the clock and the process say.
pub proof fn profile_ids_differ(nanos_a: nat, nanos_b: nat, process_a: nat, process_b: nat, a: nat, b: nat)
    requires
        a != b,
    ensures
        profile_id(nanos_a, process_a, a) != profile_id(nanos_b, process_b, b),
{
    let x = profile_id(nanos_a, process_a, a);
    let y = profile_id(nanos_b, process_b, b);
    reveal_strlit("-");
    hex_tells_apart(a, b);
    hex_tells_apart(b, a);
    let n = hex(a).len() as int;
    let m = hex(b).len() as int;
    assert(x.skip(x.len() - n) =~= hex(a));
    assert(y.skip(y.len() - m) =~= hex(b));
    assert(x[x.len() - n - 1] == '-');
    assert(y[y.len() - m - 1] == '-');
    if x == y {
        if n < m {
            assert(y[y.len() - n - 1] == hex(b)[m - n - 1]);
        } else if m < n {
            assert(x[x.len() - m - 1] == hex(a)[n - m - 1]);
        }
    }
}

/// The names of the mechanisms are those that Kafka knows them by, and no two are the same.
pub proof fn mechanisms_have_kafka_names(a: SaslMechanism, b: SaslMechanism)
    ensures
        mechanism_name(a) == mechanism_name(b) <==> a == b,
        a is Plain <==> mechanism_name(a) == "PLAIN"@,
        a is ScramSha256 <==> mechanism_name(a) == "SCRAM-SHA-256"@,
        a is ScramSha512 <==> mechanism_name(a) == "SCRAM-SHA-512"@,
{
    reveal_strlit("PLAIN");
    reveal_strlit("SCRAM-SHA-256");
    reveal_strlit("SCRAM-SHA-512");
    assert("PLAIN"@.len() == 5);
    assert("SCRAM-SHA-256"@.len() == 13);
    assert("SCRAM-SHA-512"@.len() == 13);
    assert("SCRAM-SHA-256"@[10] != "SCRAM-SHA-512"@[10]);
}

/// A profile is found at the first place that has its id, and not found exactly where no
/// place has it. The same holds of names.
pub proof fn profiles_are_found_at_their_first_place(profiles: Seq<ConnectionProfile>, id: Seq<char>, i: int)
    requires
        0 <= i,
    ensures
        match place_of_id(profiles, id, i) {
            Some(place) => i <= place < profiles.len() && profiles[place].id@ == id && forall|k: int|
                i <= k < place ==> (#[trigger] profiles[k]).id@ != id,
            None => forall|k: int| i <= k < profiles.len() ==> (#[trigger] profiles[k]).id@ != id,
        },
        match place_of_name(profiles, id, i) {
            Some(place) => i <= place < profiles.len() && profiles[place].name@ == id && forall|k: int|
                i <= k < place ==> (#[trigger] profiles[k]).name@ != id,
            None => forall|k: int| i <= k < profiles.len() ==> (#[trigger] profiles[k]).name@ != id,
        },
    decreases profiles.len() - i,
{
    if i < profiles.len() {
        profiles_are_found_at_their_first_place(profiles, id, i + 1);
    }
}

/// Saving a profile keeps every other one at its place: one with its id gives way to it, and
/// a new one comes to the end.
pub proof fn saving_keeps_the_others(profiles: Seq<ConnectionProfile>, profile: ConnectionProfile)
    ensures
        ({
            let after = with_profile(profiles, profile);
            let known = exists|k: int| 0 <= k < profiles.len() && (#[trigger] profiles[k]).id@ == profile.id@;
            &&& after.len() == profiles.len() + (if known { 0int } else { 1 })
            &&& forall|k: int|
                0 <= k < profiles.len() && (#[trigger] profiles[k]).id@ != profile.id@ ==> after[k] == profiles[k]
            &&& after.contains(profile)
        }),
{
    profiles_are_found_at_their_first_place(profiles, profile.id@, 0);
    let after = with_profile(profiles, profile);
    match place_of_id(profiles, profile.id@, 0) {
        Some(place) => {
            assert(profiles[place].id@ == profile.id@);
            assert(after[place] == profile);
        },
        None => {
            assert(after[profiles.len() as int] == profile);
        },
    }
}

/// An imported profile keeps all that it says; only its id becomes that of a profile with
/// its name, where there is one.
pub proof fn an_import_takes_the_place_of_its_name(profiles: Seq<ConnectionProfile>, profile: ConnectionProfile)
    ensures
        ({
            let adopted = with_known_id(profiles, profile);
            &&& adopted.name == profile.name
            &&& adopted.bootstrap_servers == profile.bootstrap_servers
            &&& adopted.security == profile.security
            &&& adopted.ca_location == profile.ca_location
            &&& adopted.password == profile.password
            &&& (exists|k: int| 0 <= k < profiles.len() && (#[trigger] profiles[k]).name@ == profile.name@)
                ==> with_profile(profiles, adopted).len() == profiles.len() && exists|k: int|
                0 <= k < profiles.len() && (#[trigger] profiles[k]).name@ == profile.name@ && profiles[k].id
                    == adopted.id
            &&& !(exists|k: int| 0 <= k < profiles.len() && (#[trigger] profiles[k]).name@ == profile.name@)
                ==> adopted == profile
        }),
{
    profiles_are_found_at_their_first_place(profiles, profile.name@, 0);
    let adopted = with_known_id(profiles, profile);
    saving_keeps_the_others(profiles, adopted);
    if place_of_name(profiles, profile.name@, 0) is Some {
        let place = place_of_name(profiles, profile.name@, 0)->0;
        assert(profiles[place].name@ == profile.name@);
        assert(profiles[place].id@ == adopted.id@);
    }
}

/// Removing an id takes out its profiles, and no other: of one row and then of another it
/// leaves what it leaves of both, in their order.
pub proof fn removing_takes_out_an_id_alone(
    first: Seq<ConnectionProfile>,
    second: Seq<ConnectionProfile>,
    profile: ConnectionProfile,
    id: Seq<char>,
)
    ensures
        without_id(first + second, id) == without_id(first, id) + without_id(second, id),
        profile.id@ == id ==> without_id(seq![profile], id) == Seq::<ConnectionProfile>::empty(),
        profile.id@ != id ==> without_id(seq![profile], id) == seq![profile],
        forall|k: int| 0 <= k < without_id(second, id).len() ==> (#[trigger] without_id(second, id)[k]).id@ != id,
    decreases second.len(),
{
    let one = seq![profile];
    assert(one.drop_last() =~= Seq::empty());
    assert(without_id(one.drop_last(), id) =~= Seq::empty());
    assert(without_id(one, id) =~= if profile.id@ == id {
        Seq::empty()
    } else {
        one
    });
    if second.len() == 0 {
        assert(first + second =~= first);
        assert(without_id(first, id) + without_id(second, id) =~= without_id(first, id));
    } else {
        let rest = second.drop_last();
        removing_takes_out_an_id_alone(first, rest, profile, id);
        assert((first + second).drop_last() =~= first + rest);
        assert(without_id(first + second, id) =~= without_id(first, id) + without_id(second, id));
        assert forall|k: int| 0 <= k < without_id(second, id).len() implies (#[trigger] without_id(second, id)[k]).id@
            != id by {
            if k < without_id(rest, id).len() {
                assert(without_id(second, id)[k] == without_id(rest, id)[k]);
            }
        }
    }
}

/// What is written to the profiles file: each profile that is no passing one, in its order.
pub proof fn all_but_passing_profiles_are_kept(
    first: Seq<ConnectionProfile>,
    second: Seq<ConnectionProfile>,
    profile: ConnectionProfile,
)
    ensures
        kept_profiles(first + second) == kept_profiles(first) + kept_profiles(second),
        profile.id@ == "dev"@ || starts_with(profile.id@, "dev-"@) ==> kept_profiles(seq![profile]) == Seq::<
            ConnectionProfile,
        >::empty(),
        !(profile.id@ == "dev"@ || starts_with(profile.id@, "dev-"@)) ==> kept_profiles(seq![profile]) == seq![profile],
    decreases second.len(),
{
    reveal_strlit("dev");
    reveal_strlit("-");
    reveal_strlit("dev-");
    assert("dev-"@ =~= "dev"@ + "-"@);
    let one = seq![profile];
    assert(one.drop_last() =~= Seq::empty());
    assert(kept_profiles(one.drop_last()) =~= Seq::empty());
    assert(kept_profiles(one) =~= if is_passing(profile.id@) {
        Seq::empty()
    } else {
        one
    });
    if second.len() == 0 {
        assert(first + second =~= first);
        assert(kept_profiles(first) + kept_profiles(second) =~= kept_profiles(first));
    } else {
        let rest = second.drop_last();
        all_but_passing_profiles_are_kept(first, rest, profile);
        assert((first + second).drop_last() =~= first + rest);
        assert(kept_profiles(first + second) =~= kept_profiles(first) + kept_profiles(second));
    }
}

proof fn digits_are_not_letters_behind_f(n: nat)
    ensures
        forall|i: int| 0 <= i < hex(n).len() ==> hex(n)[i] != 'v',
    decreases n,
{
    assert(forall|d: nat| d < 16 ==> #[trigger] crate::text::digit_char(d) != 'v');
    if n >= 16 {
        digits_are_not_letters_behind_f(n / 16);
        assert(hex(n).drop_last() =~= hex(n / 16));
        assert forall|i: int| 0 <= i < hex(n).len() implies hex(n)[i] != 'v' by {
            if i < hex(n).len() - 1 {
                assert(hex(n)[i] == hex(n / 16)[i]);
            }
        }
    }
}

/// A profile with an id of its own is kept: such an id is never one of a passing profile.
pub proof fn new_ids_are_kept(nanos: nat, process: nat, sequence: nat)
    ensures
        !is_passing(profile_id(nanos, process, sequence)),
{
    digits_are_not_letters_behind_f(nanos);
    digits_are_not_letters_behind_f(process);
    digits_are_not_letters_behind_f(sequence);
    reveal_strlit("dev");
    reveal_strlit("-");
    let id = profile_id(nanos, process, sequence);
    assert forall|i: int| 0 <= i < id.len() implies id[i] != 'v' by {
        let a = hex(nanos).len() as int;
        let b = hex(process).len() as int;
        if i < a {
            assert(id[i] == hex(nanos)[i]);
        } else if i == a || i == a + 1 + b {
            assert(id[i] == '-');
        } else if i < a + 1 + b {
            assert(id[i] == hex(process)[i - a - 1]);
        } else {
            assert(id[i] == hex(sequence)[i - a - b - 2]);
        }
    }
    if is_passing(id) {
        assert("dev"@[2] == 'v');
        if id != "dev"@ {
            let start = "dev"@ + "-"@;
            assert(id.take(start.len() as int)[2] == start[2]);
        }
        assert(id[2] == 'v');
    }
}

/// Where the application keeps its files, below the home directory of its user.
pub proof fn files_lie_below_the_home_directory(home: Seq<char>)
    requires
        home.len() > 0,
        home.last() != '/',
    ensures
        support_path(Some(home)) == home + "/Library/Application Support/kafkamitter"@,
{
    reveal_strlit("/");
    reveal_strlit("Library");
    reveal_strlit("Application Support");
    reveal_strlit("kafkamitter");
    reveal_strlit("/Library/Application Support/kafkamitter");
    let first = home + "/"@ + "Library"@;
    assert(first.last() == 'y');
    let second = first + "/"@ + "Application Support"@;
    assert(second.last() == 't');
    assert(support_path(Some(home)) =~= home + "/Library/Application Support/kafkamitter"@);
}

/// A profile that is put into a row is in it, and those with other ids stay; one that is
/// removed is not, and those that are no passing ones are written.
pub proof fn rows_of_profiles_change_as_told(
    profiles: &mut Vec<ConnectionProfile>,
    profile: ConnectionProfile,
    id: &str,
    kept: Vec<ConnectionProfile>,
    written: Vec<ConnectionProfile>,
)
    requires
        call_ensures(put_profile, (profiles, profile), ()),
        call_ensures(remove_id, (&*final(profiles), id), kept),
        call_ensures(persisted, (&*final(profiles),), written),
    ensures
        final(profiles)@.contains(profile),
        forall|k: int|
            0 <= k < old(profiles)@.len() && (#[trigger] old(profiles)@[k]).id@ != profile.id@ ==> final(profiles)@[k]
                == old(profiles)@[k],
        forall|k: int| 0 <= k < kept@.len() ==> (#[trigger] kept@[k]).id@ != id@,
        forall|k: int|
            0 <= k < final(profiles)@.len() && (#[trigger] final(profiles)@[k]).id@ != id@ ==> kept@.contains(
                final(profiles)@[k],
            ),
        forall|k: int|
            0 <= k < final(profiles)@.len() && !is_passing((#[trigger] final(profiles)@[k]).id@) ==> written@.contains(
                final(profiles)@[k],
            ),
        forall|k: int| 0 <= k < written@.len() ==> !is_passing((#[trigger] written@[k]).id@),
{
    saving_keeps_the_others(old(profiles)@, profile);
    let row = final(profiles)@;
    removing_takes_out_an_id_alone(Seq::empty(), row, profile, id@);
    others_are_kept(row, id@);
    lasting_ones_are_written(row);
}

/// A connection with another id than the one that is taken out stays.
pub proof fn others_are_kept(profiles: Seq<ConnectionProfile>, id: Seq<char>)
    ensures
        forall|k: int|
            0 <= k < profiles.len() && (#[trigger] profiles[k]).id@ != id ==> without_id(profiles, id).contains(profiles[k]),
    decreases profiles.len(),
{
    if profiles.len() > 0 {
        let rest = profiles.drop_last();
        let before = without_id(rest, id);
        let all = without_id(profiles, id);
        others_are_kept(rest, id);
        assert forall|k: int| 0 <= k < profiles.len() && (#[trigger] profiles[k]).id@ != id implies all.contains(
            profiles[k],
        ) by {
            if k < rest.len() {
                assert(before.contains(rest[k]));
                let i = choose|i: int| 0 <= i < before.len() && before[i] == rest[k];
                assert(all[i] == profiles[k]);
            } else {
                assert(all[before.len() as int] == profiles[k]);
            }
        }
    }
}

proof fn lasting_ones_are_written(profiles: Seq<ConnectionProfile>)
    ensures
        forall|k: int|
            0 <= k < profiles.len() && !is_passing((#[trigger] profiles[k]).id@) ==> kept_profiles(profiles).contains(
                profiles[k],
            ),
        forall|k: int| 0 <= k < kept_profiles(profiles).len() ==> !is_passing((#[trigger] kept_profiles(profiles)[k]).id@),
    decreases profiles.len(),
{
    if profiles.len() > 0 {
        let rest = profiles.drop_last();
        let before = kept_profiles(rest);
        let all = kept_profiles(profiles);
        lasting_ones_are_written(rest);
        assert forall|k: int| 0 <= k < profiles.len() && !is_passing((#[trigger] profiles[k]).id@) implies all.contains(
            profiles[k],
        ) by {
            if k < rest.len() {
                assert(before.contains(rest[k]));
                let i = choose|i: int| 0 <= i < before.len() && before[i] == rest[k];
                assert(all[i] == profiles[k]);
            } else {
                assert(all[before.len() as int] == profiles[k]);
            }
        }
        assert forall|k: int| 0 <= k < all.len() implies !is_passing((#[trigger] all[k]).id@) by {
            if k < before.len() {
                assert(all[k] == before[k]);
            }
        }
    }
}

/// Two profiles are the same exactly where all that they say is, and a password is needed
/// exactly with a login.
pub proof fn profiles_are_compared_whole(a: &ConnectionProfile, b: &ConnectionProfile, same: bool, needed: bool)
    requires
        call_ensures(ConnectionProfile::same_as, (a, b), same),
        call_ensures(ConnectionProfile::needs_password, (a,), needed),
    ensures
        same <==> a.id@ == b.id@ && a.name@ == b.name@ && a.bootstrap_servers@ == b.bootstrap_servers@ && a.security@
            == b.security@ && option_view(a.ca_location) == option_view(b.ca_location) && option_view(a.password)
            == option_view(b.password),
        needed <==> a.security is SaslSsl,
{
}

/// A profile is found at its first place, by its id and by its name, and one that is imported
/// under a known name takes the id that this name has.
pub proof fn a_known_profile_is_found(
    profiles: &Vec<ConnectionProfile>,
    id: &str,
    by_id: Option<usize>,
    profile: ConnectionProfile,
    adopted: ConnectionProfile,
)
    requires
        call_ensures(find_id, (profiles, id), by_id),
        call_ensures(adopt_id, (profiles, profile), adopted),
    ensures
        by_id matches Some(p) ==> p < profiles@.len() && profiles@[p as int].id@ == id@,
        by_id is None ==> forall|k: int| 0 <= k < profiles@.len() ==> (#[trigger] profiles@[k]).id@ != id@,
        adopted.name == profile.name && adopted.bootstrap_servers == profile.bootstrap_servers && adopted.security
            == profile.security && adopted.password == profile.password,
        (exists|k: int| 0 <= k < profiles@.len() && (#[trigger] profiles@[k]).name@ == profile.name@) ==> exists|k: int|
            0 <= k < profiles@.len() && (#[trigger] profiles@[k]).id == adopted.id && profiles@[k].name@ == profile.name@,
        (forall|k: int| 0 <= k < profiles@.len() ==> (#[trigger] profiles@[k]).name@ != profile.name@) ==> adopted
            == profile,
{
    profiles_are_found_at_their_first_place(profiles@, id@, 0);
    a_name_stands_at_its_first_place(profiles@, profile.name@, 0);
}

proof fn a_name_stands_at_its_first_place(profiles: Seq<ConnectionProfile>, name: Seq<char>, from: int)
    requires
        0 <= from,
    ensures
        match place_of_name(profiles, name, from) {
            Some(place) => from <= place < profiles.len() && profiles[place].name@ == name,
            None => forall|k: int| from <= k < profiles.len() ==> (#[trigger] profiles[k]).name@ != name,
        },
    decreases profiles.len() - from,
{
    if from < profiles.len() {
        a_name_stands_at_its_first_place(profiles, name, from + 1);
    }
}

/// The files lie below the home directory, each under its own name.
pub proof fn each_file_has_its_place(home: Option<&str>, dir: String, connections: String, certificates: String)
    requires
        home is Some ==> home->0@.len() > 0,
        call_ensures(app_support_dir, (home,), dir),
        call_ensures(profiles_path, (home,), connections),
        call_ensures(ca_dir, (home,), certificates),
    ensures
        connections@ == path_join(dir@, "connections.json"@),
        certificates@ == path_join(dir@, "ca"@),
{
}

} // verus!
