//! The settings that the clients of a connection run with.

use rdkafka::ClientConfig;
use vstd::prelude::*;

use crate::model::profile::{
    hex_tells_apart, mechanism_name, slice_view, ConnectionProfile, ProfileView, Security, SecurityView,
};
use crate::model::properties::{
    brokers_and_protocol_are_imported, connection_of, named_credentials_are_imported, named_trust_stores_are_imported,
    the_named_mechanism_is_imported,
};
use crate::text::{ascii_uppered, decimal, decimal_text, hex, hex_text, joined, joined3, trim};

verus! {

/// `rdkafka::ClientConfig`: a collection of settings, each under its name.
#[verifier::external_type_specification]
#[verifier::external_body]
pub struct ExClientConfig(rdkafka::ClientConfig);

/// The settings that a configuration holds.
pub uninterp spec fn config_entries(config: ClientConfig) -> Map<Seq<char>, Seq<char>>;

/// No settings at all.
pub open spec fn no_entries() -> Map<Seq<char>, Seq<char>> {
    Map::empty()
}

/// `ClientConfig::new`: no setting is made.
#[verifier::external_body]
fn empty_config() -> (config: ClientConfig)
    ensures
        config_entries(config) == no_entries(),
{
    ClientConfig::new()
}

/// `ClientConfig::set`: one setting is made, over the one that was there; the others
/// stay.
#[verifier::external_body]
fn set(config: &mut ClientConfig, key: &str, value: &str)
    ensures
        config_entries(*final(config)) == config_entries(*old(config)).insert(key@, value@),
{
    config.set(key, value);
}

/// `ClientConfig::clone`: the same settings.
#[verifier::external_body]
fn copy_of(config: &ClientConfig) -> (copy: ClientConfig)
    ensures
        config_entries(copy) == config_entries(*config),
{
    config.clone()
}

/// What every client of a connection is told.
pub open spec fn basic_entries(profile: ProfileView) -> Map<Seq<char>, Seq<char>> {
    no_entries()
        .insert("bootstrap.servers"@, profile.bootstrap_servers)
        .insert("client.id"@, "kafkamitter"@)
        .insert("socket.keepalive.enable"@, "true"@)
        .insert("log.connection.close"@, "false"@)
}

/// The certificates by which a broker is known: the profile's own file comes before
/// the system's.
pub open spec fn with_roots(
    entries: Map<Seq<char>, Seq<char>>,
    ca_location: Option<Seq<char>>,
    system_ca_pem: Option<Seq<char>>,
) -> Map<Seq<char>, Seq<char>> {
    match (ca_location, system_ca_pem) {
        (Some(path), _) => entries.insert("ssl.ca.location"@, path),
        (None, Some(pem)) => entries.insert("ssl.ca.pem"@, pem),
        (None, None) => entries,
    }
}

/// The settings of a connection.
pub open spec fn base_entries(
    profile: ProfileView,
    password: Option<Seq<char>>,
    system_ca_pem: Option<Seq<char>>,
) -> Map<Seq<char>, Seq<char>> {
    match profile.security {
        SecurityView::Plaintext => basic_entries(profile).insert("security.protocol"@, "plaintext"@),
        SecurityView::SaslSsl { mechanism, username } => with_roots(
            basic_entries(profile)
                .insert("security.protocol"@, "sasl_ssl"@)
                .insert("sasl.mechanism"@, mechanism_name(mechanism))
                .insert("sasl.username"@, username)
                .insert("sasl.password"@, match password {
                    Some(text) => text,
                    None => ""@,
                }),
            profile.ca_location,
            system_ca_pem,
        ),
    }
}

/// The configuration of a connection. The system's certificates count only where the
/// profile names none.
pub fn base_config(
    profile: &ConnectionProfile,
    password: Option<&str>,
    system_ca_pem: Option<&str>,
) -> (config: ClientConfig)
    ensures
        config_entries(config) == base_entries(profile@, slice_view(password), slice_view(system_ca_pem)),
{
    let mut config = empty_config();
    set(&mut config, "bootstrap.servers", &profile.bootstrap_servers);
    set(&mut config, "client.id", "kafkamitter");
    set(&mut config, "socket.keepalive.enable", "true");
    set(&mut config, "log.connection.close", "false");
    match &profile.security {
        Security::Plaintext => {
            set(&mut config, "security.protocol", "plaintext");
        },
        Security::SaslSsl { mechanism, username } => {
            set(&mut config, "security.protocol", "sasl_ssl");
            set(&mut config, "sasl.mechanism", mechanism.kafka_name());
            set(&mut config, "sasl.username", username);
            set(&mut config, "sasl.password", match password {
                Some(text) => text,
                None => "",
            });
            match (&profile.ca_location, system_ca_pem) {
                (Some(path), _) => {
                    set(&mut config, "ssl.ca.location", path);
                },
                (None, Some(pem)) => {
                    set(&mut config, "ssl.ca.pem", pem);
                },
                (None, None) => {},
            }
        },
    }
    config
}

/// The group of a viewer: a new one for each process and time.
pub open spec fn viewer_group(process: nat, nanos: nat) -> Seq<char> {
    "kafkamitter-"@ + decimal(process as int) + "-"@ + hex(nanos)
}

/// The group of a viewer, from its process and the time in nanoseconds.
pub fn viewer_group_id(process: u32, nanos: u128) -> (group: String)
    ensures
        group@ == viewer_group(process as nat, nanos as nat),
{
    joined3(&joined("kafkamitter-", &decimal_text(process as i128)), "-", &hex_text(nanos))
}

/// The settings of a consumer that only looks: it never commits.
pub open spec fn viewer_entries(base: Map<Seq<char>, Seq<char>>, group: Seq<char>) -> Map<Seq<char>, Seq<char>> {
    base
        .insert("group.id"@, group)
        .insert("enable.auto.commit"@, "false"@)
        .insert("enable.auto.offset.store"@, "false"@)
        .insert("enable.partition.eof"@, "true"@)
        .insert("auto.offset.reset"@, "earliest"@)
        .insert("queued.max.messages.kbytes"@, "4096"@)
        .insert("queued.min.messages"@, "5000"@)
        .insert("fetch.wait.max.ms"@, "100"@)
}

pub fn viewer_consumer_config(base: &ClientConfig, process: u32, nanos: u128) -> (config: ClientConfig)
    ensures
        config_entries(config) == viewer_entries(config_entries(*base), viewer_group(process as nat, nanos as nat)),
{
    let mut config = copy_of(base);
    set(&mut config, "group.id", &viewer_group_id(process, nanos));
    set(&mut config, "enable.auto.commit", "false");
    set(&mut config, "enable.auto.offset.store", "false");
    set(&mut config, "enable.partition.eof", "true");
    set(&mut config, "auto.offset.reset", "earliest");
    set(&mut config, "queued.max.messages.kbytes", "4096");
    set(&mut config, "queued.min.messages", "5000");
    set(&mut config, "fetch.wait.max.ms", "100");
    config
}

/// The settings of a client that reads another group's offsets.
pub open spec fn group_reader_entries(base: Map<Seq<char>, Seq<char>>, group: Seq<char>) -> Map<Seq<char>, Seq<char>> {
    base
        .insert("group.id"@, group)
        .insert("enable.auto.commit"@, "false"@)
        .insert("enable.auto.offset.store"@, "false"@)
}

pub fn group_reader_config(base: &ClientConfig, group_id: &str) -> (config: ClientConfig)
    ensures
        config_entries(config) == group_reader_entries(config_entries(*base), group_id@),
{
    let mut config = copy_of(base);
    set(&mut config, "group.id", group_id);
    set(&mut config, "enable.auto.commit", "false");
    set(&mut config, "enable.auto.offset.store", "false");
    config
}

/// The settings of a client that sends: it waits until all copies are written, and not for
/// ever.
pub open spec fn producer_entries(base: Map<Seq<char>, Seq<char>>) -> Map<Seq<char>, Seq<char>> {
    base
        .insert("message.timeout.ms"@, "10000"@)
        .insert("acks"@, "all"@)
}

pub fn producer_config(base: &ClientConfig) -> (config: ClientConfig)
    ensures
        config_entries(config) == config_entries(*base)
            .insert("message.timeout.ms"@, "10000"@)
            .insert("acks"@, "all"@),
        config_entries(config) == producer_entries(config_entries(*base)),
{
    let mut config = copy_of(base);
    set(&mut config, "message.timeout.ms", "10000");
    set(&mut config, "acks", "all");
    config
}

// ---- laws ----

/// A connection without encryption is told no credentials and no certificates.
pub proof fn plaintext_holds_no_credentials(
    profile: ProfileView,
    password: Option<Seq<char>>,
    system_ca_pem: Option<Seq<char>>,
)
    requires
        profile.security is Plaintext,
    ensures
        ({
            let entries = base_entries(profile, password, system_ca_pem);
            &&& !entries.contains_key("sasl.username"@)
            &&& !entries.contains_key("sasl.password"@)
            &&& !entries.contains_key("sasl.mechanism"@)
            &&& !entries.contains_key("ssl.ca.pem"@)
            &&& !entries.contains_key("ssl.ca.location"@)
        }),
{
    names_are_distinct();
}

/// A profile's own certificates take the place of the system's.
pub proof fn own_certificates_come_first(
    profile: ProfileView,
    password: Option<Seq<char>>,
    system_ca_pem: Option<Seq<char>>,
)
    requires
        profile.security is SaslSsl,
        profile.ca_location is Some,
    ensures
        ({
            let entries = base_entries(profile, password, system_ca_pem);
            &&& entries["ssl.ca.location"@] == profile.ca_location->0
            &&& entries.contains_key("ssl.ca.location"@)
            &&& !entries.contains_key("ssl.ca.pem"@)
        }),
{
    names_are_distinct();
}

/// Neither a viewer nor a reader of groups commits offsets, whatever the connection
/// says.
pub proof fn viewers_never_commit(base: Map<Seq<char>, Seq<char>>, group: Seq<char>)
    ensures
        viewer_entries(base, group)["enable.auto.commit"@] == "false"@,
        viewer_entries(base, group)["enable.auto.offset.store"@] == "false"@,
        viewer_entries(base, group)["group.id"@] == group,
        group_reader_entries(base, group)["enable.auto.commit"@] == "false"@,
        group_reader_entries(base, group)["enable.auto.offset.store"@] == "false"@,
        group_reader_entries(base, group)["group.id"@] == group,
{
    names_are_distinct();
}

/// A viewer keeps the way to the brokers, its protocol and its credentials.
pub proof fn viewers_keep_the_connection(base: Map<Seq<char>, Seq<char>>, group: Seq<char>, key: Seq<char>)
    requires
        key == "bootstrap.servers"@ || key == "security.protocol"@ || key == "sasl.mechanism"@ || key
            == "sasl.username"@ || key == "sasl.password"@ || key == "ssl.ca.location"@ || key == "ssl.ca.pem"@,
    ensures
        viewer_entries(base, group).contains_key(key) == base.contains_key(key),
        base.contains_key(key) ==> viewer_entries(base, group)[key] == base[key],
{
    names_are_distinct();
}

/// A viewer's group is never one that another application uses by chance: it starts
/// with the client's name.
pub proof fn viewer_groups_are_marked(process: nat, nanos: nat)
    ensures
        crate::text::starts_with(viewer_group(process, nanos), "kafkamitter-"@),
{
    assert(viewer_group(process, nanos).take("kafkamitter-"@.len() as int) =~= "kafkamitter-"@);
}

/// A client is told the brokers of its profile and the protocol of its security; with a login
/// also the mechanism by its Kafka name, the user and the password, of which there may be
/// none.
pub proof fn a_profile_reaches_the_client(
    profile: ProfileView,
    password: Option<Seq<char>>,
    system_ca_pem: Option<Seq<char>>,
)
    ensures
        ({
            let entries = base_entries(profile, password, system_ca_pem);
            &&& entries.contains_key("bootstrap.servers"@) && entries["bootstrap.servers"@]
                == profile.bootstrap_servers
            &&& entries.contains_key("security.protocol"@)
            &&& profile.security is Plaintext ==> entries["security.protocol"@] == "plaintext"@
            &&& profile.security matches SecurityView::SaslSsl { mechanism, username } ==> {
                &&& entries["security.protocol"@] == "sasl_ssl"@
                &&& entries.contains_key("sasl.mechanism"@) && entries["sasl.mechanism"@] == mechanism_name(mechanism)
                &&& entries.contains_key("sasl.username"@) && entries["sasl.username"@] == username
                &&& entries.contains_key("sasl.password"@)
                &&& password matches Some(text) ==> entries["sasl.password"@] == text
                &&& password is None ==> entries["sasl.password"@] == ""@
            }
        }),
{
    names_are_distinct();
}

/// The system's certificates are told where the profile has none of its own, and only with
/// encryption.
pub proof fn system_certificates_fill_in(
    profile: ProfileView,
    password: Option<Seq<char>>,
    system_ca_pem: Option<Seq<char>>,
)
    requires
        profile.security is SaslSsl,
        profile.ca_location is None,
    ensures
        ({
            let entries = base_entries(profile, password, system_ca_pem);
            &&& !entries.contains_key("ssl.ca.location"@)
            &&& entries.contains_key("ssl.ca.pem"@) <==> system_ca_pem is Some
            &&& system_ca_pem matches Some(pem) ==> entries["ssl.ca.pem"@] == pem
        }),
{
    names_are_distinct();
}

/// A client of an imported connection logs in as the file says: to its brokers, with its
/// mechanism, its user and its password.
pub proof fn an_import_reaches_the_client(
    props: Map<Seq<char>, Seq<char>>,
    name: Seq<char>,
    id: Seq<char>,
    system_ca_pem: Option<Seq<char>>,
)
    requires
        connection_of(props, name, id) is Ok,
        connection_of(props, name, id)->Ok_0.profile.security is SaslSsl,
        props.contains_key("sasl.mechanism"@),
        props.contains_key("sasl.username"@),
        props.contains_key("sasl.password"@),
    ensures
        ({
            let imported = connection_of(props, name, id)->Ok_0;
            let entries = base_entries(imported.profile, imported.password, system_ca_pem);
            &&& entries["bootstrap.servers"@] == trim(props["bootstrap.servers"@])
            &&& entries["sasl.mechanism"@] == ascii_uppered(trim(props["sasl.mechanism"@]))
            &&& entries["sasl.username"@] == props["sasl.username"@]
            &&& entries["sasl.password"@] == props["sasl.password"@]
            &&& props.contains_key("ssl.ca.location"@) ==> entries["ssl.ca.location"@] == props["ssl.ca.location"@]
        }),
{
    let imported = connection_of(props, name, id)->Ok_0;
    the_named_mechanism_is_imported(props, name, id);
    named_credentials_are_imported(props, name, id);
    brokers_and_protocol_are_imported(props, name, id);
    named_trust_stores_are_imported(props);
    a_profile_reaches_the_client(imported.profile, imported.password, system_ca_pem);
    if props.contains_key("ssl.ca.location"@) {
        own_certificates_come_first(imported.profile, imported.password, system_ca_pem);
    }
}

/// A viewer hears of the end of each partition, and reads from the start where it knows no
/// other place.
pub proof fn viewers_hear_of_ends(base: Map<Seq<char>, Seq<char>>, group: Seq<char>)
    ensures
        viewer_entries(base, group).contains_key("enable.partition.eof"@),
        viewer_entries(base, group)["enable.partition.eof"@] == "true"@,
        viewer_entries(base, group).contains_key("auto.offset.reset"@),
        viewer_entries(base, group)["auto.offset.reset"@] == "earliest"@,
{
    names_are_distinct();
    reveal_strlit("auto.offset.reset");
    reveal_strlit("fetch.wait.max.ms");
    assert("auto.offset.reset"@[0] != "fetch.wait.max.ms"@[0]);
}

/// A reader of another group's offsets and a client that sends keep the way to the brokers,
/// its protocol and its credentials; the one that sends waits for all copies.
pub proof fn clients_keep_the_connection(base: Map<Seq<char>, Seq<char>>, group: Seq<char>, key: Seq<char>)
    requires
        key == "bootstrap.servers"@ || key == "security.protocol"@ || key == "sasl.mechanism"@ || key
            == "sasl.username"@ || key == "sasl.password"@ || key == "ssl.ca.location"@ || key == "ssl.ca.pem"@,
    ensures
        group_reader_entries(base, group).contains_key(key) == base.contains_key(key),
        base.contains_key(key) ==> group_reader_entries(base, group)[key] == base[key],
        producer_entries(base).contains_key(key) == base.contains_key(key),
        base.contains_key(key) ==> producer_entries(base)[key] == base[key],
        producer_entries(base)["acks"@] == "all"@,
{
    names_are_distinct();
    reveal_strlit("message.timeout.ms");
    reveal_strlit("acks");
    assert("message.timeout.ms"@.len() == 18);
    assert("acks"@.len() == 4);
}

/// Two viewers of one process at different times are in different groups.
pub proof fn viewer_groups_differ(process: nat, nanos: nat, other: nat)
    requires
        nanos != other,
    ensures
        viewer_group(process, nanos) != viewer_group(process, other),
{
    let a = viewer_group(process, nanos);
    let b = viewer_group(process, other);
    if a == b {
        let start = "kafkamitter-"@ + decimal(process as int) + "-"@;
        assert(a.skip(start.len() as int) =~= hex(nanos));
        assert(b.skip(start.len() as int) =~= hex(other));
        hex_tells_apart(nanos, other);
    }
}

/// A client is configured as its profile says: with its brokers, and with a login by the
/// mechanism, the user and the password of the profile; the system's certificates count where
/// the profile has none.
pub proof fn a_client_is_configured_as_its_profile_says(
    profile: &ConnectionProfile,
    password: Option<&str>,
    system_ca_pem: Option<&str>,
    config: ClientConfig,
)
    requires
        call_ensures(base_config, (profile, password, system_ca_pem), config),
    ensures
        ({
            let entries = config_entries(config);
            &&& entries["bootstrap.servers"@] == profile.bootstrap_servers@
            &&& profile.security is Plaintext ==> entries["security.protocol"@] == "plaintext"@
                && !entries.contains_key("sasl.password"@)
            &&& profile.security@ matches SecurityView::SaslSsl { mechanism, username } ==> {
                &&& entries["security.protocol"@] == "sasl_ssl"@
                &&& entries["sasl.mechanism"@] == mechanism_name(mechanism)
                &&& entries["sasl.username"@] == username
                &&& password matches Some(text) ==> entries["sasl.password"@] == text@
                &&& profile.ca_location matches Some(path) ==> entries["ssl.ca.location"@] == path@
                &&& profile.ca_location is None ==> (system_ca_pem matches Some(pem) ==> entries["ssl.ca.pem"@] == pem@)
            }
        }),
{
    let p = slice_view(password);
    let pem = slice_view(system_ca_pem);
    assert(profile@.security == profile.security@);
    assert(profile@.bootstrap_servers == profile.bootstrap_servers@);
    a_profile_reaches_the_client(profile@, p, pem);
    if profile.security is Plaintext {
        plaintext_holds_no_credentials(profile@, p, pem);
    } else if profile.ca_location is Some {
        own_certificates_come_first(profile@, p, pem);
    } else {
        system_certificates_fill_in(profile@, p, pem);
    }
}

/// A viewer and a reader of groups never commit; each is in the group that it was made for,
/// and a client that sends waits for all copies.
pub proof fn clients_are_configured_for_their_work(
    base: &ClientConfig,
    process: u32,
    nanos: u128,
    viewer: ClientConfig,
    group: &str,
    reader: ClientConfig,
    producer: ClientConfig,
)
    requires
        call_ensures(viewer_consumer_config, (base, process, nanos), viewer),
        call_ensures(group_reader_config, (base, group), reader),
        call_ensures(producer_config, (base,), producer),
    ensures
        config_entries(viewer)["enable.auto.commit"@] == "false"@,
        config_entries(viewer)["enable.auto.offset.store"@] == "false"@,
        config_entries(viewer)["enable.partition.eof"@] == "true"@,
        config_entries(viewer)["group.id"@] == viewer_group(process as nat, nanos as nat),
        config_entries(reader)["enable.auto.commit"@] == "false"@,
        config_entries(reader)["enable.auto.offset.store"@] == "false"@,
        config_entries(reader)["group.id"@] == group@,
        config_entries(producer)["acks"@] == "all"@,
{
    let entries = config_entries(*base);
    viewers_never_commit(entries, viewer_group(process as nat, nanos as nat));
    viewers_never_commit(entries, group@);
    viewers_hear_of_ends(entries, viewer_group(process as nat, nanos as nat));
    clients_keep_the_connection(entries, group@, "sasl.password"@);
}

proof fn names_are_distinct()
    ensures
        "bootstrap.servers"@.len() == 17,
        "client.id"@.len() == 9,
        "socket.keepalive.enable"@.len() == 23,
        "log.connection.close"@.len() == 20,
        "security.protocol"@.len() == 17,
        "security.protocol"@[0] != "bootstrap.servers"@[0],
        "sasl.mechanism"@.len() == 14,
        "sasl.username"@.len() == 13,
        "sasl.password"@.len() == 13,
        "sasl.username"@[5] != "sasl.password"@[5],
        "ssl.ca.location"@.len() == 15,
        "ssl.ca.pem"@.len() == 10,
        "group.id"@.len() == 8,
        "enable.auto.commit"@.len() == 18,
        "enable.auto.offset.store"@.len() == 24,
        "enable.partition.eof"@.len() == 20,
        "auto.offset.reset"@.len() == 17,
        "auto.offset.reset"@[0] != "bootstrap.servers"@[0],
        "auto.offset.reset"@[0] != "security.protocol"@[0],
        "queued.max.messages.kbytes"@.len() == 26,
        "queued.min.messages"@.len() == 19,
        "fetch.wait.max.ms"@.len() == 17,
        "fetch.wait.max.ms"@[0] != "bootstrap.servers"@[0],
        "fetch.wait.max.ms"@[0] != "security.protocol"@[0],
{
    reveal_strlit("bootstrap.servers");
    reveal_strlit("client.id");
    reveal_strlit("socket.keepalive.enable");
    reveal_strlit("log.connection.close");
    reveal_strlit("security.protocol");
    reveal_strlit("sasl.mechanism");
    reveal_strlit("sasl.username");
    reveal_strlit("sasl.password");
    reveal_strlit("ssl.ca.location");
    reveal_strlit("ssl.ca.pem");
    reveal_strlit("group.id");
    reveal_strlit("enable.auto.commit");
    reveal_strlit("enable.auto.offset.store");
    reveal_strlit("enable.partition.eof");
    reveal_strlit("auto.offset.reset");
    reveal_strlit("queued.max.messages.kbytes");
    reveal_strlit("queued.min.messages");
    reveal_strlit("fetch.wait.max.ms");
}

} // verus!
