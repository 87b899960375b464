//! The form of a connection.

use vstd::prelude::*;

use crate::model::profile::{
    slice_view, ConnectionProfile, ProfileView, SaslMechanism, Security, SecurityView,
};
use crate::text::{a_trimmed_string_has_no_outer_white, joined, option_view, trim, trimmed};

verus! {

/// The choices of a connection's security.
pub const SECURITY_OPTIONS: [&'static str; 2] = ["PLAINTEXT", "SASL_SSL"];

/// The place of a mechanism among all of them.
pub open spec fn place_of(mechanism: SaslMechanism) -> int {
    match mechanism {
        SaslMechanism::Plain => 0,
        SaslMechanism::ScramSha256 => 1,
        SaslMechanism::ScramSha512 => 2,
    }
}

/// The mechanism at a place; behind the last one it is the last.
pub open spec fn mechanism_at(place: int) -> SaslMechanism {
    if place <= 0 {
        SaslMechanism::Plain
    } else if place == 1 {
        SaslMechanism::ScramSha256
    } else {
        SaslMechanism::ScramSha512
    }
}

/// What a form holds. The choices are places in their lists.
pub struct ConnectionForm {
    pub existing_id: Option<String>,
    pub name: String,
    pub servers: String,
    pub security: Option<usize>,
    pub mechanism: Option<usize>,
    pub username: String,
    pub password: String,
    pub ca_location: String,
}

/// A form with its strings as characters.
pub struct FormView {
    pub existing_id: Option<Seq<char>>,
    pub name: Seq<char>,
    pub servers: Seq<char>,
    pub security: Option<usize>,
    pub mechanism: Option<usize>,
    pub username: Seq<char>,
    pub password: Seq<char>,
    pub ca_location: Seq<char>,
}

impl View for ConnectionForm {
    type V = FormView;

    open spec fn view(&self) -> FormView {
        FormView {
            existing_id: option_view(self.existing_id),
            name: self.name@,
            servers: self.servers@,
            security: self.security,
            mechanism: self.mechanism,
            username: self.username@,
            password: self.password@,
            ca_location: self.ca_location@,
        }
    }
}

/// The characters of a string that may be missing.
pub open spec fn or_empty(text: Option<Seq<char>>) -> Seq<char> {
    match text {
        Some(t) => t,
        None => Seq::empty(),
    }
}

/// The form of a new connection.
pub open spec fn blank_form(password: Option<Seq<char>>) -> FormView {
    FormView {
        existing_id: None,
        name: Seq::empty(),
        servers: Seq::empty(),
        security: Some(0),
        mechanism: Some(0),
        username: Seq::empty(),
        password: or_empty(password),
        ca_location: Seq::empty(),
    }
}

/// The form of a connection that there is.
pub open spec fn form_of(profile: ProfileView, password: Option<Seq<char>>) -> FormView {
    FormView {
        existing_id: Some(profile.id),
        name: profile.name,
        servers: profile.bootstrap_servers,
        security: Some(
            if profile.security is SaslSsl {
                1
            } else {
                0
            },
        ),
        mechanism: Some(
            match profile.security {
                SecurityView::SaslSsl { mechanism, .. } => place_of(mechanism) as usize,
                SecurityView::Plaintext => 0,
            },
        ),
        username: match profile.security {
            SecurityView::SaslSsl { username, .. } => username,
            SecurityView::Plaintext => Seq::empty(),
        },
        password: or_empty(password),
        ca_location: or_empty(profile.ca_location),
    }
}

/// Why a form is not a connection.
pub open spec fn complaint(form: FormView) -> Option<Seq<char>> {
    if trim(form.servers).len() == 0 {
        Some("Bootstrap servers must not be empty"@)
    } else if form.security == Some(1usize) && trim(form.username).len() == 0 {
        Some("Username must not be empty for SASL_SSL"@)
    } else {
        None
    }
}

/// The connection that a form holds, with an id for a new one.
pub open spec fn profile_of(form: FormView, fresh_id: Seq<char>) -> ProfileView {
    let sasl = form.security == Some(1usize);
    ProfileView {
        id: match form.existing_id {
            Some(id) => id,
            None => fresh_id,
        },
        name: if trim(form.name).len() == 0 {
            trim(form.servers)
        } else {
            trim(form.name)
        },
        bootstrap_servers: trim(form.servers),
        security: if sasl {
            SecurityView::SaslSsl {
                mechanism: match form.mechanism {
                    Some(place) => mechanism_at(place as int),
                    None => SaslMechanism::Plain,
                },
                username: trim(form.username),
            }
        } else {
            SecurityView::Plaintext
        },
        ca_location: if trim(form.ca_location).len() == 0 {
            None
        } else {
            Some(trim(form.ca_location))
        },
        password: if sasl {
            Some(form.password)
        } else {
            None
        },
    }
}

fn empty_text() -> (text: String)
    ensures
        text@ == Seq::<char>::empty(),
{
    let text = String::new();
    assert(text@ =~= Seq::<char>::empty());
    text
}

fn text_or_empty(text: Option<&str>) -> (copy: String)
    ensures
        copy@ == or_empty(slice_view(text)),
{
    match text {
        Some(t) => t.to_owned(),
        None => empty_text(),
    }
}

impl ConnectionForm {
    /// The form of a connection that there is, or of a new one.
    pub fn new(existing: Option<&ConnectionProfile>, password: Option<&str>) -> (form: Self)
        ensures
            form@ == (match existing {
                Some(profile) => form_of(profile@, slice_view(password)),
                None => blank_form(slice_view(password)),
            }),
    {
        let secret = text_or_empty(password);
        match existing {
            None => ConnectionForm {
                existing_id: None,
                name: empty_text(),
                servers: empty_text(),
                security: Some(0),
                mechanism: Some(0),
                username: empty_text(),
                password: secret,
                ca_location: empty_text(),
            },
            Some(profile) => {
                let (security, mechanism, username): (usize, usize, String) = match &profile.security {
                    Security::SaslSsl { mechanism, username } => {
                        let place: usize = match mechanism {
                            SaslMechanism::Plain => 0,
                            SaslMechanism::ScramSha256 => 1,
                            SaslMechanism::ScramSha512 => 2,
                        };
                        (1, place, username.clone())
                    },
                    Security::Plaintext => (0, 0, empty_text()),
                };
                let ca_location: String = match &profile.ca_location {
                    Some(path) => path.clone(),
                    None => empty_text(),
                };
                ConnectionForm {
                    existing_id: Some(profile.id.clone()),
                    name: profile.name.clone(),
                    servers: profile.bootstrap_servers.clone(),
                    security: Some(security),
                    mechanism: Some(mechanism),
                    username,
                    password: secret,
                    ca_location,
                }
            },
        }
    }

    pub fn set_name(&mut self, name: &str)
        ensures
            final(self)@ == (FormView { name: name@, ..old(self)@ }),
    {
        self.name = name.to_owned();
    }

    /// Whether the connection is to be encrypted, with a login.
    pub fn uses_sasl(&self) -> (sasl: bool)
        ensures
            sasl == (self@.security == Some(1usize)),
    {
        match self.security {
            Some(place) => place == 1,
            None => false,
        }
    }

    /// The connection that the form holds and the password that goes with it, or why it
    /// holds none. A new connection takes the given id.
    pub fn build(&self, fresh_id: String) -> (built: Result<(ConnectionProfile, Option<String>), String>)
        ensures
            match built {
                Ok((profile, password)) => complaint(self@) is None && profile@ == profile_of(self@, fresh_id@)
                    && option_view(password) == profile@.password,
                Err(message) => complaint(self@) == Some(message@),
            },
    {
        let servers = trimmed(&self.servers);
        if servers.as_str().is_empty() {
            return Err("Bootstrap servers must not be empty".to_owned());
        }
        let given = trimmed(&self.name);
        let name: String = if given.as_str().is_empty() { servers.clone() } else { given };
        let ca_location = trimmed(&self.ca_location);
        let location: Option<String> = if ca_location.as_str().is_empty() { None } else { Some(ca_location) };
        let id: String = match &self.existing_id {
            Some(existing) => existing.clone(),
            None => fresh_id,
        };
        if self.uses_sasl() {
            let username = trimmed(&self.username);
            if username.as_str().is_empty() {
                return Err("Username must not be empty for SASL_SSL".to_owned());
            }
            let place: usize = match self.mechanism {
                Some(p) => p,
                None => 0,
            };
            let mechanism: SaslMechanism = if place == 0 {
                SaslMechanism::Plain
            } else if place == 1 {
                SaslMechanism::ScramSha256
            } else {
                SaslMechanism::ScramSha512
            };
            let profile = ConnectionProfile {
                id,
                name,
                bootstrap_servers: servers,
                security: Security::SaslSsl { mechanism, username },
                ca_location: location,
                password: Some(self.password.clone()),
            };
            Ok((profile, Some(self.password.clone())))
        } else {
            let profile = ConnectionProfile {
                id,
                name,
                bootstrap_servers: servers,
                security: Security::Plaintext,
                ca_location: location,
                password: None,
            };
            Ok((profile, None))
        }
    }
}

/// Whether a connection is as a form leaves it: without white space around its parts,
/// with servers and a name, and with a login exactly where it is encrypted.
pub open spec fn is_tidy(profile: ProfileView) -> bool {
    &&& trim(profile.name) == profile.name && profile.name.len() > 0
    &&& trim(profile.bootstrap_servers) == profile.bootstrap_servers && profile.bootstrap_servers.len() > 0
    &&& match profile.security {
        SecurityView::SaslSsl { username, .. } => trim(username) == username && username.len() > 0
            && profile.password is Some,
        SecurityView::Plaintext => profile.password is None,
    }
    &&& match profile.ca_location {
        Some(path) => trim(path) == path && path.len() > 0,
        None => true,
    }
}

proof fn trimming_again_changes_nothing(s: Seq<char>)
    ensures
        trim(trim(s)) == trim(s),
{
    a_trimmed_string_has_no_outer_white(s);
}

/// What a form holds as a connection is tidy.
pub proof fn a_built_connection_is_tidy(form: FormView, fresh_id: Seq<char>)
    requires
        complaint(form) is None,
    ensures
        is_tidy(profile_of(form, fresh_id)),
{
    trimming_again_changes_nothing(form.name);
    trimming_again_changes_nothing(form.servers);
    trimming_again_changes_nothing(form.username);
    trimming_again_changes_nothing(form.ca_location);
}

/// A connection that is edited and saved without a change stays as it is.
pub proof fn editing_nothing_changes_nothing(profile: ProfileView, fresh_id: Seq<char>)
    requires
        is_tidy(profile),
    ensures
        complaint(form_of(profile, profile.password)) is None,
        profile_of(form_of(profile, profile.password), fresh_id) == profile,
{
    let form = form_of(profile, profile.password);
    assert(trim(Seq::<char>::empty()) =~= Seq::<char>::empty());
    assert(profile_of(form, fresh_id).security == profile.security);
}

/// The title of the form.
pub fn form_title(editing: bool) -> (title: &'static str)
    ensures
        title@ == (if editing {
            "Edit connection"@
        } else {
            "New connection"@
        }),
{
    if editing {
        "Edit connection"
    } else {
        "New connection"
    }
}

/// What is said when a connection was saved, or could not be. Only a saved one closes
/// the form.
pub fn save_report(name: &str, saved: Result<(), String>) -> (report: Result<String, String>)
    ensures
        match saved {
            Ok(_) => report matches Ok(text) && text@ == "Saved "@ + name@,
            Err(reason) => report matches Err(text) && text@ == "Cannot save the connection: "@ + reason@,
        },
{
    match saved {
        Ok(_) => Ok(joined("Saved ", name)),
        Err(reason) => Err(joined("Cannot save the connection: ", &reason)),
    }
}

/// A mechanism stands in the list of choices at its place, and the choice of a place is the
/// mechanism that stands there.
pub proof fn mechanisms_stand_at_their_places(mechanism: SaslMechanism, place: int)
    requires
        0 <= place < 3,
    ensures
        0 <= place_of(mechanism) < 3,
        SaslMechanism::ALL[place_of(mechanism)] == mechanism,
        mechanism_at(place_of(mechanism)) == mechanism,
        mechanism_at(place) == SaslMechanism::ALL[place],
{
}

/// A form becomes the connection that it shows: its servers and its name without white space
/// around them, the servers as a name where it has none, a login exactly where it is chosen,
/// and a certificate file where one is written.
pub proof fn a_form_becomes_what_it_shows(form: FormView, fresh_id: Seq<char>)
    ensures
        ({
            let profile = profile_of(form, fresh_id);
            &&& profile.bootstrap_servers == trim(form.servers)
            &&& trim(form.name).len() > 0 ==> profile.name == trim(form.name)
            &&& trim(form.name).len() == 0 ==> profile.name == trim(form.servers)
            &&& form.existing_id matches Some(id) ==> profile.id == id
            &&& form.existing_id is None ==> profile.id == fresh_id
            &&& profile.security is SaslSsl <==> form.security == Some(1usize)
            &&& profile.security matches SecurityView::SaslSsl { mechanism, username } ==> {
                &&& username == trim(form.username)
                &&& profile.password == Some(form.password)
                &&& form.mechanism matches Some(place) ==> (place < 3 ==> mechanism == SaslMechanism::ALL[place as int])
            }
            &&& profile.security is Plaintext ==> profile.password is None
            &&& trim(form.ca_location).len() > 0 ==> profile.ca_location == Some(trim(form.ca_location))
            &&& trim(form.ca_location).len() == 0 ==> profile.ca_location is None
        }),
{
}

/// A form is refused where it has no servers, or a login without a user; and only there.
pub proof fn complete_forms_are_connections(form: FormView)
    ensures
        complaint(form) is None <==> trim(form.servers).len() > 0 && (form.security == Some(1usize) ==> trim(
            form.username,
        ).len() > 0),
{
}

/// The form of a connection shows it: its servers, its name, its login and its certificates,
/// with the password that goes with it.
pub proof fn a_form_shows_its_connection(profile: ProfileView, password: Option<Seq<char>>)
    ensures
        ({
            let form = form_of(profile, password);
            &&& form.existing_id == Some(profile.id)
            &&& form.name == profile.name && form.servers == profile.bootstrap_servers
            &&& form.security == Some(1usize) <==> profile.security is SaslSsl
            &&& profile.security matches SecurityView::SaslSsl { mechanism, username } ==> form.username == username && (
            form.mechanism matches Some(place) && place < 3 && SaslMechanism::ALL[place as int] == mechanism)
            &&& password matches Some(text) ==> form.password == text
            &&& password is None ==> form.password.len() == 0
            &&& profile.ca_location matches Some(path) ==> form.ca_location == path
        }),
{
}

/// What is built is what the form says, and the password comes with it.
pub proof fn a_built_form_is_its_connection(
    form: &ConnectionForm,
    fresh_id: String,
    built: Result<(ConnectionProfile, Option<String>), String>,
)
    requires
        call_ensures(ConnectionForm::build, (form, fresh_id), built),
    ensures
        built is Ok <==> trim(form.servers@).len() > 0 && (form.security == Some(1usize) ==> trim(form.username@).len()
            > 0),
        built matches Ok((profile, password)) ==> {
            &&& profile.bootstrap_servers@ == trim(form.servers@)
            &&& form.existing_id is None ==> profile.id@ == fresh_id@
            &&& form.security == Some(1usize) ==> profile.security is SaslSsl && option_view(password) == Some(
                form.password@,
            )
            &&& form.security != Some(1usize) ==> profile.security is Plaintext && password is None
            &&& option_view(profile.password) == option_view(password)
        },
{
    complete_forms_are_connections(form@);
    if built is Ok {
        let (profile, password) = built->Ok_0;
        a_form_becomes_what_it_shows(form@, fresh_id@);
        assert(profile@.id == profile.id@);
        assert(profile@.bootstrap_servers == profile.bootstrap_servers@);
        assert(profile@.security == profile.security@);
        assert(profile@.password == option_view(profile.password));
    }
}

/// A name that is set is the form's name, and nothing else of the form changes; a form with a
/// login is told apart.
pub proof fn a_set_name_is_the_name(form: &mut ConnectionForm, name: &str, sasl: bool)
    requires
        call_ensures(ConnectionForm::set_name, (form, name), ()),
        call_ensures(ConnectionForm::uses_sasl, (&*final(form),), sasl),
    ensures
        final(form)@.name == name@,
        final(form)@.servers == old(form)@.servers && final(form)@.username == old(form)@.username
            && final(form)@.existing_id == old(form)@.existing_id,
        sasl <==> old(form)@.security == Some(1usize),
{
}

/// Saving is reported with the name, or with the reason why it failed.
pub proof fn saving_is_reported(name: &str, saved: Result<(), String>, report: Result<String, String>, editing: bool, title: &'static str)
    requires
        call_ensures(save_report, (name, saved), report),
        call_ensures(form_title, (editing,), title),
    ensures
        report is Ok <==> saved is Ok,
        report matches Ok(text) ==> crate::text::ends_with(text@, name@),
        report matches Err(text) ==> (saved matches Err(reason) && crate::text::ends_with(text@, reason@)),
        editing <==> title@ == "Edit connection"@,
{
    reveal_strlit("Edit connection");
    reveal_strlit("New connection");
    assert("Edit connection"@.len() != "New connection"@.len());
    match saved {
        Ok(_) => {
            let text = "Saved "@ + name@;
            assert(text.skip(text.len() - name@.len()) =~= name@);
        },
        Err(reason) => {
            let text = "Cannot save the connection: "@ + reason@;
            assert(text.skip(text.len() - reason@.len()) =~= reason@);
        },
    }
}

/// A form that is no connection is refused for its first empty entry, and this is said.
pub proof fn a_refused_form_is_told_why(
    form: &ConnectionForm,
    fresh_id: String,
    built: Result<(ConnectionProfile, Option<String>), String>,
)
    requires
        call_ensures(ConnectionForm::build, (form, fresh_id), built),
    ensures
        trim(form@.servers).len() == 0 ==> (built matches Err(message) && message@
            == "Bootstrap servers must not be empty"@),
        built matches Err(message) ==> (trim(form@.servers).len() > 0 ==> message@
            == "Username must not be empty for SASL_SSL"@),
{
}

} // verus!
