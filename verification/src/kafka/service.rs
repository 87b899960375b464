//! The connections that are open, by profile.

use vstd::prelude::*;

use crate::kafka::config::{
    base_entries, own_certificates_come_first, plaintext_holds_no_credentials, system_certificates_fill_in,
};
use crate::model::profile::ConnectionProfile;
use crate::text_map::TextMap;

verus! {

/// The handles of the workers that run, each under its profile's id.
pub struct KafkaService<H> {
    workers: TextMap<H>,
}

/// Whether a connection checks its broker against the system's certificates: it is
/// encrypted and names no certificates of its own.
pub fn needs_system_roots(profile: &ConnectionProfile) -> (needed: bool)
    ensures
        needed == (profile@.security is SaslSsl && profile@.ca_location is None),
{
    profile.needs_password() && profile.ca_location.is_none()
}

impl<H> KafkaService<H> {
    pub closed spec fn handles(&self) -> Map<Seq<char>, H> {
        self.workers@
    }

    pub closed spec fn wf(&self) -> bool {
        self.workers.wf()
    }

    pub fn new() -> (service: Self)
        ensures
            service.wf(),
            service.handles() == Map::<Seq<char>, H>::empty(),
    {
        KafkaService { workers: TextMap::new() }
    }

    /// The handle of a profile's worker, where one runs.
    pub fn existing(&self, profile_id: &str) -> (handle: Option<&H>)
        requires
            self.wf(),
        ensures
            match handle {
                Some(h) => self.handles().contains_key(profile_id@) && *h == self.handles()[profile_id@],
                None => !self.handles().contains_key(profile_id@),
            },
    {
        self.workers.get(profile_id)
    }

    /// The worker of a profile: the one that runs already, or else the new one, which
    /// is then kept. A new one that is not needed is handed back.
    pub fn worker(&mut self, profile: &ConnectionProfile, fresh: H) -> (unused: Option<H>)
        requires
            old(self).wf(),
        ensures
            final(self).wf(),
            if old(self).handles().contains_key(profile@.id) {
                final(self).handles() == old(self).handles() && unused == Some(fresh)
            } else {
                final(self).handles() == old(self).handles().insert(profile@.id, fresh) && unused is None
            },
    {
        if self.workers.contains_key(&profile.id) {
            return Some(fresh);
        }
        self.workers.insert(profile.id.clone(), fresh);
        None
    }

    /// Takes a profile's worker out, where one runs.
    pub fn disconnect(&mut self, profile_id: &str) -> (handle: Option<H>)
        requires
            old(self).wf(),
        ensures
            final(self).wf(),
            final(self).handles() == old(self).handles().remove(profile_id@),
            match handle {
                Some(h) => old(self).handles().contains_key(profile_id@) && h == old(self).handles()[profile_id@],
                None => !old(self).handles().contains_key(profile_id@),
            },
    {
        self.workers.remove(profile_id)
    }

    pub fn is_connected(&self, profile_id: &str) -> (connected: bool)
        requires
            self.wf(),
        ensures
            connected == self.handles().contains_key(profile_id@),
    {
        self.workers.contains_key(profile_id)
    }
}

// ---- laws ----

/// A worker that runs is kept, and a new one is taken where none runs; either is then found
/// under the profile's id, and no other connection changes.
pub proof fn a_running_worker_is_kept<H>(
    service: &mut KafkaService<H>,
    profile: &ConnectionProfile,
    fresh: H,
    unused: Option<H>,
)
    requires
        call_ensures(KafkaService::<H>::worker, (service, profile, fresh), unused),
    ensures
        final(service).handles().contains_key(profile@.id),
        old(service).handles().contains_key(profile@.id) ==> final(service).handles()[profile@.id]
            == old(service).handles()[profile@.id] && unused == Some(fresh),
        !old(service).handles().contains_key(profile@.id) ==> final(service).handles()[profile@.id] == fresh
            && unused is None,
        forall|id: Seq<char>|
            id != profile@.id ==> (#[trigger] final(service).handles().contains_key(id) <==> old(service).handles().contains_key(id)),
{
}

/// A connection that is given up has no worker any more, and the one it had is handed out.
pub proof fn a_given_up_worker_is_handed_out<H>(service: &mut KafkaService<H>, id: &str, handle: Option<H>)
    requires
        call_ensures(KafkaService::<H>::disconnect, (service, id), handle),
    ensures
        !final(service).handles().contains_key(id@),
        handle is Some <==> old(service).handles().contains_key(id@),
        handle matches Some(h) ==> h == old(service).handles()[id@],
{
}

/// The system's certificates are needed exactly where a client would be told them.
pub proof fn system_certificates_are_read_where_they_are_told(
    profile: &ConnectionProfile,
    needed: bool,
    password: Option<Seq<char>>,
    pem: Seq<char>,
)
    requires
        call_ensures(needs_system_roots, (profile,), needed),
    ensures
        needed <==> base_entries(profile@, password, Some(pem)).contains_key("ssl.ca.pem"@),
{
    if profile@.security is Plaintext {
        plaintext_holds_no_credentials(profile@, password, Some(pem));
    } else if profile@.ca_location is Some {
        own_certificates_come_first(profile@, password, Some(pem));
    } else {
        system_certificates_fill_in(profile@, password, Some(pem));
    }
}

/// A connection has a worker from when it gets one to when it is given up.
pub proof fn a_worker_is_there_until_it_is_given_up<H>(
    service: &mut KafkaService<H>,
    id: &str,
    handle: Option<&H>,
    connected: bool,
    given_up: Option<H>,
    still: bool,
)
    requires
        call_ensures(KafkaService::<H>::existing, (&*old(service), id), handle),
        call_ensures(KafkaService::<H>::is_connected, (&*old(service), id), connected),
        call_ensures(KafkaService::<H>::disconnect, (service, id), given_up),
        call_ensures(KafkaService::<H>::is_connected, (&*final(service), id), still),
    ensures
        connected <==> handle is Some,
        handle matches Some(h) ==> given_up == Some(*h),
        handle is None ==> given_up is None,
        !still,
{
}

} // verus!
