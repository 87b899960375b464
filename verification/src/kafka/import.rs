//! Importing a connection from a file, and checking that it works.

use std::time::Duration;

use vstd::prelude::*;

use crate::kafka::certs::{bundle, pem_bundle};
use crate::kafka::groups::GroupSummary;
use crate::kafka::metadata::ClusterInfo;
use crate::model::jks::{
    block_at, certificate_at, certificate_views, certificates_at, entry_at, error_text, store_certificates,
    trusted_certificates, CertificateView, JksCertificate,
};
use crate::model::properties::{ImportedConnection, TrustStore, TrustStoreView};
use crate::path::{join_path, path_join};
use crate::text::{chars_of, joined, joined3, string_of};

verus! {

/// The name of an imported connection: that of its file, or else a general one.
pub fn import_name(file_stem: Option<&str>) -> (name: String)
    ensures
        name@ == (match file_stem {
            Some(stem) => stem@,
            None => "imported"@,
        }),
{
    match file_stem {
        Some(stem) => stem.to_owned(),
        None => "imported".to_owned(),
    }
}

/// What has to be done about the trust store of an imported connection.
#[derive(Debug, PartialEq, Eq)]
pub enum TrustStep {
    /// Nothing.
    Ready,
    /// The key store is to be converted.
    Convert(String),
    /// The file has to be there.
    CheckExists(String),
    /// The connection cannot be imported.
    Refuse(String),
}

/// What has to be done about a trust store.
pub fn trust_step(imported: &ImportedConnection) -> (step: TrustStep)
    ensures
        match imported@.trust_store {
            None => step == TrustStep::Ready,
            Some(TrustStoreView::Jks { path }) => step matches TrustStep::Convert(store) && store@ == path,
            Some(TrustStoreView::Pem(path)) => step matches TrustStep::CheckExists(file) && file@ == path,
            Some(TrustStoreView::Pkcs12 { path, .. }) => step matches TrustStep::Refuse(message) && message@
                == "truststore "@ + path + " is PKCS12; convert it to PEM and set ssl.ca.location"@,
        },
{
    match &imported.trust_store {
        None => TrustStep::Ready,
        Some(TrustStore::Jks { path }) => TrustStep::Convert(path.clone()),
        Some(TrustStore::Pem(path)) => TrustStep::CheckExists(path.clone()),
        Some(TrustStore::Pkcs12 { path, .. }) => TrustStep::Refuse(
            joined3("truststore ", path, " is PKCS12; convert it to PEM and set ssl.ca.location"),
        ),
    }
}

/// What is reported of a certificate file that is not there.
pub fn missing_ca_message(path: &str) -> (message: String)
    ensures
        message@ == "CA file "@ + path@ + " does not exist"@,
{
    joined3("CA file ", path, " does not exist")
}

/// The imported connection with the file that its certificates were written to.
pub fn with_ca_location(imported: ImportedConnection, path: String) -> (placed: ImportedConnection)
    ensures
        placed.profile@ == (crate::model::profile::ProfileView { ca_location: Some(path@), ..imported.profile@ }),
        placed.password == imported.password,
        placed.trust_store == imported.trust_store,
{
    let mut placed = imported;
    placed.profile.ca_location = Some(path);
    placed
}

/// A character as it stands in a file's name.
pub open spec fn file_char(c: char) -> char {
    if 'a' <= c <= 'z' || 'A' <= c <= 'Z' || '0' <= c <= '9' || c == '-' || c == '_' {
        c
    } else {
        '_'
    }
}

/// The name of the file for a connection.
pub open spec fn stem_for(name: Seq<char>) -> Seq<char> {
    if name.len() == 0 {
        "connection"@
    } else {
        name.map_values(|c: char| file_char(c))
    }
}

/// The name of the file for a connection: letters and digits stay, and an underscore
/// stands for anything else.
pub fn file_stem_for(name: &str) -> (stem: String)
    ensures
        stem@ == stem_for(name@),
{
    let chars = chars_of(name);
    if chars.len() == 0 {
        return "connection".to_owned();
    }
    let ghost wanted = stem_for(name@);
    let mut stem: Vec<char> = Vec::new();
    let mut i: usize = 0;
    while i < chars.len()
        invariant
            i <= chars@.len(),
            chars@ == name@,
            wanted == name@.map_values(|c: char| file_char(c)),
            stem@ == wanted.take(i as int),
        decreases chars.len() - i,
    {
        let c = chars[i];
        let kept: bool = (c >= 'a' && c <= 'z') || (c >= 'A' && c <= 'Z') || (c >= '0' && c <= '9') || c == '-' || c
            == '_';
        assert(wanted.take(i + 1) =~= stem@.push(file_char(c)));
        stem.push(if kept { c } else { '_' });
        i = i + 1;
    }
    assert(stem@ =~= wanted);
    string_of(&stem)
}

/// A connection's name never leads its file out of the directory.
pub proof fn stems_hold_no_separator(name: Seq<char>)
    ensures
        stem_for(name).len() > 0,
        forall|i: int| 0 <= i < stem_for(name).len() ==> stem_for(name)[i] != '/' && stem_for(name)[i] != '.',
{
    reveal_strlit("connection");
}

/// Where the certificates of a connection are written.
pub fn pem_path(ca_dir: &str, profile_name: &str) -> (path: String)
    ensures
        path@ == path_join(ca_dir@, stem_for(profile_name@) + ".pem"@),
{
    join_path(ca_dir, &joined(&file_stem_for(profile_name), ".pem"))
}

/// The certificates of a key store, as bytes.
pub open spec fn ders_of(list: Seq<JksCertificate>) -> Seq<Vec<u8>> {
    list.map_values(|c: JksCertificate| c.der)
}

/// The first certificates in PEM, one after the other.
pub open spec fn pem_of(list: Seq<CertificateView>) -> Seq<char>
    decreases list.len(),
{
    if list.len() == 0 {
        Seq::empty()
    } else {
        pem_of(list.drop_last()) + crate::kafka::certs::pem_text(list.last().der)
    }
}

/// What a key store becomes: its trusted certificates in PEM, or what is wrong.
pub open spec fn converted(bytes: Seq<u8>, store: Seq<char>) -> Result<Seq<char>, Seq<char>> {
    match store_certificates(bytes) {
        Err(error) => Err(error_text(error)),
        Ok(list) => if list.len() == 0 {
            Err("truststore "@ + store + " has no trusted certificates"@)
        } else {
            Ok(pem_of(list))
        },
    }
}

proof fn chains_move_on(b: Seq<u8>, i: int, version: int, count: int)
    requires
        0 <= i,
    ensures
        crate::model::jks::chain_end(b, i, version, count) matches Ok(end) ==> 0 <= end,
    decreases count,
{
    if count > 0 {
        if certificate_at(b, i, version) is Ok {
            chains_move_on(b, certificate_at(b, i, version)->Ok_0.1, version, count - 1);
        }
    }
}

proof fn certificates_are_small(b: Seq<u8>, i: int, version: int, count: int)
    requires
        0 <= i,
    ensures
        certificates_at(b, i, version, count) matches Ok(list) ==> forall|k: int|
            0 <= k < list.len() ==> (#[trigger] list[k]).der.len() <= b.len(),
    decreases count,
{
    if count > 0 {
        if entry_at(b, i, version) is Ok {
            let (found, next) = entry_at(b, i, version)->Ok_0;
            assert(0 <= next) by {
                let stamp = crate::model::jks::name_at(b, i + 4)->Ok_0.1;
                if crate::wire::be32(b, i) == crate::model::jks::TAG_PRIVATE_KEY {
                    let chain = block_at(b, stamp + 8)->Ok_0.1;
                    chains_move_on(b, chain + 4, version, crate::wire::be32(b, chain));
                }
            }
            certificates_are_small(b, next, version, count - 1);
            if certificates_at(b, i, version, count) is Ok {
                let list = certificates_at(b, i, version, count)->Ok_0;
                let rest = certificates_at(b, next, version, count - 1)->Ok_0;
                let first = crate::model::jks::kept(found);
                assert forall|k: int| 0 <= k < list.len() implies (#[trigger] list[k]).der.len() <= b.len() by {
                    if k >= first.len() {
                        assert(list[k] == rest[k - first.len()]);
                    }
                }
            }
        }
    }
}

proof fn bundles_agree(list: Seq<JksCertificate>)
    ensures
        pem_bundle(ders_of(list)) == pem_of(certificate_views(list)),
    decreases list.len(),
{
    if list.len() > 0 {
        bundles_agree(list.drop_last());
        assert(ders_of(list).drop_last() =~= ders_of(list.drop_last()));
        assert(certificate_views(list).drop_last() =~= certificate_views(list.drop_last()));
    }
}

/// Turns a key store into PEM. One without trusted certificates is refused.
pub fn convert_jks(bytes: &[u8], store: &str) -> (pem: Result<String, String>)
    requires
        bytes@.len() <= isize::MAX,
    ensures
        match pem {
            Ok(text) => converted(bytes@, store@) == Ok::<_, Seq<char>>(text@),
            Err(message) => converted(bytes@, store@) == Err::<Seq<char>, _>(message@),
        },
{
    let found = match trusted_certificates(bytes) {
        Ok(found) => found,
        Err(error) => {
            return Err(error.message());
        },
    };
    if found.len() == 0 {
        return Err(joined3("truststore ", store, " has no trusted certificates"));
    }
    proof {
        certificates_are_small(bytes@, 12, crate::wire::be32(bytes@, 4), crate::wire::be32(bytes@, 8));
        assert forall|k: int| 0 <= k < found@.len() implies (#[trigger] found@[k]).der@.len() <= bytes@.len() by {
            assert(certificate_views(found@)[k].der == found@[k].der@);
        }
    }
    let ghost list = found@;
    let mut rest = crate::order::reversed(found);
    let mut ders: Vec<Vec<u8>> = Vec::new();
    while rest.len() > 0
        invariant
            rest@.len() + ders@.len() == list.len(),
            forall|k: int| 0 <= k < rest@.len() ==> rest@[k] == list[list.len() - 1 - k],
            forall|k: int| 0 <= k < ders@.len() ==> #[trigger] ders@[k] == list[k].der,
        decreases rest.len(),
    {
        match rest.pop() {
            Some(certificate) => ders.push(certificate.der),
            None => {},
        }
    }
    proof {
        assert(ders@ =~= ders_of(list));
        bundles_agree(list);
        assert forall|k: int| 0 <= k < ders@.len() implies (#[trigger] ders@[k]@.len() + 2) / 3 * 4 <= usize::MAX by {
            assert(ders@[k] == list[k].der);
            assert(list[k].der@.len() <= bytes@.len());
        }
    }
    Ok(bundle(&ders))
}

/// What a check of a connection found.
#[derive(Debug, PartialEq, Eq)]
pub struct CheckReport {
    pub brokers: usize,
    pub topics: usize,
    pub groups: usize,
    pub elapsed: Duration,
}

/// The report on a connection that works.
pub fn check_connection(cluster: &ClusterInfo, groups: &Vec<GroupSummary>, elapsed: Duration) -> (report: CheckReport)
    ensures
        report.brokers == cluster.brokers@.len(),
        report.topics == cluster.topics@.len(),
        report.groups == groups@.len(),
        report.elapsed == elapsed,
{
    CheckReport {
        brokers: cluster.brokers.len(),
        topics: cluster.topics.len(),
        groups: groups.len(),
        elapsed,
    }
}

// ---- laws ----

/// What is done about a trust store: nothing without one, a key store is converted, a
/// certificate file has to be there, and another store is refused; each by its own path.
pub proof fn each_trust_store_is_seen_to(imported: &ImportedConnection, step: TrustStep)
    requires
        call_ensures(trust_step, (imported,), step),
    ensures
        step is Ready <==> imported@.trust_store is None,
        step is Convert <==> imported@.trust_store matches Some(TrustStoreView::Jks { .. }),
        step is CheckExists <==> imported@.trust_store matches Some(TrustStoreView::Pem(_)),
        step is Refuse <==> imported@.trust_store matches Some(TrustStoreView::Pkcs12 { .. }),
        step matches TrustStep::Convert(path) ==> imported@.trust_store == Some(TrustStoreView::Jks { path: path@ }),
        step matches TrustStep::CheckExists(path) ==> imported@.trust_store == Some(TrustStoreView::Pem(path@)),
{
}

/// The name of a certificate file keeps letters, digits, dashes and underscores of the
/// connection's name, one for one, and has an underscore for any other character.
pub proof fn stems_keep_letters_and_digits(name: Seq<char>, i: int)
    requires
        0 <= i < name.len(),
    ensures
        stem_for(name).len() == name.len(),
        'a' <= name[i] <= 'z' || 'A' <= name[i] <= 'Z' || '0' <= name[i] <= '9' || name[i] == '-' || name[i] == '_'
            ==> stem_for(name)[i] == name[i],
        !('a' <= name[i] <= 'z' || 'A' <= name[i] <= 'Z' || '0' <= name[i] <= '9' || name[i] == '-' || name[i] == '_')
            ==> stem_for(name)[i] == '_',
{
}

/// A key store becomes its trusted certificates in PEM, one behind the other; one without any
/// is refused, and so is one that cannot be read.
pub proof fn a_key_store_becomes_its_certificates(
    bytes: Seq<u8>,
    store: Seq<char>,
    first: Seq<CertificateView>,
    second: Seq<CertificateView>,
    one: CertificateView,
)
    ensures
        converted(bytes, store) is Ok <==> (store_certificates(bytes) matches Ok(list) && list.len() > 0),
        pem_of(first + second) == pem_of(first) + pem_of(second),
        pem_of(seq![one]) == crate::kafka::certs::pem_text(one.der),
        store_certificates(bytes) == Ok::<_, crate::model::jks::JksError>(seq![one]) ==> converted(bytes, store) == Ok::<
            _,
            Seq<char>,
        >(crate::kafka::certs::pem_text(one.der)),
    decreases second.len(),
{
    assert(seq![one].drop_last() =~= Seq::empty());
    assert(pem_of(seq![one].drop_last()) =~= Seq::empty());
    assert(pem_of(seq![one]) =~= crate::kafka::certs::pem_text(one.der));
    if second.len() == 0 {
        assert(first + second =~= first);
        assert(pem_of(first) + pem_of(second) =~= pem_of(first));
    } else {
        a_key_store_becomes_its_certificates(bytes, store, first, second.drop_last(), one);
        assert((first + second).drop_last() =~= first + second.drop_last());
        assert(pem_of(first + second) =~= pem_of(first) + pem_of(second));
    }
}

/// The file of the certificates lies in their directory and is called by the connection's name,
/// and its path is where the connection then finds them.
pub proof fn certificates_are_kept_under_the_name(
    ca_dir: &str,
    name: &str,
    path: String,
    imported: ImportedConnection,
    placed: ImportedConnection,
    stem: String,
)
    requires
        ca_dir@.len() > 0 && ca_dir@.last() != '/',
        name@.len() > 0,
        call_ensures(file_stem_for, (name,), stem),
        call_ensures(pem_path, (ca_dir, name), path),
        call_ensures(with_ca_location, (imported, path), placed),
    ensures
        stem@.len() == name@.len(),
        forall|i: int| 0 <= i < stem@.len() ==> #[trigger] stem@[i] != '/' && stem@[i] != '.',
        path@ == ca_dir@ + seq!['/'] + stem@ + ".pem"@,
        placed.profile@.ca_location == Some(path@),
        placed.profile@.name == imported.profile@.name && placed.profile@.bootstrap_servers
            == imported.profile@.bootstrap_servers && placed.profile@.security == imported.profile@.security,
        placed.password == imported.password,
{
    stems_hold_no_separator(name@);
    stems_keep_letters_and_digits(name@, 0);
    crate::path::a_joined_path_holds_both(ca_dir@, stem@ + ".pem"@);
    assert(path@ =~= ca_dir@ + seq!['/'] + stem@ + ".pem"@);
}

/// A store is converted to the certificates that it trusts, where it holds any; a connection is
/// called by its file, and a check counts what the cluster has.
pub proof fn a_store_is_converted_where_it_can_be(
    bytes: &[u8],
    store: &str,
    pem: Result<String, String>,
    file_stem: Option<&str>,
    name: String,
    cluster: &ClusterInfo,
    groups: &Vec<GroupSummary>,
    elapsed: Duration,
    report: CheckReport,
)
    requires
        call_ensures(convert_jks, (bytes, store), pem),
        call_ensures(import_name, (file_stem,), name),
        call_ensures(check_connection, (cluster, groups, elapsed), report),
    ensures
        pem is Ok <==> (store_certificates(bytes@) matches Ok(list) && list.len() > 0),
        pem matches Ok(text) ==> (store_certificates(bytes@) matches Ok(list) ==> (list.len() == 1 ==> text@
            == crate::kafka::certs::pem_text(list[0].der))),
        file_stem matches Some(stem) ==> name@ == stem@,
        file_stem is None ==> name@ == "imported"@,
        report.brokers == cluster.brokers@.len() && report.topics == cluster.topics@.len() && report.groups
            == groups@.len(),
{
    let empty: Seq<CertificateView> = Seq::empty();
    let one: CertificateView = match store_certificates(bytes@) {
        Ok(list) => list[0],
        Err(_) => arbitrary(),
    };
    a_key_store_becomes_its_certificates(bytes@, store@, empty, empty, one);
    if let Ok(list) = store_certificates(bytes@) {
        if list.len() == 1 {
            assert(list =~= seq![list[0]]);
        }
    }
}

} // verus!
