//! The certificates that a Java key store trusts.

use vstd::prelude::*;
use vstd::utf8::{decode_utf8, encode_utf8, encode_utf8_decode_utf8, encode_utf8_valid_utf8, valid_utf8};

use crate::text::{decimal, decimal_text, joined3, utf8_text};
use crate::wire::{
    be16, be32, bytes16, bytes16_are_read_back, bytes32, bytes32_are_read_back, stands_at, stands_in_parts, Reader,
};

verus! {

pub const JKS_MAGIC: u32 = 0xFEED_FEED;

pub const TAG_PRIVATE_KEY: u32 = 1;

pub const TAG_TRUSTED_CERT: u32 = 2;

#[derive(Debug, PartialEq, Eq)]
pub struct JksCertificate {
    pub alias: String,
    pub der: Vec<u8>,
}

/// A certificate with its name as characters.
pub struct CertificateView {
    pub alias: Seq<char>,
    pub der: Seq<u8>,
}

impl View for JksCertificate {
    type V = CertificateView;

    open spec fn view(&self) -> CertificateView {
        CertificateView { alias: self.alias@, der: self.der@ }
    }
}

pub open spec fn certificate_views(list: Seq<JksCertificate>) -> Seq<CertificateView> {
    list.map_values(|c: JksCertificate| c@)
}

#[derive(Debug, Clone, Copy, PartialEq, Eq, Structural)]
pub enum JksError {
    NotJks,
    UnsupportedVersion(u32),
    Truncated,
    BadAlias,
    UnknownTag(u32),
}

/// What an error says.
pub open spec fn error_text(error: JksError) -> Seq<char> {
    match error {
        JksError::NotJks => "file is not a JKS keystore"@,
        JksError::UnsupportedVersion(v) => "JKS version "@ + decimal(v as int) + " is not supported"@,
        JksError::Truncated => "JKS keystore is truncated"@,
        JksError::BadAlias => "JKS alias is not valid UTF-8"@,
        JksError::UnknownTag(t) => "JKS entry tag "@ + decimal(t as int) + " is unknown"@,
    }
}

impl JksError {
    /// The error in words.
    pub fn message(&self) -> (text: String)
        ensures
            text@ == error_text(*self),
    {
        match self {
            JksError::NotJks => "file is not a JKS keystore".to_owned(),
            JksError::UnsupportedVersion(v) => {
                joined3("JKS version ", &decimal_text(*v as i128), " is not supported")
            },
            JksError::Truncated => "JKS keystore is truncated".to_owned(),
            JksError::BadAlias => "JKS alias is not valid UTF-8".to_owned(),
            JksError::UnknownTag(t) => joined3("JKS entry tag ", &decimal_text(*t as i128), " is unknown"),
        }
    }
}

/// The name at a place, with its length before it, and the place behind it.
pub open spec fn name_at(b: Seq<u8>, i: int) -> Result<(Seq<char>, int), JksError> {
    let end = i + 2 + be16(b, i);
    if i + 2 > b.len() || end > b.len() {
        Err(JksError::Truncated)
    } else if !valid_utf8(b.subrange(i + 2, end)) {
        Err(JksError::BadAlias)
    } else {
        Ok((decode_utf8(b.subrange(i + 2, end)), end))
    }
}

/// The block at a place, with its length before it, and the place behind it.
pub open spec fn block_at(b: Seq<u8>, i: int) -> Result<(Seq<u8>, int), JksError> {
    let end = i + 4 + be32(b, i);
    if i + 4 > b.len() || end > b.len() {
        Err(JksError::Truncated)
    } else {
        Ok((b.subrange(i + 4, end), end))
    }
}

/// The certificate at a place. In the second version its type stands before it.
pub open spec fn certificate_at(b: Seq<u8>, i: int, version: int) -> Result<(Seq<u8>, int), JksError> {
    if version == 2 {
        match name_at(b, i) {
            Ok((_, next)) => block_at(b, next),
            Err(error) => Err(error),
        }
    } else {
        block_at(b, i)
    }
}

/// The place behind a number of certificates.
pub open spec fn chain_end(b: Seq<u8>, i: int, version: int, count: int) -> Result<int, JksError>
    decreases count,
{
    if count <= 0 {
        Ok(i)
    } else {
        match certificate_at(b, i, version) {
            Ok((_, next)) => chain_end(b, next, version, count - 1),
            Err(error) => Err(error),
        }
    }
}

/// The entry at a place, and the place behind it. A trusted certificate counts, a
/// private key with its chain is passed over.
pub open spec fn entry_at(b: Seq<u8>, i: int, version: int) -> Result<(Option<CertificateView>, int), JksError> {
    if i + 4 > b.len() {
        Err(JksError::Truncated)
    } else {
        match name_at(b, i + 4) {
            Err(error) => Err(error),
            Ok((alias, stamp)) => {
                let body = stamp + 8;
                if body > b.len() {
                    Err(JksError::Truncated)
                } else if be32(b, i) == TAG_PRIVATE_KEY {
                    match block_at(b, body) {
                        Err(error) => Err(error),
                        Ok((_, chain)) => if chain + 4 > b.len() {
                            Err(JksError::Truncated)
                        } else {
                            match chain_end(b, chain + 4, version, be32(b, chain)) {
                                Err(error) => Err(error),
                                Ok(next) => Ok((None, next)),
                            }
                        },
                    }
                } else if be32(b, i) == TAG_TRUSTED_CERT {
                    match certificate_at(b, body, version) {
                        Err(error) => Err(error),
                        Ok((der, next)) => Ok((Some(CertificateView { alias, der }), next)),
                    }
                } else {
                    Err(JksError::UnknownTag(be32(b, i) as u32))
                }
            },
        }
    }
}

/// The trusted certificates among a number of entries.
pub open spec fn certificates_at(b: Seq<u8>, i: int, version: int, count: int) -> Result<Seq<CertificateView>, JksError>
    decreases count,
{
    if count <= 0 {
        Ok(Seq::empty())
    } else {
        match entry_at(b, i, version) {
            Err(error) => Err(error),
            Ok((found, next)) => match certificates_at(b, next, version, count - 1) {
                Err(error) => Err(error),
                Ok(rest) => Ok(kept(found) + rest),
            },
        }
    }
}

/// What an entry adds to the certificates.
pub open spec fn kept(found: Option<CertificateView>) -> Seq<CertificateView> {
    match found {
        Some(certificate) => seq![certificate],
        None => Seq::empty(),
    }
}

/// The trusted certificates of a key store.
pub open spec fn store_certificates(b: Seq<u8>) -> Result<Seq<CertificateView>, JksError> {
    if b.len() < 4 {
        Err(JksError::Truncated)
    } else if be32(b, 0) != JKS_MAGIC {
        Err(JksError::NotJks)
    } else if b.len() < 8 {
        Err(JksError::Truncated)
    } else if be32(b, 4) != 1 && be32(b, 4) != 2 {
        Err(JksError::UnsupportedVersion(be32(b, 4) as u32))
    } else if b.len() < 12 {
        Err(JksError::Truncated)
    } else {
        certificates_at(b, 12, be32(b, 4), be32(b, 8))
    }
}

/// Whether a reader stands behind what was read.
spec fn advanced(before: &Reader, after: &Reader) -> bool {
    after.wf() && after.bytes == before.bytes
}

fn read_name<'a>(r: &mut Reader<'a>) -> (name: Result<String, JksError>)
    requires
        old(r).wf(),
    ensures
        advanced(old(r), final(r)),
        match name {
            Ok(n) => name_at(old(r).bytes@, old(r).pos as int) == Ok::<_, JksError>((n@, final(r).pos as int)),
            Err(error) => name_at(old(r).bytes@, old(r).pos as int) == Err::<(Seq<char>, int), _>(error),
        },
{
    let size: u16 = match r.u16() {
        Some(n) => n,
        None => {
            return Err(JksError::Truncated);
        },
    };
    match r.take(size as usize) {
        Some(raw) => match utf8_text(vstd::slice::slice_to_vec(raw)) {
            Some(text) => Ok(text),
            None => Err(JksError::BadAlias),
        },
        None => Err(JksError::Truncated),
    }
}

fn read_block<'a>(r: &mut Reader<'a>) -> (block: Result<&'a [u8], JksError>)
    requires
        old(r).wf(),
    ensures
        advanced(old(r), final(r)),
        match block {
            Ok(s) => block_at(old(r).bytes@, old(r).pos as int) == Ok::<_, JksError>((s@, final(r).pos as int)),
            Err(error) => block_at(old(r).bytes@, old(r).pos as int) == Err::<(Seq<u8>, int), _>(error),
        },
{
    let size: u32 = match r.u32() {
        Some(n) => n,
        None => {
            return Err(JksError::Truncated);
        },
    };
    match r.take(size as usize) {
        Some(block) => Ok(block),
        None => Err(JksError::Truncated),
    }
}

fn read_certificate<'a>(r: &mut Reader<'a>, version: u32) -> (block: Result<&'a [u8], JksError>)
    requires
        old(r).wf(),
    ensures
        advanced(old(r), final(r)),
        match block {
            Ok(s) => certificate_at(old(r).bytes@, old(r).pos as int, version as int) == Ok::<_, JksError>(
                (s@, final(r).pos as int),
            ),
            Err(error) => certificate_at(old(r).bytes@, old(r).pos as int, version as int) == Err::<(Seq<u8>, int), _>(
                error,
            ),
        },
{
    if version == 2 {
        match read_name(r) {
            Ok(_) => {},
            Err(error) => {
                return Err(error);
            },
        }
    }
    read_block(r)
}

fn skip_chain<'a>(r: &mut Reader<'a>, version: u32, count: u32) -> (done: Result<(), JksError>)
    requires
        old(r).wf(),
    ensures
        advanced(old(r), final(r)),
        match done {
            Ok(_) => chain_end(old(r).bytes@, old(r).pos as int, version as int, count as int) == Ok::<_, JksError>(
                final(r).pos as int,
            ),
            Err(error) => chain_end(old(r).bytes@, old(r).pos as int, version as int, count as int) == Err::<int, _>(error),
        },
{
    let mut k: u32 = 0;
    while k < count
        invariant
            k <= count,
            advanced(old(r), r),
            chain_end(old(r).bytes@, old(r).pos as int, version as int, count as int) == chain_end(
                r.bytes@,
                r.pos as int,
                version as int,
                count - k,
            ),
        decreases count - k,
    {
        match read_certificate(r, version) {
            Ok(_) => {},
            Err(error) => {
                return Err(error);
            },
        }
        k = k + 1;
    }
    Ok(())
}

fn read_entry<'a>(r: &mut Reader<'a>, version: u32) -> (entry: Result<Option<JksCertificate>, JksError>)
    requires
        old(r).wf(),
    ensures
        advanced(old(r), final(r)),
        match entry {
            Ok(Some(c)) => entry_at(old(r).bytes@, old(r).pos as int, version as int) == Ok::<_, JksError>(
                (Some(c@), final(r).pos as int),
            ),
            Ok(None) => entry_at(old(r).bytes@, old(r).pos as int, version as int) == Ok::<_, JksError>(
                (None::<CertificateView>, final(r).pos as int),
            ),
            Err(error) => entry_at(old(r).bytes@, old(r).pos as int, version as int) == Err::<
                (Option<CertificateView>, int),
                _,
            >(error),
        },
{
    let tag: u32 = match r.u32() {
        Some(n) => n,
        None => {
            return Err(JksError::Truncated);
        },
    };
    let alias: String = match read_name(r) {
        Ok(name) => name,
        Err(error) => {
            return Err(error);
        },
    };
    if r.take(8).is_none() {
        return Err(JksError::Truncated);
    }
    if tag == TAG_PRIVATE_KEY {
        match read_block(r) {
            Ok(_) => {},
            Err(error) => {
                return Err(error);
            },
        }
        let count: u32 = match r.u32() {
            Some(n) => n,
            None => {
                return Err(JksError::Truncated);
            },
        };
        match skip_chain(r, version, count) {
            Ok(_) => Ok(None),
            Err(error) => Err(error),
        }
    } else if tag == TAG_TRUSTED_CERT {
        match read_certificate(r, version) {
            Ok(der) => Ok(Some(JksCertificate { alias, der: vstd::slice::slice_to_vec(der) })),
            Err(error) => Err(error),
        }
    } else {
        Err(JksError::UnknownTag(tag))
    }
}

/// What an entry that was read holds.
spec fn entry_view(entry: Option<JksCertificate>) -> Option<CertificateView> {
    match entry {
        Some(certificate) => Some(certificate@),
        None => None,
    }
}

/// Certificates in front of a result.
spec fn behind(
    first: Seq<CertificateView>,
    rest: Result<Seq<CertificateView>, JksError>,
) -> Result<Seq<CertificateView>, JksError> {
    match rest {
        Ok(found) => Ok(first + found),
        Err(error) => Err(error),
    }
}

/// Reads the trusted certificates out of a key store, in its order. Private keys are
/// passed over, and the digest at the end is not looked at.
pub fn trusted_certificates(bytes: &[u8]) -> (found: Result<Vec<JksCertificate>, JksError>)
    ensures
        match found {
            Ok(list) => store_certificates(bytes@) == Ok::<_, JksError>(certificate_views(list@)),
            Err(error) => store_certificates(bytes@) == Err::<Seq<CertificateView>, _>(error),
        },
{
    let mut r = Reader { bytes, pos: 0 };
    match r.u32() {
        Some(magic) => {
            if magic != JKS_MAGIC {
                return Err(JksError::NotJks);
            }
        },
        None => {
            return Err(JksError::Truncated);
        },
    }
    let version: u32 = match r.u32() {
        Some(n) => n,
        None => {
            return Err(JksError::Truncated);
        },
    };
    if version != 1 && version != 2 {
        return Err(JksError::UnsupportedVersion(version));
    }
    let count: u32 = match r.u32() {
        Some(n) => n,
        None => {
            return Err(JksError::Truncated);
        },
    };
    let ghost whole = certificates_at(bytes@, 12, version as int, count as int);
    let mut out: Vec<JksCertificate> = Vec::new();
    let mut k: u32 = 0;
    proof {
        assert(certificate_views(out@) =~= Seq::empty());
        if whole is Ok {
            assert(Seq::<CertificateView>::empty() + whole->Ok_0 =~= whole->Ok_0);
        }
    }
    while k < count
        invariant
            k <= count,
            r.wf(),
            r.bytes@ == bytes@,
            store_certificates(bytes@) == whole,
            behind(certificate_views(out@), certificates_at(bytes@, r.pos as int, version as int, count - k)) == whole,
        decreases count - k,
    {
        let ghost before = out@;
        match read_entry(&mut r, version) {
            Ok(entry) => {
                let ghost found = entry_view(entry);
                match entry {
                    Some(certificate) => {
                        out.push(certificate);
                    },
                    None => {},
                }
                proof {
                    let rest = certificates_at(bytes@, r.pos as int, version as int, count - k - 1);
                    assert(certificate_views(out@) =~= certificate_views(before) + kept(found));
                    if rest is Ok {
                        assert(certificate_views(before) + (kept(found) + rest->Ok_0)
                            =~= certificate_views(out@) + rest->Ok_0);
                    }
                }
            },
            Err(error) => {
                return Err(error);
            },
        }
        k = k + 1;
    }
    assert(certificate_views(out@) + Seq::empty() =~= certificate_views(out@));
    Ok(out)
}

// ---- laws ----

/// What a key store can hold.
pub enum Entry {
    Key {
        alias: Seq<char>,
        stamp: Seq<u8>,
        key: Seq<u8>,
        chain: Seq<TypedCertificate>,
    },
    Trusted {
        alias: Seq<char>,
        stamp: Seq<u8>,
        certificate: TypedCertificate,
    },
}

/// A certificate with the name of its type, which only the second version writes.
pub struct TypedCertificate {
    pub kind: Seq<char>,
    pub der: Seq<u8>,
}

pub open spec fn encoded_name(name: Seq<char>) -> Seq<u8> {
    bytes16(encode_utf8(name).len() as int) + encode_utf8(name)
}

pub open spec fn encoded_block(block: Seq<u8>) -> Seq<u8> {
    bytes32(block.len() as int) + block
}

/// A certificate in the given version.
pub open spec fn encoded_certificate(certificate: TypedCertificate, version: int) -> Seq<u8> {
    if version == 2 {
        encoded_name(certificate.kind) + encoded_block(certificate.der)
    } else {
        encoded_block(certificate.der)
    }
}

pub open spec fn encoded_chain(chain: Seq<TypedCertificate>, version: int) -> Seq<u8>
    decreases chain.len(),
{
    if chain.len() == 0 {
        Seq::empty()
    } else {
        encoded_certificate(chain[0], version) + encoded_chain(chain.skip(1), version)
    }
}

pub open spec fn encoded_entry(entry: Entry, version: int) -> Seq<u8> {
    match entry {
        Entry::Key { alias, stamp, key, chain } => bytes32(TAG_PRIVATE_KEY as int) + encoded_name(alias) + stamp
            + encoded_block(key) + bytes32(chain.len() as int) + encoded_chain(chain, version),
        Entry::Trusted { alias, stamp, certificate } => bytes32(TAG_TRUSTED_CERT as int) + encoded_name(alias) + stamp
            + encoded_certificate(certificate, version),
    }
}

pub open spec fn encoded_entries(entries: Seq<Entry>, version: int) -> Seq<u8>
    decreases entries.len(),
{
    if entries.len() == 0 {
        Seq::empty()
    } else {
        encoded_entry(entries[0], version) + encoded_entries(entries.skip(1), version)
    }
}

/// A key store, without the digest at its end.
pub open spec fn encoded_store(entries: Seq<Entry>, version: int) -> Seq<u8> {
    bytes32(JKS_MAGIC as int) + bytes32(version) + bytes32(entries.len() as int) + encoded_entries(
        entries,
        version,
    )
}

pub open spec fn name_fits(name: Seq<char>) -> bool {
    encode_utf8(name).len() < 0x1_0000
}

pub open spec fn block_fits(block: Seq<u8>) -> bool {
    block.len() < 0x1_0000_0000
}

pub open spec fn certificate_fits(certificate: TypedCertificate) -> bool {
    name_fits(certificate.kind) && block_fits(certificate.der)
}

/// Whether the lengths in an entry fit the encoding.
pub open spec fn entry_fits(entry: Entry) -> bool {
    match entry {
        Entry::Key { alias, stamp, key, chain } => {
            &&& name_fits(alias)
            &&& stamp.len() == 8
            &&& block_fits(key)
            &&& chain.len() < 0x1_0000_0000
            &&& forall|k: int| 0 <= k < chain.len() ==> certificate_fits(#[trigger] chain[k])
        },
        Entry::Trusted { alias, stamp, certificate } => name_fits(alias) && stamp.len() == 8 && certificate_fits(
            certificate,
        ),
    }
}

/// The trusted certificates among entries, in their order.
pub open spec fn trusted_among(entries: Seq<Entry>) -> Seq<CertificateView>
    decreases entries.len(),
{
    if entries.len() == 0 {
        Seq::empty()
    } else {
        kept(trusted_in(entries[0])) + trusted_among(entries.skip(1))
    }
}

pub open spec fn trusted_in(entry: Entry) -> Option<CertificateView> {
    match entry {
        Entry::Key { .. } => None,
        Entry::Trusted { alias, certificate, .. } => Some(CertificateView { alias, der: certificate.der }),
    }
}

proof fn a_name_is_read_back(b: Seq<u8>, i: int, name: Seq<char>)
    requires
        stands_at(b, i, encoded_name(name)),
        name_fits(name),
    ensures
        name_at(b, i) == Ok::<_, JksError>((name, i + encoded_name(name).len())),
{
    let raw = encode_utf8(name);
    stands_in_parts(b, i, bytes16(raw.len() as int), raw);
    bytes16_are_read_back(b, i, raw.len() as int);
    encode_utf8_valid_utf8(name);
    encode_utf8_decode_utf8(name);
    assert(b.subrange(i + 2, i + 2 + raw.len()) == raw);
}

proof fn a_block_is_read_back(b: Seq<u8>, i: int, block: Seq<u8>)
    requires
        stands_at(b, i, encoded_block(block)),
        block_fits(block),
    ensures
        block_at(b, i) == Ok::<_, JksError>((block, i + encoded_block(block).len())),
{
    stands_in_parts(b, i, bytes32(block.len() as int), block);
    bytes32_are_read_back(b, i, block.len() as int);
    assert(b.subrange(i + 4, i + 4 + block.len()) == block);
}

proof fn a_certificate_is_read_back(b: Seq<u8>, i: int, certificate: TypedCertificate, version: int)
    requires
        stands_at(b, i, encoded_certificate(certificate, version)),
        certificate_fits(certificate),
    ensures
        certificate_at(b, i, version) == Ok::<_, JksError>(
            (certificate.der, i + encoded_certificate(certificate, version).len()),
        ),
{
    let kind = encoded_name(certificate.kind);
    if version == 2 {
        stands_in_parts(b, i, kind, encoded_block(certificate.der));
        a_name_is_read_back(b, i, certificate.kind);
        a_block_is_read_back(b, i + kind.len(), certificate.der);
    } else {
        a_block_is_read_back(b, i, certificate.der);
    }
}

proof fn a_chain_is_passed_over(b: Seq<u8>, i: int, chain: Seq<TypedCertificate>, version: int)
    requires
        stands_at(b, i, encoded_chain(chain, version)),
        forall|k: int| 0 <= k < chain.len() ==> certificate_fits(#[trigger] chain[k]),
    ensures
        chain_end(b, i, version, chain.len() as int) == Ok::<_, JksError>(i + encoded_chain(chain, version).len()),
    decreases chain.len(),
{
    if chain.len() > 0 {
        let rest = chain.skip(1);
        let first = encoded_certificate(chain[0], version);
        stands_in_parts(b, i, first, encoded_chain(rest, version));
        assert(certificate_fits(chain[0]));
        a_certificate_is_read_back(b, i, chain[0], version);
        assert forall|k: int| 0 <= k < rest.len() implies certificate_fits(#[trigger] rest[k]) by {
            assert(rest[k] == chain[k + 1]);
        }
        a_chain_is_passed_over(b, i + first.len(), rest, version);
    }
}

proof fn a_key_is_passed_over(
    b: Seq<u8>,
    i: int,
    alias: Seq<char>,
    stamp: Seq<u8>,
    key: Seq<u8>,
    chain: Seq<TypedCertificate>,
    version: int,
)
    requires
        stands_at(b, i, encoded_entry(Entry::Key { alias, stamp, key, chain }, version)),
        entry_fits(Entry::Key { alias, stamp, key, chain }),
    ensures
        entry_at(b, i, version) == Ok::<_, JksError>(
            (
                None::<CertificateView>,
                i + encoded_entry(Entry::Key { alias, stamp, key, chain }, version).len(),
            ),
        ),
{
    let tag = bytes32(TAG_PRIVATE_KEY as int);
    let name = encoded_name(alias);
    let block = encoded_block(key);
    let count = bytes32(chain.len() as int);
    let tail = encoded_chain(chain, version);
    let body = i + 4 + name.len() + 8;
    stands_in_parts(b, i, tag + name + stamp + block + count, tail);
    stands_in_parts(b, i, tag + name + stamp + block, count);
    stands_in_parts(b, i, tag + name + stamp, block);
    stands_in_parts(b, i, tag + name, stamp);
    stands_in_parts(b, i, tag, name);
    assert((tag + name + stamp).len() == body - i);
    assert(i + 4 <= b.len() && be32(b, i) == TAG_PRIVATE_KEY) by {
        bytes32_are_read_back(b, i, TAG_PRIVATE_KEY as int);
    }
    assert(name_at(b, i + 4) == Ok::<_, JksError>((alias, i + 4 + name.len()))) by {
        a_name_is_read_back(b, i + 4, alias);
    }
    assert(body <= b.len());
    assert(block_at(b, body) == Ok::<_, JksError>((key, body + block.len()))) by {
        a_block_is_read_back(b, body, key);
    }
    let at = body + block.len();
    assert(at + 4 <= b.len() && be32(b, at) == chain.len()) by {
        bytes32_are_read_back(b, at, chain.len() as int);
    }
    assert(chain_end(b, at + 4, version, chain.len() as int) == Ok::<_, JksError>(at + 4 + tail.len())) by {
        a_chain_is_passed_over(b, at + 4, chain, version);
    }
}

proof fn a_trusted_entry_is_read_back(
    b: Seq<u8>,
    i: int,
    alias: Seq<char>,
    stamp: Seq<u8>,
    certificate: TypedCertificate,
    version: int,
)
    requires
        stands_at(b, i, encoded_entry(Entry::Trusted { alias, stamp, certificate }, version)),
        entry_fits(Entry::Trusted { alias, stamp, certificate }),
    ensures
        entry_at(b, i, version) == Ok::<_, JksError>(
            (Some(CertificateView { alias, der: certificate.der }), i + encoded_entry(Entry::Trusted { alias, stamp, certificate }, version).len()),
        ),
{
    let tag = bytes32(TAG_TRUSTED_CERT as int);
    let name = encoded_name(alias);
    let block = encoded_certificate(certificate, version);
    let body = i + 4 + name.len() + 8;
    stands_in_parts(b, i, tag + name + stamp, block);
    stands_in_parts(b, i, tag + name, stamp);
    stands_in_parts(b, i, tag, name);
    assert((tag + name + stamp).len() == body - i);
    assert(i + 4 <= b.len() && be32(b, i) == TAG_TRUSTED_CERT) by {
        bytes32_are_read_back(b, i, TAG_TRUSTED_CERT as int);
    }
    assert(name_at(b, i + 4) == Ok::<_, JksError>((alias, i + 4 + name.len()))) by {
        a_name_is_read_back(b, i + 4, alias);
    }
    assert(body <= b.len());
    assert(certificate_at(b, body, version) == Ok::<_, JksError>((certificate.der, body + block.len()))) by {
        a_certificate_is_read_back(b, body, certificate, version);
    }
}

proof fn an_entry_is_read_back(b: Seq<u8>, i: int, entry: Entry, version: int)
    requires
        stands_at(b, i, encoded_entry(entry, version)),
        entry_fits(entry),
    ensures
        entry_at(b, i, version) == Ok::<_, JksError>(
            (trusted_in(entry), i + encoded_entry(entry, version).len()),
        ),
{
    match entry {
        Entry::Key { alias, stamp, key, chain } => {
            a_key_is_passed_over(b, i, alias, stamp, key, chain, version);
        },
        Entry::Trusted { alias, stamp, certificate } => {
            a_trusted_entry_is_read_back(b, i, alias, stamp, certificate, version);
        },
    }
}

proof fn entries_are_read_back(b: Seq<u8>, i: int, entries: Seq<Entry>, version: int)
    requires
        stands_at(b, i, encoded_entries(entries, version)),
        forall|k: int| 0 <= k < entries.len() ==> entry_fits(#[trigger] entries[k]),
    ensures
        certificates_at(b, i, version, entries.len() as int) == Ok::<_, JksError>(trusted_among(entries)),
    decreases entries.len(),
{
    if entries.len() > 0 {
        let rest = entries.skip(1);
        let first = encoded_entry(entries[0], version);
        stands_in_parts(b, i, first, encoded_entries(rest, version));
        assert(entry_fits(entries[0]));
        an_entry_is_read_back(b, i, entries[0], version);
        assert forall|k: int| 0 <= k < rest.len() implies entry_fits(#[trigger] rest[k]) by {
            assert(rest[k] == entries[k + 1]);
        }
        entries_are_read_back(b, i + first.len(), rest, version);
    }
}

proof fn a_head_is_read_back(b: Seq<u8>, magic: int, version: int, count: int)
    requires
        stands_at(b, 0, bytes32(magic) + bytes32(version) + bytes32(count)),
        0 <= magic < 0x1_0000_0000,
        0 <= version < 0x1_0000_0000,
        0 <= count < 0x1_0000_0000,
    ensures
        b.len() >= 12,
        be32(b, 0) == magic,
        be32(b, 4) == version,
        be32(b, 8) == count,
{
    stands_in_parts(b, 0, bytes32(magic) + bytes32(version), bytes32(count));
    stands_in_parts(b, 0, bytes32(magic), bytes32(version));
    bytes32_are_read_back(b, 0, magic);
    bytes32_are_read_back(b, 4, version);
    bytes32_are_read_back(b, 8, count);
}

/// Behind the head of a key store its entries are read.
proof fn a_head_leads_to_the_entries(b: Seq<u8>, version: int, count: int)
    requires
        stands_at(b, 0, bytes32(JKS_MAGIC as int) + bytes32(version) + bytes32(count)),
        version == 1 || version == 2,
        0 <= count < 0x1_0000_0000,
    ensures
        store_certificates(b) == certificates_at(b, 12, version, count),
{
    a_head_is_read_back(b, JKS_MAGIC as int, version, count);
}

/// A sequence stands at the start of what begins with it.
proof fn a_start_stands_first(start: Seq<u8>, rest: Seq<u8>)
    ensures
        stands_at(start + rest, 0, start),
{
    assert((start + rest).subrange(0, start.len() as int) =~= start);
}

/// Of a well-formed key store of either version exactly the trusted certificates are
/// read, in order; private keys are passed over, and so is the digest at the end.
#[verifier::spinoff_prover]
pub proof fn a_store_gives_its_trusted_certificates(entries: Seq<Entry>, version: int, digest: Seq<u8>)
    requires
        version == 1 || version == 2,
        entries.len() < 0x1_0000_0000,
        forall|k: int| 0 <= k < entries.len() ==> entry_fits(#[trigger] entries[k]),
    ensures
        store_certificates(encoded_store(entries, version) + digest) == Ok::<_, JksError>(trusted_among(entries)),
{
    let count = entries.len() as int;
    let b = encoded_store(entries, version) + digest;
    let head = bytes32(JKS_MAGIC as int) + bytes32(version) + bytes32(count);
    a_start_stands_first(encoded_store(entries, version), digest);
    stands_in_parts(b, 0, head, encoded_entries(entries, version));
    assert(head.len() == 12);
    a_head_leads_to_the_entries(b, version, count);
    entries_are_read_back(b, 12, entries, version);
}

/// A file that does not start as a key store does is told apart, and so is one of a version
/// that is not known; a file that is too short is cut.
pub proof fn other_files_are_told_apart(magic: int, version: int, rest: Seq<u8>)
    requires
        0 <= magic < 0x1_0000_0000,
        0 <= version < 0x1_0000_0000,
    ensures
        magic != 0xFEED_FEED ==> store_certificates(bytes32(magic) + bytes32(version) + rest) == Err::<
            Seq<CertificateView>,
            _,
        >(JksError::NotJks),
        magic == 0xFEED_FEED && version != 1 && version != 2 ==> store_certificates(
            bytes32(magic) + bytes32(version) + rest,
        ) == Err::<Seq<CertificateView>, _>(JksError::UnsupportedVersion(version as u32)),
        rest.len() < 4 ==> store_certificates(rest) == Err::<Seq<CertificateView>, _>(JksError::Truncated),
{
    let b = bytes32(magic) + bytes32(version) + rest;
    a_start_stands_first(bytes32(magic) + bytes32(version), rest);
    stands_in_parts(b, 0, bytes32(magic), bytes32(version));
    bytes32_are_read_back(b, 0, magic);
    bytes32_are_read_back(b, 4, version);
}

/// A store that was encoded gives the certificates that it trusts, in their order.
pub proof fn an_encoded_store_is_read(
    entries: Seq<Entry>,
    version: int,
    digest: Seq<u8>,
    bytes: &[u8],
    found: Result<Vec<JksCertificate>, JksError>,
)
    requires
        version == 1 || version == 2,
        entries.len() < 0x1_0000_0000,
        forall|k: int| 0 <= k < entries.len() ==> entry_fits(#[trigger] entries[k]),
        bytes@ == encoded_store(entries, version) + digest,
        call_ensures(trusted_certificates, (bytes,), found),
    ensures
        found matches Ok(list) && certificate_views(list@) == trusted_among(entries),
{
    a_store_gives_its_trusted_certificates(entries, version, digest);
}

/// Errors are told apart by what they say, and a number that is not known is named.
pub proof fn errors_say_what_is_wrong(error: JksError, text: String)
    requires
        call_ensures(JksError::message, (&error,), text),
    ensures
        error is NotJks ==> text@ == "file is not a JKS keystore"@,
        error is Truncated ==> text@ == "JKS keystore is truncated"@,
        error is BadAlias ==> text@ == "JKS alias is not valid UTF-8"@,
        error matches JksError::UnsupportedVersion(v) ==> text@ == "JKS version "@ + decimal(v as int)
            + " is not supported"@,
        error matches JksError::UnknownTag(t) ==> text@ == "JKS entry tag "@ + decimal(t as int) + " is unknown"@,
{
}

} // verus!
