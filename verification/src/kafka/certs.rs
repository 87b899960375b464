//! Certificates in PEM.

use base64::Engine;
use vstd::prelude::*;
use vstd::string::StringExecFns;

use crate::text::{chars_of, string_of};

verus! {

/// The byte at a place, and zero behind the end.
pub open spec fn byte_or_zero(b: Seq<u8>, i: int) -> int {
    if i < b.len() {
        b[i] as int
    } else {
        0
    }
}

/// The six bits at a place of the bytes, in groups of four for three bytes.
pub open spec fn six_bits(b: Seq<u8>, k: int) -> int {
    let i = k / 4 * 3;
    if k % 4 == 0 {
        byte_or_zero(b, i) / 4
    } else if k % 4 == 1 {
        byte_or_zero(b, i) % 4 * 16 + byte_or_zero(b, i + 1) / 16
    } else if k % 4 == 2 {
        byte_or_zero(b, i + 1) % 16 * 4 + byte_or_zero(b, i + 2) / 64
    } else {
        byte_or_zero(b, i + 2) % 64
    }
}

/// The character for six bits: capital and small letters, digits, plus and slash.
pub open spec fn base64_char(n: int) -> char {
    if n < 26 {
        (n + 0x41) as char
    } else if n < 52 {
        (n - 26 + 0x61) as char
    } else if n < 62 {
        (n - 52 + 0x30) as char
    } else if n == 62 {
        '+'
    } else {
        '/'
    }
}

/// Bytes in base64 with the standard alphabet. Equals signs fill the last group.
pub open spec fn base64_text(b: Seq<u8>) -> Seq<char> {
    Seq::new(
        ((b.len() + 2) / 3 * 4) as nat,
        |k: int| if k / 4 * 3 + k % 4 <= b.len() {
            base64_char(six_bits(b, k))
        } else {
            '='
        },
    )
}

/// `base64`'s `Engine::encode` with the engine `STANDARD`: the bytes in base64, with
/// padding.
#[verifier::external_body]
fn base64_of(bytes: &[u8]) -> (text: String)
    requires
        (bytes@.len() + 2) / 3 * 4 <= usize::MAX,
    ensures
        text@ == base64_text(bytes@),
{
    base64::engine::general_purpose::STANDARD.encode(bytes)
}

/// Text from a place on in lines of 64 characters.
pub open spec fn wrapped_from(text: Seq<char>, i: int) -> Seq<char>
    decreases text.len() - i,
{
    if i >= text.len() {
        Seq::empty()
    } else if text.len() - i <= 64 {
        text.skip(i).push('\n')
    } else {
        text.subrange(i, i + 64).push('\n') + wrapped_from(text, i + 64)
    }
}

/// A certificate in PEM.
pub open spec fn pem_text(der: Seq<u8>) -> Seq<char> {
    "-----BEGIN CERTIFICATE-----\n"@ + wrapped_from(base64_text(der), 0) + "-----END CERTIFICATE-----\n"@
}

/// Text in lines of 64 characters.
fn wrap(text: &[char]) -> (lines: Vec<char>)
    ensures
        lines@ == wrapped_from(text@, 0),
{
    let mut lines: Vec<char> = Vec::new();
    let n: usize = text.len();
    let mut i: usize = 0;
    assert(lines@ + wrapped_from(text@, 0) =~= wrapped_from(text@, 0));
    while i < n
        invariant
            n == text@.len(),
            i <= n,
            lines@ + wrapped_from(text@, i as int) == wrapped_from(text@, 0),
        decreases n - i,
    {
        let ghost before = lines@;
        let ghost from = i as int;
        let end: usize = if n - i <= 64 { n } else { i + 64 };
        lines.extend_from_slice(vstd::slice::slice_subrange(text, i, end));
        lines.push('\n');
        i = end;
        proof {
            assert(lines@ =~= before + text@.subrange(from, end as int).push('\n'));
            if end == n {
                assert(text@.skip(from) =~= text@.subrange(from, end as int));
            }
            assert(lines@ + wrapped_from(text@, i as int) =~= before + wrapped_from(text@, from));
        }
    }
    assert(lines@ =~= wrapped_from(text@, 0));
    lines
}

/// A certificate in PEM, in lines of 64 characters.
pub fn der_to_pem(der: &[u8]) -> (pem: String)
    requires
        (der@.len() + 2) / 3 * 4 <= usize::MAX,
    ensures
        pem@ == pem_text(der@),
{
    let encoded = chars_of(&base64_of(der));
    let mut pem = "-----BEGIN CERTIFICATE-----\n".to_owned();
    pem.append(&string_of(&wrap(&encoded)));
    pem.append("-----END CERTIFICATE-----\n");
    pem
}

/// Whether all certificates can be encoded.
pub open spec fn all_encodable(certs: Seq<Vec<u8>>) -> bool {
    forall|i: int| 0 <= i < certs.len() ==> (#[trigger] certs[i]@.len() + 2) / 3 * 4 <= usize::MAX
}

/// The first certificates in PEM, one after the other.
pub open spec fn pem_bundle(certs: Seq<Vec<u8>>) -> Seq<char>
    decreases certs.len(),
{
    if certs.len() == 0 {
        Seq::empty()
    } else {
        pem_bundle(certs.drop_last()) + pem_text(certs.last()@)
    }
}

/// Certificates in PEM, one after the other.
pub fn bundle(certs: &Vec<Vec<u8>>) -> (pem: String)
    requires
        all_encodable(certs@),
    ensures
        pem@ == pem_bundle(certs@),
{
    let mut pem = String::new();
    let mut i: usize = 0;
    assert(certs@.take(0) =~= Seq::empty());
    while i < certs.len()
        invariant
            i <= certs@.len(),
            all_encodable(certs@),
            pem@ == pem_bundle(certs@.take(i as int)),
        decreases certs.len() - i,
    {
        assert(certs@.take(i + 1).drop_last() =~= certs@.take(i as int));
        assert((certs@[i as int]@.len() + 2) / 3 * 4 <= usize::MAX);
        pem.append(&der_to_pem(certs[i].as_slice()));
        i = i + 1;
    }
    assert(certs@.take(i as int) =~= certs@);
    pem
}

/// The system's root certificates in PEM, or nothing where it has none.
pub fn system_ca_pem(certs: &Vec<Vec<u8>>) -> (pem: Option<String>)
    requires
        all_encodable(certs@),
    ensures
        match pem {
            Some(text) => certs@.len() > 0 && text@ == pem_bundle(certs@),
            None => certs@.len() == 0,
        },
{
    if certs.len() == 0 {
        None
    } else {
        Some(bundle(certs))
    }
}

/// Text without its line ends.
pub open spec fn unwrapped(text: Seq<char>) -> Seq<char> {
    text.filter(|c: char| c != '\n')
}

/// Wrapping adds nothing but line ends: without them the text is as it was.
pub proof fn wrapping_adds_only_line_ends(text: Seq<char>, i: int)
    requires
        0 <= i <= text.len(),
        forall|k: int| 0 <= k < text.len() ==> text[k] != '\n',
    ensures
        unwrapped(wrapped_from(text, i)) == text.skip(i),
    decreases text.len() - i,
{
    let keep = |c: char| c != '\n';
    if i >= text.len() {
        assert(text.skip(i) =~= Seq::empty());
        assert(wrapped_from(text, i).filter(keep) =~= Seq::empty()) by {
            reveal(Seq::filter);
        }
    } else {
        let end = if text.len() - i <= 64 {
            text.len() as int
        } else {
            i + 64
        };
        let line = text.subrange(i, end);
        assert(line.push('\n').filter(keep) == line) by {
            reveal(Seq::filter);
            assert(line.push('\n').drop_last() =~= line);
            nothing_is_filtered(line);
        }
        if text.len() - i <= 64 {
            assert(text.skip(i) =~= line);
        } else {
            wrapping_adds_only_line_ends(text, end);
            let rest = wrapped_from(text, end);
            Seq::filter_distributes_over_add(line.push('\n'), rest, keep);
            assert(line + text.skip(end) =~= text.skip(i));
        }
    }
}

proof fn nothing_is_filtered(line: Seq<char>)
    requires
        forall|k: int| 0 <= k < line.len() ==> line[k] != '\n',
    ensures
        line.filter(|c: char| c != '\n') == line,
    decreases line.len(),
{
    reveal(Seq::filter);
    if line.len() > 0 {
        nothing_is_filtered(line.drop_last());
        assert(line.drop_last().push(line.last()) =~= line);
    }
}

/// Base64 never holds a line end, so a certificate's lines join to its base64.
pub proof fn pem_lines_join_to_base64(der: Seq<u8>)
    ensures
        unwrapped(wrapped_from(base64_text(der), 0)) == base64_text(der),
{
    let text = base64_text(der);
    assert forall|k: int| 0 <= k < text.len() implies text[k] != '\n' by {
        let n = six_bits(der, k);
        assert(0 <= n < 64);
    }
    wrapping_adds_only_line_ends(text, 0);
    assert(text.skip(0) =~= text);
}

/// Bytes in base64 can be read back: the six bits of each character make up the bytes again.
pub proof fn base64_holds_all_bits(b: Seq<u8>, q: int)
    requires
        0 <= q,
        3 * q < b.len(),
    ensures
        b[3 * q] == six_bits(b, 4 * q) * 4 + six_bits(b, 4 * q + 1) / 16,
        3 * q + 1 < b.len() ==> b[3 * q + 1] == six_bits(b, 4 * q + 1) % 16 * 16 + six_bits(b, 4 * q + 2) / 4,
        3 * q + 2 < b.len() ==> b[3 * q + 2] == six_bits(b, 4 * q + 2) % 4 * 64 + six_bits(b, 4 * q + 3),
        0 <= six_bits(b, 4 * q) < 64 && 0 <= six_bits(b, 4 * q + 1) < 64 && 0 <= six_bits(b, 4 * q + 2) < 64 && 0
            <= six_bits(b, 4 * q + 3) < 64,
{
}

/// Each character of base64 stands for six bits of its own.
pub proof fn base64_characters_differ(n: int, m: int)
    requires
        0 <= n < 64,
        0 <= m < 64,
    ensures
        base64_char(n) == base64_char(m) ==> n == m,
        base64_char(n) != '=' && base64_char(n) != '\n',
{
}

/// A certificate in PEM stands between its two lines, and a row of certificates is one behind
/// the other, in their order.
pub proof fn certificates_stand_between_their_lines(der: Seq<u8>, first: Seq<Vec<u8>>, second: Seq<Vec<u8>>, one: Vec<u8>)
    ensures
        crate::text::starts_with(pem_text(der), "-----BEGIN CERTIFICATE-----\n"@),
        crate::text::ends_with(pem_text(der), "-----END CERTIFICATE-----\n"@),
        pem_bundle(first + second) == pem_bundle(first) + pem_bundle(second),
        pem_bundle(seq![one]) == pem_text(one@),
    decreases second.len(),
{
    let begin = "-----BEGIN CERTIFICATE-----\n"@;
    let stop = "-----END CERTIFICATE-----\n"@;
    let pem = pem_text(der);
    assert(pem.take(begin.len() as int) =~= begin);
    assert(pem.skip(pem.len() - stop.len()) =~= stop);
    assert(seq![one].drop_last() =~= Seq::empty());
    assert(pem_bundle(seq![one].drop_last()) =~= Seq::empty());
    assert(pem_bundle(seq![one]) =~= pem_text(one@));
    if second.len() == 0 {
        assert(first + second =~= first);
        assert(pem_bundle(first) + pem_bundle(second) =~= pem_bundle(first));
    } else {
        certificates_stand_between_their_lines(der, first, second.drop_last(), one);
        assert((first + second).drop_last() =~= first + second.drop_last());
        assert(pem_bundle(first + second) =~= pem_bundle(first) + pem_bundle(second));
    }
}

/// A line of a certificate has 64 characters, and only the last one has fewer.
pub proof fn lines_have_64_characters(text: Seq<char>, i: int)
    requires
        0 <= i < text.len(),
    ensures
        text.len() - i > 64 ==> wrapped_from(text, i).take(65) == text.subrange(i, i + 64).push('\n') && wrapped_from(
            text,
            i,
        ).skip(65) == wrapped_from(text, i + 64),
        text.len() - i <= 64 ==> wrapped_from(text, i) == text.skip(i).push('\n'),
{
    if text.len() - i > 64 {
        let line = text.subrange(i, i + 64).push('\n');
        assert(wrapped_from(text, i).take(65) =~= line);
        assert(wrapped_from(text, i).skip(65) =~= wrapped_from(text, i + 64));
    }
}

/// Certificates are bundled one behind the other, each between its lines; without any there is
/// no bundle.
pub proof fn certificates_are_bundled(certs: &Vec<Vec<u8>>, all: String, pem: Option<String>, der: &[u8], one: String)
    requires
        call_ensures(bundle, (certs,), all),
        call_ensures(system_ca_pem, (certs,), pem),
        call_ensures(der_to_pem, (der,), one),
    ensures
        certs@.len() == 0 <==> pem is None,
        pem matches Some(text) ==> text@ == all@,
        certs@.len() == 0 ==> all@.len() == 0,
        certs@.len() == 1 && certs@[0]@ == der@ ==> all@ == one@,
        crate::text::starts_with(one@, "-----BEGIN CERTIFICATE-----\n"@),
        crate::text::ends_with(one@, "-----END CERTIFICATE-----\n"@),
{
    if certs@.len() > 0 {
        certificates_stand_between_their_lines(der@, Seq::empty(), Seq::empty(), certs@[0]);
        if certs@.len() == 1 {
            assert(certs@ =~= seq![certs@[0]]);
        }
    } else {
        certificates_stand_between_their_lines(der@, certs@, Seq::empty(), arbitrary());
    }
}

/// Six bits are a letter, a digit, a plus or a slash: the capital letters first, the small ones
/// behind them, and the digits last.
pub proof fn six_bits_are_a_letter_or_a_digit(n: int)
    requires
        0 <= n < 64,
    ensures
        'A' <= base64_char(n) <= 'Z' <==> n < 26,
        'a' <= base64_char(n) <= 'z' <==> 26 <= n < 52,
        '0' <= base64_char(n) <= '9' <==> 52 <= n < 62,
        base64_char(n) == '+' <==> n == 62,
        base64_char(n) == '/' <==> n == 63,
{
}

/// Each three bytes become four characters, and signs of equality stand for the bytes that the
/// last three lack, and nowhere else.
pub proof fn signs_of_equality_fill_up(b: Seq<u8>, k: int)
    requires
        0 <= k < base64_text(b).len(),
    ensures
        base64_text(b).len() % 4 == 0,
        b.len() <= base64_text(b).len() / 4 * 3 < b.len() + 3,
        b.len() % 3 == 0 ==> base64_text(b)[k] != '=',
        b.len() % 3 == 1 ==> (base64_text(b)[k] == '=' <==> k >= base64_text(b).len() - 2),
        b.len() % 3 == 2 ==> (base64_text(b)[k] == '=' <==> k == base64_text(b).len() - 1),
{
    let q = k / 4;
    assert(k == 4 * q + k % 4);
    if 3 * q < b.len() {
        base64_holds_all_bits(b, q);
        base64_characters_differ(six_bits(b, k), 0);
    }
}

} // verus!
