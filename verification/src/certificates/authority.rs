//! Host names as the certificate authority keys them, and certificate fingerprints.

use crate::capture::model::{CertificateInformation, CertificateInformationView};
use crate::text;
use vstd::prelude::*;

verus! {

/// The file that holds the CA certificate.
pub const CA_CERT_FILE: &'static str = "TLScope-ca.pem";

/// The file that holds the CA private key.
pub const CA_KEY_FILE: &'static str = "TLScope-ca-key.pem";

/// The file whose presence says that this program created the CA files.
pub const MARKER_FILE: &'static str = "TLScope-created";

/// A host as leaf certificates are issued for it: without brackets around it, in
/// lower case.
pub open spec fn normalized_host(host: Seq<char>) -> Seq<char> {
    text::lower(text::trim_char(text::trim_char(host, '['), ']'))
}

/// Normalizes a host for issuing and caching leaf certificates.
pub fn normalize_host(host: &str) -> (r: String)
    ensures
        r@ == normalized_host(host@),
{
    let a = text::trim_char_str(host, '[');
    let b = text::trim_char_str(a.as_str(), ']');
    text::to_lower(b.as_str())
}

/// The upper-case hexadecimal text of bytes, two digits per byte, as
/// `hex::encode_upper` writes it.
pub open spec fn hex_upper_text(b: Seq<u8>) -> Seq<char>
    decreases b.len(),
{
    if b.len() == 0 {
        Seq::empty()
    } else {
        hex_upper_text(b.drop_last()) + seq![
            text::hex_upper_char((b.last() / 16) as nat),
            text::hex_upper_char((b.last() % 16) as nat),
        ]
    }
}

/// Bytes as upper-case hexadecimal text.
pub fn encode_upper(bytes: &[u8]) -> (r: String)
    ensures
        r@ == hex_upper_text(bytes@),
{
    let mut out = String::new();
    let mut i: usize = 0;
    proof {
        assert(bytes@.take(0) =~= Seq::<u8>::empty());
    }
    while i < bytes.len()
        invariant
            0 <= i <= bytes@.len(),
            out@ == hex_upper_text(bytes@.take(i as int)),
        decreases bytes.len() - i,
    {
        text::push_hex_byte(&mut out, bytes[i]);
        proof {
            assert(bytes@.take(i + 1).drop_last() =~= bytes@.take(i as int));
        }
        i = i + 1;
    }
    proof {
        assert(bytes@.take(bytes@.len() as int) =~= bytes@);
    }
    out
}

/// The name of the SHA-256 digest of bytes, as `sha2::Sha256::digest` computes it.
pub uninterp spec fn sha256(bytes: Seq<u8>) -> Seq<u8>;

/// The SHA-256 digest of bytes, by `sha2::Sha256::digest`: 32 bytes.
#[verifier::external_body]
pub(crate) fn sha256_digest(bytes: &[u8]) -> (r: Vec<u8>)
    ensures
        r@ == sha256(bytes@),
        r@.len() == 32,
{
    <sha2::Sha256 as sha2::Digest>::digest(bytes).to_vec()
}

/// The fingerprint of a DER certificate: its SHA-256 digest in upper-case
/// hexadecimal.
pub fn fingerprint_der(der: &[u8]) -> (r: String)
    ensures
        r@ == hex_upper_text(sha256(der@)),
{
    let digest = sha256_digest(der);
    encode_upper(digest.as_slice())
}

/// The name of what `rustls_pemfile::certs` yields first for a PEM text: the DER
/// bytes of its first certificate, `None` when it holds none, or an error.
pub uninterp spec fn first_pem_certificate(pem: Seq<char>) -> Result<Option<Seq<u8>>, ()>;

/// Reads the first certificate of a PEM text with `rustls_pemfile::certs`.
#[verifier::external_body]
fn first_certificate(pem: &str) -> (r: Result<Option<Vec<u8>>, ()>)
    ensures
        match r {
            Ok(Some(d)) => first_pem_certificate(pem@) == Ok::<Option<Seq<u8>>, ()>(Some(d@)),
            Ok(None) => first_pem_certificate(pem@) == Ok::<Option<Seq<u8>>, ()>(None),
            Err(()) => first_pem_certificate(pem@) == Err::<Option<Seq<u8>>, ()>(()),
        },
{
    let mut reader = std::io::BufReader::new(pem.as_bytes());
    let first = rustls_pemfile::certs(&mut reader).next();
    match first {
        Some(Ok(cert)) => Ok(Some(cert.as_ref().to_vec())),
        Some(Err(_)) => Err(()),
        None => Ok(None),
    }
}

/// The DER bytes of the first certificate of a CA PEM text, or why there are none.
pub fn ca_der_from_pem(pem: &str) -> (r: Result<Vec<u8>, String>)
    ensures
        match first_pem_certificate(pem@) {
            Err(()) => r matches Err(m) && m@ == "cannot parse CA certificate PEM"@,
            Ok(None) => r matches Err(m) && m@ == "CA PEM contains no certificate"@,
            Ok(Some(der)) => r matches Ok(d) && d@ == der,
        },
{
    match first_certificate(pem) {
        Err(()) => Err(text::to_owned("cannot parse CA certificate PEM")),
        Ok(None) => Err(text::to_owned("CA PEM contains no certificate")),
        Ok(Some(der)) => Ok(der),
    }
}

/// The fingerprint of the first certificate of a PEM text: its SHA-256 digest in
/// upper-case hexadecimal; or why there is none.
pub open spec fn pem_fingerprint(pem: Seq<char>) -> Result<Seq<char>, Seq<char>> {
    match first_pem_certificate(pem) {
        Err(()) => Err("cannot parse certificate PEM"@),
        Ok(None) => Err("certificate PEM does not contain a certificate"@),
        Ok(Some(der)) => Ok(hex_upper_text(sha256(der))),
    }
}

/// The SHA-256 fingerprint of the first certificate of a PEM text.
pub fn fingerprint_pem(pem: &str) -> (r: Result<String, String>)
    ensures
        match pem_fingerprint(pem@) {
            Ok(f) => r matches Ok(x) && x@ == f,
            Err(e) => r matches Err(m) && m@ == e,
        },
{
    match first_certificate(pem) {
        Err(()) => Err(text::to_owned("cannot parse certificate PEM")),
        Ok(None) => Err(text::to_owned("certificate PEM does not contain a certificate")),
        Ok(Some(der)) => {
            let digest = sha256_digest(der.as_slice());
            Ok(encode_upper(digest.as_slice()))
        },
    }
}

/// The name of what `x509_parser::parse_x509_certificate` gives for DER bytes, as
/// text: the issuer, the subject, and the start and end of the validity, each as its
/// `Display` writes it; or the parse error's text.
pub uninterp spec fn certificate_fields(der: Seq<u8>) -> Result<(Seq<char>, Seq<char>, Seq<char>, Seq<char>), Seq<char>>;

/// Parses DER bytes with `x509_parser::parse_x509_certificate` and writes the issuer,
/// subject and validity with their `Display`.
#[verifier::external_body]
fn parse_certificate_fields(der: &[u8]) -> (r: Result<(String, String, String, String), String>)
    ensures
        match r {
            Ok(f) => certificate_fields(der@) == Ok::<_, Seq<char>>((f.0@, f.1@, f.2@, f.3@)),
            Err(e) => certificate_fields(der@) == Err::<(Seq<char>, Seq<char>, Seq<char>, Seq<char>), _>(e@),
        },
{
    match x509_parser::parse_x509_certificate(der) {
        Ok((_, c)) => Ok((
            c.issuer().to_string(),
            c.subject().to_string(),
            c.validity().not_before.to_string(),
            c.validity().not_after.to_string(),
        )),
        Err(e) => Err(e.to_string()),
    }
}

/// The name of the subject alternative names that `x509_parser` finds in DER bytes,
/// each as `GeneralName`'s `Display` writes it; none when the bytes do not parse or
/// the extension is missing or malformed.
pub uninterp spec fn certificate_san(der: Seq<u8>) -> Seq<Seq<char>>;

/// The subject alternative names of a DER certificate, by
/// `X509Certificate::subject_alternative_name`.
#[verifier::external_body]
fn subject_alt_names(der: &[u8]) -> (r: Vec<String>)
    ensures
        text::views(r@) == certificate_san(der@),
{
    match x509_parser::parse_x509_certificate(der) {
        Ok((_, c)) => match c.subject_alternative_name() {
            Ok(Some(san)) => san.value.general_names.iter().map(|n| format!("{n}")).collect(),
            _ => Vec::new(),
        },
        Err(_) => Vec::new(),
    }
}

/// The details shown for a certificate, or why its DER bytes do not parse.
pub open spec fn certificate_information_of(der: Seq<u8>) -> Result<CertificateInformationView, Seq<char>> {
    match certificate_fields(der) {
        Ok(f) => Ok(CertificateInformationView {
            issuer: f.0,
            subject: f.1,
            san: certificate_san(der),
            valid_from: f.2,
            valid_until: f.3,
            sha256_fingerprint: hex_upper_text(sha256(der)),
        }),
        Err(e) => Err("cannot parse upstream certificate: "@ + e),
    }
}

/// The details of a certificate: issuer, subject, alternative names, validity and
/// SHA-256 fingerprint; or why its DER bytes do not parse.
pub fn certificate_information(der: &[u8]) -> (r: Result<CertificateInformation, String>)
    ensures
        match certificate_information_of(der@) {
            Ok(m) => r matches Ok(c) && c@ == m,
            Err(e) => r matches Err(m) && m@ == e,
        },
{
    match parse_certificate_fields(der) {
        Ok((issuer, subject, valid_from, valid_until)) => {
            let san = subject_alt_names(der);
            let sha256_fingerprint = fingerprint_der(der);
            Ok(CertificateInformation { issuer, subject, san, valid_from, valid_until, sha256_fingerprint })
        },
        Err(e) => {
            let mut m = text::to_owned("cannot parse upstream certificate: ");
            text::push_str(&mut m, e.as_str());
            Err(m)
        },
    }
}

/// The name of the years in which the validity of a CA certificate PEM begins and
/// ends, as `rcgen::CertificateParams::from_ca_cert_pem` reads them; or its error's
/// text.
pub uninterp spec fn ca_pem_validity_years(pem: Seq<char>) -> Result<(i32, i32), Seq<char>>;

/// Reads a CA certificate PEM with `rcgen::CertificateParams::from_ca_cert_pem` and
/// gives the years of its `not_before` and `not_after`.
#[verifier::external_body]
fn ca_validity_years(pem: &str) -> (r: Result<(i32, i32), String>)
    ensures
        match r {
            Ok(y) => ca_pem_validity_years(pem@) == Ok::<(i32, i32), Seq<char>>(y),
            Err(e) => ca_pem_validity_years(pem@) == Err::<(i32, i32), Seq<char>>(e@),
        },
{
    match rcgen::CertificateParams::from_ca_cert_pem(pem) {
        Ok(p) => Ok((p.not_before.year(), p.not_after.year())),
        Err(e) => Err(e.to_string()),
    }
}

/// Whether a CA certificate has the validity that `rcgen` gives when none is set
/// (from 1975 to 4096): such a CA was made by an earlier version of this program
/// and is made again.
pub fn has_rcgen_default_validity(not_before_year: i32, not_after_year: i32) -> (r: bool)
    ensures
        r == (not_before_year <= 1975 && not_after_year >= 4096),
{
    not_before_year <= 1975 && not_after_year >= 4096
}

/// Whether a CA certificate made by this program has `rcgen`'s default validity and
/// is made again; or why its PEM cannot be read.
pub fn legacy_ca_needs_recreate(cert_pem: &str) -> (r: Result<bool, String>)
    ensures
        match ca_pem_validity_years(cert_pem@) {
            Ok((from, until)) => r == Ok::<bool, String>(from <= 1975 && until >= 4096),
            Err(e) => r matches Err(m) && m@ == "cannot parse existing CA certificate: "@ + e,
        },
{
    match ca_validity_years(cert_pem) {
        Ok((from, until)) => Ok(has_rcgen_default_validity(from, until)),
        Err(e) => {
            let mut m = text::to_owned("cannot parse existing CA certificate: ");
            text::push_str(&mut m, e.as_str());
            Err(m)
        },
    }
}

/// What removing the CA files does: nothing (`None`) unless the marker file says this
/// program created them and the user confirmed; then the files to delete, each where
/// it exists, in order: the certificate, the key and the marker.
pub fn removal_plan(marker_present: bool, confirmed: bool) -> (r: Option<Vec<&'static str>>)
    ensures
        r is Some <==> marker_present && confirmed,
        r matches Some(files) ==> files@ == seq![CA_CERT_FILE, CA_KEY_FILE, MARKER_FILE],
{
    if !marker_present || !confirmed {
        return None;
    }
    Some(vec![CA_CERT_FILE, CA_KEY_FILE, MARKER_FILE])
}

} // verus!
