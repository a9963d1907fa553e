use vstd::prelude::*;
use x509_parser::prelude::FromDer;
use x509_parser::certificate::X509Certificate;
use x509_parser::public_key::PublicKey;

verus! {

/// A decoded X.509 certificate of x509-parser, borrowed from its DER bytes.
#[verifier::external_type_specification]
#[verifier::external_body]
pub struct ExX509Certificate<'a>(X509Certificate<'a>);

/// Whether x509-parser decodes a certificate from the start of these bytes.
pub uninterp spec fn der_certificate_decodes(der: Seq<u8>) -> bool;

/// The sections that the pem crate finds in these bytes, each as its tag
/// and its decoded contents; `None` where it refuses the input.
pub uninterp spec fn pem_sections_of(data: Seq<u8>) -> Option<Seq<(Seq<char>, Seq<u8>)>>;

/// A tag and its contents as plain sequences.
pub open spec fn section_view(p: (String, Vec<u8>)) -> (Seq<char>, Seq<u8>) {
    (p.0@, p.1@)
}

/// Relies on `pem::parse_many`: the PEM sections of the input, each with
/// `Pem::tag` and `Pem::contents`.
#[verifier::external_body]
pub(crate) fn pem_sections(data: &[u8]) -> (r: Option<Vec<(String, Vec<u8>)>>)
    ensures
        r is Some <==> pem_sections_of(data@) is Some,
        r is Some ==> pem_sections_of(data@) == Some(r->0@.map_values(|p: (String, Vec<u8>)| section_view(p))),
{
    let pems = pem::parse_many(data).ok()?;
    let mut sections = Vec::new();
    for p in pems.iter() {
        sections.push((p.tag().to_string(), p.contents().to_vec()));
    }
    Some(sections)
}

/// The kind of a certificate's public key, as far as the record names it.
#[derive(Debug, Clone, Copy, PartialEq, Eq, Structural)]
pub enum PublicKeyKind {
    /// An RSA key, with the length in bytes of its modulus.
    Rsa { modulus_len: usize },
    Ec,
    Dsa,
    GostR3410,
    GostR3410_2012,
    Unknown,
}

/// A certificate as x509-parser decoded it, kept together with the DER
/// bytes it was decoded from. Only `decode_der_certificate` makes one, so
/// what its readers return is what x509-parser reads from those bytes.
pub struct DecodedCertificate<'a> {
    der: &'a [u8],
    cert: X509Certificate<'a>,
}

impl<'a> DecodedCertificate<'a> {
    /// The DER bytes the certificate was decoded from.
    pub closed spec fn der_bytes(&self) -> Seq<u8> {
        self.der@
    }
}

/// The subject that x509-parser decodes from these bytes, written by its `Display`.
pub uninterp spec fn der_subject_of(der: Seq<u8>) -> Seq<char>;

/// The issuer that x509-parser decodes from these bytes, written by its `Display`.
pub uninterp spec fn der_issuer_of(der: Seq<u8>) -> Seq<char>;

/// The serial number decoded from these bytes, in lower-case hexadecimal.
pub uninterp spec fn der_serial_hex_of(der: Seq<u8>) -> Seq<char>;

/// The start of the validity period decoded from these bytes in RFC 2822
/// form; `None` where it cannot be written so.
pub uninterp spec fn der_not_before_of(der: Seq<u8>) -> Option<Seq<char>>;

/// The end of the validity period decoded from these bytes in RFC 2822
/// form; `None` where it cannot be written so.
pub uninterp spec fn der_not_after_of(der: Seq<u8>) -> Option<Seq<char>>;

/// The kind of public key decoded from these bytes.
pub uninterp spec fn der_public_key_of(der: Seq<u8>) -> PublicKeyKind;

/// The signature algorithm OID decoded from these bytes, in dotted form.
pub uninterp spec fn der_signature_oid_of(der: Seq<u8>) -> Seq<char>;

/// The signature algorithm OID decoded from these bytes, in its debug form.
pub uninterp spec fn der_signature_oid_debug_of(der: Seq<u8>) -> Seq<char>;

/// The extensions decoded from these bytes: OID in dotted form, critical
/// flag, raw value in debug form.
pub uninterp spec fn der_extensions_of(der: Seq<u8>) -> Seq<(Seq<char>, bool, Seq<char>)>;

/// Whether the certificate decoded from these bytes is a CA.
pub uninterp spec fn der_is_ca_of(der: Seq<u8>) -> bool;

/// The version number decoded from these bytes.
pub uninterp spec fn der_version_of(der: Seq<u8>) -> u32;

/// Relies on x509-parser's `X509Certificate::from_der`, which decodes one
/// certificate from the start of the bytes and leaves the rest; its error is
/// kept as text.
#[verifier::external_body]
pub(crate) fn decode_der_certificate<'a>(der: &'a [u8]) -> (r: Result<DecodedCertificate<'a>, String>)
    ensures
        r is Ok <==> der_certificate_decodes(der@),
        r is Ok ==> r->Ok_0.der_bytes() == der@,
{
    match X509Certificate::from_der(der) {
        Ok((_, cert)) => Ok(DecodedCertificate { der, cert }),
        Err(e) => Err(e.to_string()),
    }
}

/// Relies on x509-parser's `X509Certificate::subject`, written by its
/// `Display`.
#[verifier::external_body]
pub(crate) fn subject_text(c: &DecodedCertificate) -> (r: String)
    ensures
        r@ == der_subject_of(c.der_bytes()),
{
    c.cert.subject().to_string()
}

/// Relies on x509-parser's `X509Certificate::issuer`, written by its
/// `Display`.
#[verifier::external_body]
pub(crate) fn issuer_text(c: &DecodedCertificate) -> (r: String)
    ensures
        r@ == der_issuer_of(c.der_bytes()),
{
    c.cert.issuer().to_string()
}

/// Relies on the `serial` field of x509-parser's certificate, written in
/// lower-case hexadecimal by its `LowerHex`.
#[verifier::external_body]
pub(crate) fn serial_hex(c: &DecodedCertificate) -> (r: String)
    ensures
        r@ == der_serial_hex_of(c.der_bytes()),
{
    format!("{:x}", c.cert.serial)
}

/// Relies on x509-parser's `ASN1Time::to_rfc2822` for the start of the
/// validity period; `None` where it cannot write the date.
#[verifier::external_body]
pub(crate) fn not_before_rfc2822(c: &DecodedCertificate) -> (r: Option<String>)
    ensures
        r is Some <==> der_not_before_of(c.der_bytes()) is Some,
        r is Some ==> der_not_before_of(c.der_bytes()) == Some(r->0@),
{
    c.cert.validity().not_before.to_rfc2822().ok()
}

/// Relies on x509-parser's `ASN1Time::to_rfc2822` for the end of the
/// validity period; `None` where it cannot write the date.
#[verifier::external_body]
pub(crate) fn not_after_rfc2822(c: &DecodedCertificate) -> (r: Option<String>)
    ensures
        r is Some <==> der_not_after_of(c.der_bytes()) is Some,
        r is Some ==> der_not_after_of(c.der_bytes()) == Some(r->0@),
{
    c.cert.validity().not_after.to_rfc2822().ok()
}

/// Relies on x509-parser's `SubjectPublicKeyInfo::parsed`: which kind of key
/// it finds, and for RSA the length of the modulus.
#[verifier::external_body]
pub(crate) fn public_key_kind(c: &DecodedCertificate) -> (r: PublicKeyKind)
    ensures
        r == der_public_key_of(c.der_bytes()),
{
    match c.cert.public_key().parsed() {
        Ok(PublicKey::RSA(rsa)) => PublicKeyKind::Rsa { modulus_len: rsa.modulus.len() },
        Ok(PublicKey::EC(_)) => PublicKeyKind::Ec,
        Ok(PublicKey::DSA(_)) => PublicKeyKind::Dsa,
        Ok(PublicKey::GostR3410(_)) => PublicKeyKind::GostR3410,
        Ok(PublicKey::GostR3410_2012(_)) => PublicKeyKind::GostR3410_2012,
        _ => PublicKeyKind::Unknown,
    }
}

/// Relies on the signature algorithm OID of x509-parser's certificate,
/// written in dotted form by its `Display`.
#[verifier::external_body]
pub(crate) fn signature_oid_text(c: &DecodedCertificate) -> (r: String)
    ensures
        r@ == der_signature_oid_of(c.der_bytes()),
{
    c.cert.signature_algorithm.algorithm.to_string()
}

/// Relies on the signature algorithm OID of x509-parser's certificate,
/// written by its `Debug`.
#[verifier::external_body]
pub(crate) fn signature_oid_debug(c: &DecodedCertificate) -> (r: String)
    ensures
        r@ == der_signature_oid_debug_of(c.der_bytes()),
{
    format!("{:?}", c.cert.signature_algorithm.algorithm)
}

/// An extension's OID, flag and value as plain sequences.
pub open spec fn extension_view(e: (String, bool, String)) -> (Seq<char>, bool, Seq<char>) {
    (e.0@, e.1, e.2@)
}

/// Relies on x509-parser's `X509Certificate::extensions`: for each, its OID
/// in dotted form, its critical flag, and its raw value written by `Debug`.
#[verifier::external_body]
pub(crate) fn raw_extensions(c: &DecodedCertificate) -> (r: Vec<(String, bool, String)>)
    ensures
        r@.map_values(|e: (String, bool, String)| extension_view(e)) == der_extensions_of(c.der_bytes()),
{
    let mut found = Vec::new();
    for e in c.cert.extensions() {
        found.push((e.oid.to_string(), e.critical, format!("{:?}", e.value)));
    }
    found
}

/// Relies on x509-parser's `X509Certificate::is_ca`.
#[verifier::external_body]
pub(crate) fn certificate_is_ca(c: &DecodedCertificate) -> (r: bool)
    ensures
        r == der_is_ca_of(c.der_bytes()),
{
    c.cert.is_ca()
}

/// Relies on the `version` field of x509-parser's certificate.
#[verifier::external_body]
pub(crate) fn certificate_version(c: &DecodedCertificate) -> (r: u32)
    ensures
        r == der_version_of(c.der_bytes()),
{
    c.cert.version.0
}

/// The text `YYYY-MM-DD HH:MM:SS` that chrono writes for an RFC 2822 date;
/// `None` where chrono does not read the date.
pub uninterp spec fn rfc2822_display_of(s: Seq<char>) -> Option<Seq<char>>;

/// Relies on `chrono::DateTime::parse_from_rfc2822`, written again with the
/// format `%Y-%m-%d %H:%M:%S`.
#[verifier::external_body]
pub(crate) fn rfc2822_to_display(s: &str) -> (r: Option<String>)
    ensures
        r is Some <==> rfc2822_display_of(s@) is Some,
        r is Some ==> rfc2822_display_of(s@) == Some(r->0@),
{
    match chrono::DateTime::parse_from_rfc2822(s) {
        Ok(d) => Some(d.format("%Y-%m-%d %H:%M:%S").to_string()),
        Err(_) => None,
    }
}

} // verus!
