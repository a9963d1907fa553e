use vstd::prelude::*;
use vstd::string::StrSliceExecFns;
use crate::error::CertError;
use crate::models::{CertificateInfo, ExtensionInfo};
use crate::text::{chars_of, contains_text, decimal, decimal_text, is_white_space, text_contains, text_eq, white_space};
use crate::x509::{
    certificate_is_ca, certificate_version, decode_der_certificate, der_certificate_decodes,
    der_extensions_of, der_is_ca_of, der_issuer_of, der_not_after_of, der_not_before_of,
    der_public_key_of, der_serial_hex_of, der_signature_oid_debug_of, der_signature_oid_of,
    der_subject_of, der_version_of, extension_view, issuer_text, not_after_rfc2822,
    not_before_rfc2822, pem_sections, pem_sections_of, public_key_kind, raw_extensions,
    rfc2822_display_of, rfc2822_to_display, serial_hex, signature_oid_debug, signature_oid_text,
    subject_text, DecodedCertificate, PublicKeyKind,
};

verus! {

/// The character sequence of an optional text.
pub open spec fn text_option(t: Option<String>) -> Option<Seq<char>> {
    match t {
        Some(s) => Some(s@),
        None => None,
    }
}

// ---------------------------------------------------------------------------
// Common name of a distinguished name
// ---------------------------------------------------------------------------

/// `t` without its leading white space.
pub open spec fn trim_start(t: Seq<char>) -> Seq<char>
    decreases t.len(),
{
    if t.len() > 0 && is_white_space(t[0]) {
        trim_start(t.drop_first())
    } else {
        t
    }
}

/// `t` without its trailing white space.
pub open spec fn trim_end(t: Seq<char>) -> Seq<char>
    decreases t.len(),
{
    if t.len() > 0 && is_white_space(t.last()) {
        trim_end(t.drop_last())
    } else {
        t
    }
}

/// `t` without white space at either end.
pub open spec fn trim(t: Seq<char>) -> Seq<char> {
    trim_end(trim_start(t))
}

/// The common name that one comma-separated field of a distinguished name
/// gives: what follows `CN=` once the field is trimmed, if it starts so.
pub open spec fn field_common_name(field: Seq<char>) -> Option<Seq<char>> {
    let t = trim(field);
    if t.len() >= 3 && t[0] == 'C' && t[1] == 'N' && t[2] == '=' {
        Some(t.subrange(3, t.len() as int))
    } else {
        None
    }
}

/// The common name of the first field, from the field that starts at
/// `start` on, that has one; `i` is how far the current field has been read.
pub open spec fn common_name_scan(s: Seq<char>, start: int, i: int) -> Option<Seq<char>>
    decreases s.len() - i,
{
    if i >= s.len() {
        field_common_name(s.subrange(start, s.len() as int))
    } else if s[i] == ',' {
        match field_common_name(s.subrange(start, i)) {
            Some(cn) => Some(cn),
            None => common_name_scan(s, i + 1, i + 1),
        }
    } else {
        common_name_scan(s, start, i + 1)
    }
}

/// The common name of a distinguished name: that of its first field with
/// one, or else the whole name.
pub open spec fn common_name(subject: Seq<char>) -> Seq<char> {
    match common_name_scan(subject, 0, 0) {
        Some(cn) => cn,
        None => subject,
    }
}

/// The bounds of `c[start..end]` trimmed of white space.
fn trimmed_bounds(c: &Vec<char>, start: usize, end: usize) -> (r: (usize, usize))
    requires
        start <= end <= c.len(),
    ensures
        start <= r.0 <= r.1 <= end,
        c@.subrange(r.0 as int, r.1 as int) == trim(c@.subrange(start as int, end as int)),
{
    let mut a: usize = start;
    while a < end && white_space(c[a])
        invariant
            start <= a <= end <= c.len(),
            trim_start(c@.subrange(start as int, end as int)) == trim_start(c@.subrange(a as int, end as int)),
        decreases end - a,
    {
        assert(c@.subrange(a as int, end as int).drop_first() =~= c@.subrange(a + 1, end as int));
        a = a + 1;
    }
    let mut b: usize = end;
    while b > a && white_space(c[b - 1])
        invariant
            start <= a <= b <= end <= c.len(),
            trim_end(c@.subrange(a as int, end as int)) == trim_end(c@.subrange(a as int, b as int)),
        decreases b - a,
    {
        assert(c@.subrange(a as int, b as int).drop_last() =~= c@.subrange(a as int, b - 1));
        b = b - 1;
    }
    (a, b)
}

/// The common name of the field `c[start..end]` of `subject`.
fn field_cn(subject: &str, c: &Vec<char>, start: usize, end: usize) -> (r: Option<String>)
    requires
        c@ == subject@,
        start <= end <= c.len(),
    ensures
        text_option(r) == field_common_name(subject@.subrange(start as int, end as int)),
{
    let (a, b) = trimmed_bounds(c, start, end);
    if b - a >= 3 && c[a] == 'C' && c[a + 1] == 'N' && c[a + 2] == '=' {
        let cn = subject.substring_char(a + 3, b).to_owned();
        assert(cn@ =~= c@.subrange(a as int, b as int).subrange(3, (b - a) as int));
        Some(cn)
    } else {
        None
    }
}

/// The common name (`CN=`) of a distinguished name such as
/// `C=US, O=Example, CN=Example Root`: the first comma-separated field that,
/// trimmed of white space, starts with `CN=`, without that prefix. A name
/// without such a field is returned whole.
pub fn extract_cn(subject: &str) -> (r: String)
    ensures
        r@ == common_name(subject@),
{
    let c = chars_of(subject);
    let n = c.len();
    let mut start: usize = 0;
    let mut i: usize = 0;
    while i < n
        invariant
            c@ == subject@,
            n == c.len(),
            0 <= start <= i <= n,
            common_name_scan(subject@, 0, 0) == common_name_scan(subject@, start as int, i as int),
        decreases n - i,
    {
        if c[i] == ',' {
            match field_cn(subject, &c, start, i) {
                Some(cn) => {
                    return cn;
                },
                None => {
                    start = i + 1;
                },
            }
        }
        i = i + 1;
    }
    match field_cn(subject, &c, start, n) {
        Some(cn) => cn,
        None => subject.to_owned(),
    }
}

// ---------------------------------------------------------------------------
// Names of object identifiers
// ---------------------------------------------------------------------------

/// The name shown for a certificate extension, by its dotted OID.
pub open spec fn extension_name(oid: Seq<char>) -> Option<Seq<char>> {
    if oid == "2.5.29.14"@ {
        Some("Subject Key Identifier"@)
    } else if oid == "2.5.29.15"@ {
        Some("Key Usage"@)
    } else if oid == "2.5.29.16"@ {
        Some("Private Key Usage Period"@)
    } else if oid == "2.5.29.17"@ {
        Some("Subject Alternative Name"@)
    } else if oid == "2.5.29.18"@ {
        Some("Issuer Alternative Name"@)
    } else if oid == "2.5.29.19"@ {
        Some("Basic Constraints"@)
    } else if oid == "2.5.29.30"@ {
        Some("Name Constraints"@)
    } else if oid == "2.5.29.31"@ {
        Some("CRL Distribution Points"@)
    } else if oid == "2.5.29.32"@ {
        Some("Certificate Policies"@)
    } else if oid == "2.5.29.33"@ {
        Some("Policy Mappings"@)
    } else if oid == "2.5.29.35"@ {
        Some("Authority Information Access"@)
    } else if oid == "2.5.29.36"@ {
        Some("Policy Constraints"@)
    } else if oid == "2.5.29.37"@ {
        Some("Extended Key Usage"@)
    } else if oid == "2.5.29.46"@ {
        Some("Freshest CRL"@)
    } else if oid == "1.3.6.1.4.1.311.20.2"@ {
        Some("Microsoft Smart Card Login"@)
    } else if oid == "1.3.6.1.4.1.311.21.1"@ {
        Some("Microsoft Individual Code Signing"@)
    } else if oid == "1.2.840.113533.7.65.0"@ {
        Some("Entrust Version Information"@)
    } else if oid == "2.16.840.1.113730.1.1"@ {
        Some("Netscape Certificate Type"@)
    } else if oid == "2.23.42.7.0"@ {
        Some("VeriSign Individual SHA1 Hash"@)
    } else if oid == "1.3.6.1.5.5.7.1.1"@ {
        Some("Authority Information Access"@)
    } else if oid == "1.3.6.1.4.1.11129.2.4.2"@ {
        Some("Signed Certificate Timestamp"@)
    } else {
        None
    }
}

/// The name shown for a signature algorithm, by its dotted OID.
pub open spec fn signature_algorithm_name(oid: Seq<char>) -> Option<Seq<char>> {
    if oid == "1.2.840.113549.1.1.1"@ {
        Some("RSA with MD5"@)
    } else if oid == "1.2.840.113549.1.1.4"@ {
        Some("RSA with MD5"@)
    } else if oid == "1.2.840.113549.1.1.5"@ {
        Some("SHA1 with RSA"@)
    } else if oid == "1.2.840.113549.1.1.11"@ {
        Some("SHA256 with RSA"@)
    } else if oid == "1.2.840.113549.1.1.12"@ {
        Some("SHA384 with RSA"@)
    } else if oid == "1.2.840.113549.1.1.13"@ {
        Some("SHA512 with RSA"@)
    } else if oid == "1.3.14.3.2.29"@ {
        Some("SHA1 with RSA"@)
    } else if oid == "1.2.840.10045.4.1"@ {
        Some("SHA1 with ECDSA"@)
    } else if oid == "1.2.840.10045.4.3.2"@ {
        Some("SHA256 with ECDSA"@)
    } else if oid == "1.2.840.10045.4.3.3"@ {
        Some("SHA384 with ECDSA"@)
    } else if oid == "1.2.840.10045.4.3.4"@ {
        Some("SHA512 with ECDSA"@)
    } else if oid == "1.2.840.10040.4.3"@ {
        Some("SHA1 with DSA"@)
    } else {
        None
    }
}

/// Looks up the name of a certificate extension by its dotted OID.
pub fn oid_to_name(oid: &str) -> (r: Option<String>)
    ensures
        text_option(r) == extension_name(oid@),
{
    if text_eq(oid, "2.5.29.14") {
        return Some("Subject Key Identifier".to_owned());
    }
    if text_eq(oid, "2.5.29.15") {
        return Some("Key Usage".to_owned());
    }
    if text_eq(oid, "2.5.29.16") {
        return Some("Private Key Usage Period".to_owned());
    }
    if text_eq(oid, "2.5.29.17") {
        return Some("Subject Alternative Name".to_owned());
    }
    if text_eq(oid, "2.5.29.18") {
        return Some("Issuer Alternative Name".to_owned());
    }
    if text_eq(oid, "2.5.29.19") {
        return Some("Basic Constraints".to_owned());
    }
    if text_eq(oid, "2.5.29.30") {
        return Some("Name Constraints".to_owned());
    }
    if text_eq(oid, "2.5.29.31") {
        return Some("CRL Distribution Points".to_owned());
    }
    if text_eq(oid, "2.5.29.32") {
        return Some("Certificate Policies".to_owned());
    }
    if text_eq(oid, "2.5.29.33") {
        return Some("Policy Mappings".to_owned());
    }
    if text_eq(oid, "2.5.29.35") {
        return Some("Authority Information Access".to_owned());
    }
    if text_eq(oid, "2.5.29.36") {
        return Some("Policy Constraints".to_owned());
    }
    if text_eq(oid, "2.5.29.37") {
        return Some("Extended Key Usage".to_owned());
    }
    if text_eq(oid, "2.5.29.46") {
        return Some("Freshest CRL".to_owned());
    }
    if text_eq(oid, "1.3.6.1.4.1.311.20.2") {
        return Some("Microsoft Smart Card Login".to_owned());
    }
    if text_eq(oid, "1.3.6.1.4.1.311.21.1") {
        return Some("Microsoft Individual Code Signing".to_owned());
    }
    if text_eq(oid, "1.2.840.113533.7.65.0") {
        return Some("Entrust Version Information".to_owned());
    }
    if text_eq(oid, "2.16.840.1.113730.1.1") {
        return Some("Netscape Certificate Type".to_owned());
    }
    if text_eq(oid, "2.23.42.7.0") {
        return Some("VeriSign Individual SHA1 Hash".to_owned());
    }
    if text_eq(oid, "1.3.6.1.5.5.7.1.1") {
        return Some("Authority Information Access".to_owned());
    }
    if text_eq(oid, "1.3.6.1.4.1.11129.2.4.2") {
        return Some("Signed Certificate Timestamp".to_owned());
    }
    None
}

/// Looks up the name of a signature algorithm by its dotted OID.
pub fn signature_alg_to_name(oid_str: &str) -> (r: Option<String>)
    ensures
        text_option(r) == signature_algorithm_name(oid_str@),
{
    if text_eq(oid_str, "1.2.840.113549.1.1.1") {
        return Some("RSA with MD5".to_owned());
    }
    if text_eq(oid_str, "1.2.840.113549.1.1.4") {
        return Some("RSA with MD5".to_owned());
    }
    if text_eq(oid_str, "1.2.840.113549.1.1.5") {
        return Some("SHA1 with RSA".to_owned());
    }
    if text_eq(oid_str, "1.2.840.113549.1.1.11") {
        return Some("SHA256 with RSA".to_owned());
    }
    if text_eq(oid_str, "1.2.840.113549.1.1.12") {
        return Some("SHA384 with RSA".to_owned());
    }
    if text_eq(oid_str, "1.2.840.113549.1.1.13") {
        return Some("SHA512 with RSA".to_owned());
    }
    if text_eq(oid_str, "1.3.14.3.2.29") {
        return Some("SHA1 with RSA".to_owned());
    }
    if text_eq(oid_str, "1.2.840.10045.4.1") {
        return Some("SHA1 with ECDSA".to_owned());
    }
    if text_eq(oid_str, "1.2.840.10045.4.3.2") {
        return Some("SHA256 with ECDSA".to_owned());
    }
    if text_eq(oid_str, "1.2.840.10045.4.3.3") {
        return Some("SHA384 with ECDSA".to_owned());
    }
    if text_eq(oid_str, "1.2.840.10045.4.3.4") {
        return Some("SHA512 with ECDSA".to_owned());
    }
    if text_eq(oid_str, "1.2.840.10040.4.3") {
        return Some("SHA1 with DSA".to_owned());
    }
    None
}

/// The plain-language account of a signature algorithm, by the family its
/// name mentions: RSA first, then ECDSA, then DSA.
pub open spec fn signature_explanation(alg: Seq<char>) -> Seq<char> {
    if contains_text(alg, "RSA"@) {
        "This certificate uses RSA encryption with hashing. RSA is like a digital lock that only the certificate issuer has the key to open. The hashing creates a unique fingerprint of the certificate data. Together, they create a digital signature that proves the certificate is genuine and hasn't been tampered with. This is essential for secure websites and encrypted communications."@
    } else if contains_text(alg, "ECDSA"@) {
        "This certificate uses Elliptic Curve Digital Signature Algorithm (ECDSA). It's a modern, efficient way to create digital signatures using advanced mathematics with elliptic curves. Like RSA, it creates a unique signature that proves the certificate's authenticity, but it's faster and uses smaller keys. This helps keep internet communications secure and private."@
    } else if contains_text(alg, "DSA"@) {
        "This certificate uses Digital Signature Algorithm (DSA). It's a method for creating digital signatures that verify the authenticity of the certificate. Using mathematical techniques, it creates a unique code that only the legitimate issuer can produce. This prevents fake certificates and ensures trust in online communications."@
    } else {
        "This is a cryptographic signature method that verifies the certificate's authenticity. It uses mathematical algorithms to create a unique digital signature that proves the certificate is legitimate and hasn't been altered. This is crucial for establishing secure and trustworthy connections on the internet."@
    }
}

/// Explains a signature algorithm in plain words.
pub fn explain_signature_algorithm(alg: &str) -> (r: String)
    ensures
        r@ == signature_explanation(alg@),
{
    if text_contains(alg, "RSA") {
        "This certificate uses RSA encryption with hashing. RSA is like a digital lock that only the certificate issuer has the key to open. The hashing creates a unique fingerprint of the certificate data. Together, they create a digital signature that proves the certificate is genuine and hasn't been tampered with. This is essential for secure websites and encrypted communications.".to_owned()
    } else if text_contains(alg, "ECDSA") {
        "This certificate uses Elliptic Curve Digital Signature Algorithm (ECDSA). It's a modern, efficient way to create digital signatures using advanced mathematics with elliptic curves. Like RSA, it creates a unique signature that proves the certificate's authenticity, but it's faster and uses smaller keys. This helps keep internet communications secure and private.".to_owned()
    } else if text_contains(alg, "DSA") {
        "This certificate uses Digital Signature Algorithm (DSA). It's a method for creating digital signatures that verify the authenticity of the certificate. Using mathematical techniques, it creates a unique code that only the legitimate issuer can produce. This prevents fake certificates and ensures trust in online communications.".to_owned()
    } else {
        "This is a cryptographic signature method that verifies the certificate's authenticity. It uses mathematical algorithms to create a unique digital signature that proves the certificate is legitimate and hasn't been altered. This is crucial for establishing secure and trustworthy connections on the internet.".to_owned()
    }
}

// ---------------------------------------------------------------------------
// Certificate records from decoded fields
// ---------------------------------------------------------------------------

/// One extension as the decoder reads it.
pub struct RawExtension {
    pub oid: String,
    pub critical: bool,
    pub value: String,
}

/// What the decoder reads out of a certificate, before it is named and
/// formatted for the record.
pub struct RawCertificate {
    pub subject: String,
    pub issuer: String,
    /// The serial number in hexadecimal.
    pub serial_hex: String,
    /// The start of the validity period in RFC 2822 form, if it could be written.
    pub not_before: Option<String>,
    /// The end of the validity period in RFC 2822 form, if it could be written.
    pub not_after: Option<String>,
    pub public_key: PublicKeyKind,
    /// The signature algorithm OID in dotted form.
    pub signature_oid: String,
    /// The signature algorithm OID as its debug form, shown where the OID has no name.
    pub signature_oid_debug: String,
    pub version: u32,
    pub extensions: Vec<RawExtension>,
    pub is_ca: bool,
}

/// Hexadecimal text in groups of two characters, separated by single spaces.
pub open spec fn serial_pairs(hex: Seq<char>) -> Seq<char>
    decreases hex.len(),
{
    if hex.len() <= 2 {
        hex
    } else {
        hex.subrange(0, 2) + seq![' '] + serial_pairs(hex.subrange(2, hex.len() as int))
    }
}

/// The label of a public key kind; an RSA key gives its size in bits.
pub open spec fn public_key_label(kind: PublicKeyKind) -> Seq<char> {
    match kind {
        PublicKeyKind::Rsa { modulus_len } => "RSA ("@ + decimal(modulus_len as nat * 8) + " bits)"@,
        PublicKeyKind::Ec => "ECDSA"@,
        PublicKeyKind::Dsa => "DSA"@,
        PublicKeyKind::GostR3410 => "GOST R 34.10"@,
        PublicKeyKind::GostR3410_2012 => "GOST R 34.10-2012"@,
        PublicKeyKind::Unknown => "Unknown"@,
    }
}

/// The record's form of a validity date given in RFC 2822 form: rewritten
/// as `YYYY-MM-DD HH:MM:SS` where chrono reads it, kept as it is where not,
/// and `Invalid date` where there was none.
pub open spec fn display_date(rfc: Option<Seq<char>>) -> Seq<char> {
    match rfc {
        None => "Invalid date"@,
        Some(t) => match rfc2822_display_of(t) {
            Some(d) => d,
            None => t,
        },
    }
}

/// The record's name of a signature algorithm: its known name, or else the
/// debug form of its OID.
pub open spec fn signature_label(oid: Seq<char>, debug: Seq<char>) -> Seq<char> {
    match signature_algorithm_name(oid) {
        Some(n) => n,
        None => debug,
    }
}

/// The record's form of one decoded extension.
pub open spec fn extension_of(raw: RawExtension, ext: ExtensionInfo) -> bool {
    &&& ext.oid == raw.oid
    &&& text_option(ext.name) == extension_name(raw.oid@)
    &&& ext.critical == raw.critical
    &&& ext.value == raw.value
}

fn serial_pairs_from(hex: &str, start: usize) -> (r: String)
    requires
        start <= hex@.len(),
    ensures
        r@ == serial_pairs(hex@.subrange(start as int, hex@.len() as int)),
    decreases hex@.len() - start,
{
    let n = hex.unicode_len();
    let ghost rest = hex@.subrange(start as int, n as int);
    if n - start <= 2 {
        hex.substring_char(start, n).to_owned()
    } else {
        let mut out = hex.substring_char(start, start + 2).to_owned();
        out.append(" ");
        let tail = serial_pairs_from(hex, start + 2);
        out.append(tail.as_str());
        proof {
            reveal_strlit(" ");
            assert(rest.subrange(0, 2) =~= hex@.subrange(start as int, start + 2));
            assert(rest.subrange(2, rest.len() as int) =~= hex@.subrange(start + 2, n as int));
        }
        out
    }
}

/// Writes hexadecimal text in groups of two characters: `a1b2c3` becomes
/// `a1 b2 c3`.
pub fn format_serial(hex: &str) -> (r: String)
    ensures
        r@ == serial_pairs(hex@),
{
    let r = serial_pairs_from(hex, 0);
    assert(hex@.subrange(0, hex@.len() as int) =~= hex@);
    r
}

/// Names a public key kind.
pub fn describe_public_key(kind: PublicKeyKind) -> (r: String)
    ensures
        r@ == public_key_label(kind),
{
    match kind {
        PublicKeyKind::Rsa { modulus_len } => {
            let bits = decimal_text(modulus_len as u128 * 8);
            let mut out = "RSA (".to_owned();
            out.append(bits.as_str());
            out.append(" bits)");
            out
        },
        PublicKeyKind::Ec => "ECDSA".to_owned(),
        PublicKeyKind::Dsa => "DSA".to_owned(),
        PublicKeyKind::GostR3410 => "GOST R 34.10".to_owned(),
        PublicKeyKind::GostR3410_2012 => "GOST R 34.10-2012".to_owned(),
        PublicKeyKind::Unknown => "Unknown".to_owned(),
    }
}

/// Writes a validity date in RFC 2822 form as `YYYY-MM-DD HH:MM:SS`.
pub fn format_validity_date(rfc: Option<String>) -> (r: String)
    ensures
        r@ == display_date(text_option(rfc)),
{
    match rfc {
        None => "Invalid date".to_owned(),
        Some(t) => match rfc2822_to_display(t.as_str()) {
            Some(d) => d,
            None => t,
        },
    }
}

/// Builds the record of a certificate from what the decoder read of it:
/// the serial number in pairs of digits, the dates rewritten, the key and
/// the algorithms named, each extension named by its OID.
pub fn certificate_info_from_raw(raw: RawCertificate) -> (r: CertificateInfo)
    ensures
        r.subject == raw.subject,
        r.issuer == raw.issuer,
        r.serial_number@ == serial_pairs(raw.serial_hex@),
        r.not_before@ == display_date(text_option(raw.not_before)),
        r.not_after@ == display_date(text_option(raw.not_after)),
        r.public_key_algorithm@ == public_key_label(raw.public_key),
        r.signature_algorithm@ == signature_label(raw.signature_oid@, raw.signature_oid_debug@),
        r.version == raw.version,
        r.extensions.len() == raw.extensions.len(),
        forall|i: int| 0 <= i < raw.extensions.len() ==> extension_of(raw.extensions@[i], #[trigger] r.extensions@[i]),
        r.is_ca == raw.is_ca,
        r.key_usage is None,
        r.subject_alt_names.len() == 0,
{
    let serial_number = format_serial(raw.serial_hex.as_str());
    let not_before = format_validity_date(raw.not_before);
    let not_after = format_validity_date(raw.not_after);
    let public_key_algorithm = describe_public_key(raw.public_key);
    let signature_algorithm = match signature_alg_to_name(raw.signature_oid.as_str()) {
        Some(n) => n,
        None => raw.signature_oid_debug,
    };
    let mut extensions: Vec<ExtensionInfo> = Vec::new();
    let mut i: usize = 0;
    while i < raw.extensions.len()
        invariant
            0 <= i <= raw.extensions.len(),
            extensions.len() == i,
            forall|k: int| 0 <= k < i ==> extension_of(raw.extensions@[k], #[trigger] extensions@[k]),
        decreases raw.extensions.len() - i,
    {
        let e = &raw.extensions[i];
        extensions.push(ExtensionInfo {
            oid: e.oid.clone(),
            name: oid_to_name(e.oid.as_str()),
            critical: e.critical,
            value: e.value.clone(),
        });
        i = i + 1;
    }
    CertificateInfo {
        subject: raw.subject,
        issuer: raw.issuer,
        serial_number,
        not_before,
        not_after,
        public_key_algorithm,
        signature_algorithm,
        version: raw.version,
        extensions,
        is_ca: raw.is_ca,
        key_usage: None,
        subject_alt_names: Vec::new(),
    }
}

/// `rec` is the record of the certificate that x509-parser decodes from
/// `der`: its names, its serial number in pairs of digits, its dates
/// rewritten, its key and algorithms named, each extension named by its OID.
pub open spec fn record_matches_der(rec: CertificateInfo, der: Seq<u8>) -> bool {
    let exts = der_extensions_of(der);
    &&& rec.subject@ == der_subject_of(der)
    &&& rec.issuer@ == der_issuer_of(der)
    &&& rec.serial_number@ == serial_pairs(der_serial_hex_of(der))
    &&& rec.not_before@ == display_date(der_not_before_of(der))
    &&& rec.not_after@ == display_date(der_not_after_of(der))
    &&& rec.public_key_algorithm@ == public_key_label(der_public_key_of(der))
    &&& rec.signature_algorithm@ == signature_label(der_signature_oid_of(der), der_signature_oid_debug_of(der))
    &&& rec.version == der_version_of(der)
    &&& rec.extensions.len() == exts.len()
    &&& forall|i: int|
        0 <= i < exts.len() ==> {
            &&& (#[trigger] rec.extensions@[i]).oid@ == exts[i].0
            &&& rec.extensions@[i].critical == exts[i].1
            &&& rec.extensions@[i].value@ == exts[i].2
            &&& text_option(rec.extensions@[i].name) == extension_name(exts[i].0)
        }
    &&& rec.is_ca == der_is_ca_of(der)
    &&& rec.key_usage is None
    &&& rec.subject_alt_names.len() == 0
}

/// Reads the fields of a decoded certificate and builds its record. It
/// does not fail.
pub fn extract_cert_info(cert: &DecodedCertificate) -> (r: Result<CertificateInfo, CertError>)
    ensures
        r is Ok,
        record_matches_der(r->Ok_0, cert.der_bytes()),
{
    let found = raw_extensions(cert);
    let ghost exts = der_extensions_of(cert.der_bytes());
    let mut extensions: Vec<RawExtension> = Vec::new();
    let mut i: usize = 0;
    while i < found.len()
        invariant
            0 <= i <= found.len(),
            extensions.len() == i,
            found@.map_values(|e: (String, bool, String)| extension_view(e)) == exts,
            forall|k: int| 0 <= k < i ==> {
                &&& (#[trigger] extensions@[k]).oid@ == exts[k].0
                &&& extensions@[k].critical == exts[k].1
                &&& extensions@[k].value@ == exts[k].2
            },
        decreases found.len() - i,
    {
        let (oid, critical, value) = (found[i].0.clone(), found[i].1, found[i].2.clone());
        assert(exts[i as int] == extension_view(found@[i as int]));
        extensions.push(RawExtension { oid, critical, value });
        i = i + 1;
    }
    let raw = RawCertificate {
        subject: subject_text(cert),
        issuer: issuer_text(cert),
        serial_hex: serial_hex(cert),
        not_before: not_before_rfc2822(cert),
        not_after: not_after_rfc2822(cert),
        public_key: public_key_kind(cert),
        signature_oid: signature_oid_text(cert),
        signature_oid_debug: signature_oid_debug(cert),
        version: certificate_version(cert),
        extensions,
        is_ca: certificate_is_ca(cert),
    };
    let info = certificate_info_from_raw(raw);
    assert forall|i: int| 0 <= i < exts.len() implies {
        &&& (#[trigger] info.extensions@[i]).oid@ == exts[i].0
        &&& info.extensions@[i].critical == exts[i].1
        &&& info.extensions@[i].value@ == exts[i].2
        &&& text_option(info.extensions@[i].name) == extension_name(exts[i].0)
    } by {
        assert(extension_of(raw.extensions@[i], info.extensions@[i]));
        assert(raw.extensions@[i] == extensions@[i]);
    }
    Ok(info)
}

// ---------------------------------------------------------------------------
// Certificate chains from bytes
// ---------------------------------------------------------------------------

/// The contents of the sections tagged `CERTIFICATE` among `sections`, in order.
pub open spec fn certificate_sections(sections: Seq<(Seq<char>, Seq<u8>)>) -> Seq<Seq<u8>>
    decreases sections.len(),
{
    if sections.len() == 0 {
        Seq::empty()
    } else {
        let rest = certificate_sections(sections.drop_last());
        if sections.last().0 == "CERTIFICATE"@ {
            rest.push(sections.last().1)
        } else {
            rest
        }
    }
}

proof fn lemma_certificate_sections_split(s: Seq<(Seq<char>, Seq<u8>)>, m: int)
    requires
        0 <= m <= s.len(),
    ensures
        certificate_sections(s) == certificate_sections(s.subrange(0, m)) + certificate_sections(
            s.subrange(m, s.len() as int),
        ),
    decreases s.len(),
{
    if m == s.len() {
        assert(s.subrange(0, m) =~= s);
        assert(s.subrange(m, s.len() as int) =~= Seq::<(Seq<char>, Seq<u8>)>::empty());
        assert(certificate_sections(s) + Seq::<Seq<u8>>::empty() =~= certificate_sections(s));
    } else {
        let t = s.drop_last();
        lemma_certificate_sections_split(t, m);
        assert(t.subrange(0, m) =~= s.subrange(0, m));
        let tail = s.subrange(m, s.len() as int);
        assert(tail.drop_last() =~= t.subrange(m, t.len() as int));
        assert(tail.last() == s.last());
        if s.last().0 == "CERTIFICATE"@ {
            assert(certificate_sections(s) =~= certificate_sections(s.subrange(0, m)) + certificate_sections(tail));
        } else {
            assert(certificate_sections(s) =~= certificate_sections(s.subrange(0, m)) + certificate_sections(tail));
        }
    }
}

/// The DER certificates that PEM input holds; none where the input is not PEM.
pub open spec fn pem_certificates(data: Seq<u8>) -> Seq<Seq<u8>> {
    match pem_sections_of(data) {
        Some(sections) => certificate_sections(sections),
        None => Seq::empty(),
    }
}

/// Decodes the certificates of a PEM file in order or, where it holds no
/// PEM certificate, one DER certificate. It fails with `X509Parse` when a
/// certificate does not decode.
pub fn parse_certificate_chain(data: &[u8]) -> (r: Result<Vec<CertificateInfo>, CertError>)
    ensures
        pem_certificates(data@).len() > 0 ==> {
            &&& (r is Ok <==> forall|i: int| 0 <= i < pem_certificates(data@).len()
                ==> der_certificate_decodes(#[trigger] pem_certificates(data@)[i]))
            &&& r is Ok ==> r->Ok_0.len() == pem_certificates(data@).len()
            &&& r is Ok ==> forall|i: int| 0 <= i < r->Ok_0.len()
                ==> record_matches_der(#[trigger] r->Ok_0@[i], pem_certificates(data@)[i])
        },
        pem_certificates(data@).len() == 0 ==> {
            &&& (r is Ok <==> der_certificate_decodes(data@))
            &&& r is Ok ==> r->Ok_0.len() == 1
            &&& r is Ok ==> record_matches_der(r->Ok_0@[0], data@)
        },
        r is Err ==> r->Err_0 is X509Parse,
{
    let mut certificates: Vec<CertificateInfo> = Vec::new();
    let ghost blocks = pem_certificates(data@);
    match pem_sections(data) {
        Some(sections) => {
            let ghost views = sections@.map_values(|p: (String, Vec<u8>)| crate::x509::section_view(p));
            let mut i: usize = 0;
            while i < sections.len()
                invariant
                    0 <= i <= sections.len(),
                    views == sections@.map_values(|p: (String, Vec<u8>)| crate::x509::section_view(p)),
                    blocks == certificate_sections(views),
                    blocks == pem_certificates(data@),
                    certificates.len() == certificate_sections(views.subrange(0, i as int)).len(),
                    forall|k: int| 0 <= k < certificates.len() ==> der_certificate_decodes(
                        #[trigger] certificate_sections(views.subrange(0, i as int))[k],
                    ),
                    forall|k: int| 0 <= k < certificates.len() ==> record_matches_der(
                        #[trigger] certificates@[k],
                        certificate_sections(views.subrange(0, i as int))[k],
                    ),
                decreases sections.len() - i,
            {
                proof {
                    assert(views.subrange(0, i + 1).drop_last() =~= views.subrange(0, i as int));
                    assert(views.subrange(0, i + 1).last() == views[i as int]);
                    reveal_strlit("CERTIFICATE");
                }
                if text_eq(sections[i].0.as_str(), "CERTIFICATE") {
                    let contents = sections[i].1.as_slice();
                    match decode_der_certificate(contents) {
                        Ok(cert) => {
                            let info = extract_cert_info(&cert);
                            match info {
                                Ok(c) => {
                                    let ghost before = certificates@;
                                    certificates.push(c);
                                    proof {
                                        let pre = certificate_sections(views.subrange(0, i as int));
                                        let next = certificate_sections(views.subrange(0, i + 1));
                                        assert(next == pre.push(views[i as int].1));
                                        assert forall|k: int| 0 <= k < certificates.len() implies record_matches_der(
                                            #[trigger] certificates@[k],
                                            next[k],
                                        ) by {
                                            if k < before.len() {
                                                assert(certificates@[k] == before[k]);
                                            }
                                        }
                                    }
                                },
                                Err(e) => {
                                    return Err(e);
                                },
                            }
                        },
                        Err(msg) => {
                            proof {
                                lemma_certificate_sections_split(views, i + 1);
                                let k = certificates.len() as int;
                                let pre = certificate_sections(views.subrange(0, i + 1));
                                assert(pre == certificate_sections(views.subrange(0, i as int)).push(views[i as int].1));
                                assert(k < pre.len());
                                assert(k < blocks.len());
                                assert(blocks[k] == pre[k]);
                                assert(!der_certificate_decodes(blocks[k]));
                                assert(blocks == pem_certificates(data@));
                                assert(!der_certificate_decodes(pem_certificates(data@)[k]));
                            }
                            return Err(CertError::X509Parse(msg));
                        },
                    }
                }
                i = i + 1;
            }
            assert(views.subrange(0, sections@.len() as int) =~= views);
            assert(certificates.len() > 0 ==> blocks.len() > 0);
        },
        None => {},
    }
    if certificates.len() == 0 {
        match decode_der_certificate(data) {
            Ok(cert) => {
                let info = extract_cert_info(&cert);
                match info {
                    Ok(c) => certificates.push(c),
                    Err(e) => {
                        return Err(e);
                    },
                }
            },
            Err(msg) => {
                return Err(CertError::X509Parse(msg));
            },
        }
    }
    Ok(certificates)
}

/// Decodes each DER certificate of a list in order, such as the chain a
/// server presents. It fails with `X509Parse` at the first one that does not
/// decode.
pub fn certificates_from_der_list(ders: &Vec<Vec<u8>>) -> (r: Result<Vec<CertificateInfo>, CertError>)
    ensures
        r is Ok <==> forall|i: int| 0 <= i < ders.len() ==> der_certificate_decodes(#[trigger] ders@[i]@),
        r is Ok ==> r->Ok_0.len() == ders.len(),
        r is Ok ==> forall|i: int| 0 <= i < ders.len() ==> record_matches_der(#[trigger] r->Ok_0@[i], ders@[i]@),
        r is Err ==> r->Err_0 is X509Parse,
{
    let mut certificates: Vec<CertificateInfo> = Vec::new();
    let mut i: usize = 0;
    while i < ders.len()
        invariant
            0 <= i <= ders.len(),
            certificates.len() == i,
            forall|k: int| 0 <= k < i ==> der_certificate_decodes(#[trigger] ders@[k]@),
            forall|k: int| 0 <= k < i ==> record_matches_der(#[trigger] certificates@[k], ders@[k]@),
        decreases ders.len() - i,
    {
        match decode_der_certificate(ders[i].as_slice()) {
            Ok(cert) => {
                match extract_cert_info(&cert) {
                    Ok(c) => certificates.push(c),
                    Err(e) => {
                        return Err(e);
                    },
                }
            },
            Err(msg) => {
                let text = "Failed to parse certificate: ".to_owned().concat(msg.as_str());
                return Err(CertError::X509Parse(text));
            },
        }
        i = i + 1;
    }
    Ok(certificates)
}

} // verus!
