use vstd::prelude::*;

verus! {

/// One extension of a certificate, as decoded.
#[derive(Debug)]
pub struct ExtensionInfo {
    pub oid: String,
    pub name: Option<String>,
    pub critical: bool,
    pub value: String,
}

impl Clone for ExtensionInfo {
    fn clone(&self) -> (r: Self)
        ensures
            r == *self,
    {
        let name = match &self.name {
            Some(n) => Some(n.clone()),
            None => None,
        };
        ExtensionInfo { oid: self.oid.clone(), name, critical: self.critical, value: self.value.clone() }
    }
}

/// A decoded certificate. The subject is the identity under which the
/// certificate takes part in chain assembly.
#[derive(Debug)]
pub struct CertificateInfo {
    pub subject: String,
    pub issuer: String,
    pub serial_number: String,
    pub not_before: String,
    pub not_after: String,
    pub public_key_algorithm: String,
    pub signature_algorithm: String,
    pub version: u32,
    pub extensions: Vec<ExtensionInfo>,
    pub is_ca: bool,
    pub key_usage: Option<String>,
    pub subject_alt_names: Vec<String>,
}

/// The value of a certificate record, with its text fields as character
/// sequences and its lists as sequences.
pub struct CertificateInfoView {
    pub subject: Seq<char>,
    pub issuer: Seq<char>,
    pub serial_number: Seq<char>,
    pub not_before: Seq<char>,
    pub not_after: Seq<char>,
    pub public_key_algorithm: Seq<char>,
    pub signature_algorithm: Seq<char>,
    pub version: u32,
    pub extensions: Seq<ExtensionInfo>,
    pub is_ca: bool,
    pub key_usage: Option<String>,
    pub subject_alt_names: Seq<String>,
}

impl View for CertificateInfo {
    type V = CertificateInfoView;

    open spec fn view(&self) -> CertificateInfoView {
        CertificateInfoView {
            subject: self.subject@,
            issuer: self.issuer@,
            serial_number: self.serial_number@,
            not_before: self.not_before@,
            not_after: self.not_after@,
            public_key_algorithm: self.public_key_algorithm@,
            signature_algorithm: self.signature_algorithm@,
            version: self.version,
            extensions: self.extensions@,
            is_ca: self.is_ca,
            key_usage: self.key_usage,
            subject_alt_names: self.subject_alt_names@,
        }
    }
}

impl Clone for CertificateInfo {
    fn clone(&self) -> (r: Self)
        ensures
            r@ == self@,
    {
        let mut extensions: Vec<ExtensionInfo> = Vec::new();
        let mut i: usize = 0;
        while i < self.extensions.len()
            invariant
                i <= self.extensions.len(),
                extensions@ == self.extensions@.subrange(0, i as int),
            decreases self.extensions.len() - i,
        {
            extensions.push(self.extensions[i].clone());
            i = i + 1;
            assert(extensions@ =~= self.extensions@.subrange(0, i as int));
        }
        assert(extensions@ =~= self.extensions@);
        let mut subject_alt_names: Vec<String> = Vec::new();
        let mut j: usize = 0;
        while j < self.subject_alt_names.len()
            invariant
                j <= self.subject_alt_names.len(),
                subject_alt_names@ == self.subject_alt_names@.subrange(0, j as int),
            decreases self.subject_alt_names.len() - j,
        {
            subject_alt_names.push(self.subject_alt_names[j].clone());
            j = j + 1;
            assert(subject_alt_names@ =~= self.subject_alt_names@.subrange(0, j as int));
        }
        assert(subject_alt_names@ =~= self.subject_alt_names@);
        let key_usage = match &self.key_usage {
            Some(k) => Some(k.clone()),
            None => None,
        };
        CertificateInfo {
            subject: self.subject.clone(),
            issuer: self.issuer.clone(),
            serial_number: self.serial_number.clone(),
            not_before: self.not_before.clone(),
            not_after: self.not_after.clone(),
            public_key_algorithm: self.public_key_algorithm.clone(),
            signature_algorithm: self.signature_algorithm.clone(),
            version: self.version,
            extensions,
            is_ca: self.is_ca,
            key_usage,
            subject_alt_names,
        }
    }
}

/// How close a certificate is to the end of its validity period.
#[derive(Debug, Clone, Copy, PartialEq, Eq, Structural)]
pub enum ValidityStatus {
    Valid,
    /// Between zero and thirty whole days remain.
    ExpiringSoon,
    Expired,
}

/// Whether a certificate's place in the assembled chain agrees by name with
/// the certificate above it.
#[derive(Debug, Clone, Copy, PartialEq, Eq, Structural)]
pub enum ValidationStatus {
    Valid,
    InvalidChain,
}

pub open spec fn validity_label(s: ValidityStatus) -> Seq<char> {
    match s {
        ValidityStatus::Valid => "✓ Valid"@,
        ValidityStatus::ExpiringSoon => "⚠ Expiring Soon"@,
        ValidityStatus::Expired => "✗ Expired"@,
    }
}

pub open spec fn validation_label(s: ValidationStatus) -> Seq<char> {
    match s {
        ValidationStatus::Valid => "✓ Valid Chain"@,
        ValidationStatus::InvalidChain => "✗ Invalid Chain"@,
    }
}

impl ValidityStatus {
    /// The label shown for this status.
    pub fn text(&self) -> (r: &'static str)
        ensures
            r@ == validity_label(*self),
    {
        match self {
            ValidityStatus::Valid => "✓ Valid",
            ValidityStatus::ExpiringSoon => "⚠ Expiring Soon",
            ValidityStatus::Expired => "✗ Expired",
        }
    }
}

impl ValidationStatus {
    /// The label shown for this status.
    pub fn text(&self) -> (r: &'static str)
        ensures
            r@ == validation_label(*self),
    {
        match self {
            ValidationStatus::Valid => "✓ Valid Chain",
            ValidationStatus::InvalidChain => "✗ Invalid Chain",
        }
    }
}

/// A certificate placed in the assembled forest, with the certificates it
/// issued as its children, in input order.
#[derive(Debug)]
pub struct CertificateNode {
    pub cert: CertificateInfo,
    pub children: Vec<CertificateNode>,
    pub validity_status: ValidityStatus,
    pub validation_status: ValidationStatus,
}

/// The assembled forest: its roots in the order in which they were found.
#[derive(Debug)]
pub struct CertificateTree {
    pub roots: Vec<CertificateNode>,
}

/// One row of the flattened forest, in depth-first order.
#[derive(Debug, Clone)]
pub struct CertificateDisplayItem {
    pub display_name: String,
    pub valid_until: String,
    pub validity_status: ValidityStatus,
    pub validation_status: ValidationStatus,
    pub certificate_info: CertificateInfo,
}

} // verus!
