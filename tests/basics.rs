use cert_tree::display::display_verbose;
use cert_tree::models::{CertificateInfo, ExtensionInfo};
use cert_tree::parser::{oid_to_name, parse_certificate_chain};

#[test]
fn test_parse_certificate_invalid_data() {
    let invalid_data = b"invalid certificate data";
    let result = parse_certificate_chain(invalid_data);
    assert!(result.is_err());
}

#[test]
fn test_display_tree() {
    let cert = CertificateInfo {
        subject: "CN=example.com".to_string(),
        issuer: "CN=CA".to_string(),
        serial_number: "12345".to_string(),
        not_before: "2023-01-01".to_string(),
        not_after: "2024-01-01".to_string(),
        public_key_algorithm: "RSA".to_string(),
        signature_algorithm: "SHA256-RSA".to_string(),
        version: 3,
        extensions: vec![
            ExtensionInfo {
                oid: "2.5.29.14".to_string(),
                name: oid_to_name("2.5.29.14"),
                critical: false,
                value: "KeyIdentifier(...)".to_string(),
            },
            ExtensionInfo {
                oid: "2.5.29.17".to_string(),
                name: oid_to_name("2.5.29.17"),
                critical: false,
                value: "GeneralNames(...)".to_string(),
            },
        ],
        is_ca: false,
        key_usage: Some("Digital Signature".to_string()),
        subject_alt_names: vec!["example.com".to_string()],
    };

    for line in display_verbose(&cert) {
        println!("{line}");
    }
}

#[test]
fn test_certificate_info_creation() {
    let cert = CertificateInfo {
        subject: "CN=test".to_string(),
        issuer: "CN=issuer".to_string(),
        serial_number: "67890".to_string(),
        not_before: "2023-01-01".to_string(),
        not_after: "2024-01-01".to_string(),
        public_key_algorithm: "ECDSA".to_string(),
        signature_algorithm: "SHA256-ECDSA".to_string(),
        version: 3,
        extensions: vec![],
        is_ca: true,
        key_usage: None,
        subject_alt_names: vec![],
    };

    assert_eq!(cert.subject, "CN=test");
    assert_eq!(cert.issuer, "CN=issuer");
    assert_eq!(cert.is_ca, true);
    assert_eq!(cert.version, 3);
}
