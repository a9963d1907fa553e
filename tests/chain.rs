use cert_tree::models::{CertificateInfo, CertificateNode, CertificateTree, ValidationStatus, ValidityStatus};
use cert_tree::tree::{build_certificate_tree, build_certificate_tree_at, validate_certificate_chain};

const NOW: i64 = 1_700_000_000;

fn record(subject: &str, issuer: &str, not_after: &str) -> CertificateInfo {
    CertificateInfo {
        subject: subject.to_string(),
        issuer: issuer.to_string(),
        serial_number: "01".to_string(),
        not_before: "2020-01-01 00:00:00".to_string(),
        not_after: not_after.to_string(),
        public_key_algorithm: "RSA (2048 bits)".to_string(),
        signature_algorithm: "SHA256 with RSA".to_string(),
        version: 2,
        extensions: vec![],
        is_ca: false,
        key_usage: None,
        subject_alt_names: vec![],
    }
}

fn far() -> String {
    "2099-01-01 00:00:00".to_string()
}

fn count(nodes: &[CertificateNode]) -> usize {
    nodes.iter().map(|n| 1 + count(&n.children)).sum()
}

fn shape(nodes: &[CertificateNode]) -> String {
    let parts: Vec<String> = nodes
        .iter()
        .map(|n| format!("{}{:?}{:?}({})", n.cert.subject, n.validity_status, n.validation_status, shape(&n.children)))
        .collect();
    parts.join(",")
}

#[test]
fn linear_chain_forms_one_tree() {
    let certs = vec![
        record("CN=Root", "CN=Root", &far()),
        record("CN=Int", "CN=Root", &far()),
        record("CN=Leaf", "CN=Int", &far()),
    ];
    let tree = build_certificate_tree_at(&certs, NOW);
    assert_eq!(tree.roots.len(), 1);
    let root = &tree.roots[0];
    assert_eq!(root.cert.subject, "CN=Root");
    assert_eq!(root.children.len(), 1);
    let int = &root.children[0];
    assert_eq!(int.cert.subject, "CN=Int");
    assert_eq!(int.children.len(), 1);
    let leaf = &int.children[0];
    assert_eq!(leaf.cert.subject, "CN=Leaf");
    assert!(leaf.children.is_empty());
    assert_eq!(root.validation_status, ValidationStatus::Valid);
    assert_eq!(int.validation_status, ValidationStatus::Valid);
    assert_eq!(leaf.validation_status, ValidationStatus::Valid);
}

#[test]
fn dangling_leaf_becomes_its_own_root() {
    let certs = vec![
        record("CN=Root", "CN=Root", &far()),
        record("CN=Int", "CN=Root", &far()),
        record("CN=Leaf", "CN=Unknown", &far()),
    ];
    let tree = build_certificate_tree_at(&certs, NOW);
    assert_eq!(tree.roots.len(), 2);
    assert_eq!(tree.roots[0].cert.subject, "CN=Root");
    assert_eq!(tree.roots[0].validation_status, ValidationStatus::Valid);
    assert_eq!(tree.roots[0].children.len(), 1);
    assert_eq!(tree.roots[0].children[0].cert.subject, "CN=Int");
    assert_eq!(tree.roots[0].children[0].validation_status, ValidationStatus::Valid);
    assert_eq!(tree.roots[1].cert.subject, "CN=Leaf");
    assert_eq!(tree.roots[1].validation_status, ValidationStatus::InvalidChain);
    assert!(tree.roots[1].children.is_empty());
}

#[test]
fn two_cycle_is_broken_at_first_record() {
    let certs = vec![record("CN=A", "CN=B", &far()), record("CN=B", "CN=A", &far())];
    let tree = build_certificate_tree_at(&certs, NOW);
    assert_eq!(tree.roots.len(), 1);
    let a = &tree.roots[0];
    assert_eq!(a.cert.subject, "CN=A");
    assert_eq!(a.validation_status, ValidationStatus::InvalidChain);
    assert_eq!(a.children.len(), 1);
    assert_eq!(a.children[0].cert.subject, "CN=B");
    assert_eq!(a.children[0].validation_status, ValidationStatus::Valid);
    assert!(a.children[0].children.is_empty());
}

#[test]
fn expiry_classes_in_tree() {
    let now = chrono::Utc::now();
    let fmt = "%Y-%m-%d %H:%M:%S";
    let yesterday = (now - chrono::Duration::days(1)).format(fmt).to_string();
    let soon = (now + chrono::Duration::days(15)).format(fmt).to_string();
    let later = (now + chrono::Duration::days(365)).format(fmt).to_string();
    let certs = vec![
        record("CN=Old", "CN=Old", &yesterday),
        record("CN=Soon", "CN=Soon", &soon),
        record("CN=Later", "CN=Later", &later),
    ];
    let tree = build_certificate_tree(&certs);
    assert_eq!(tree.roots.len(), 3);
    assert_eq!(tree.roots[0].validity_status, ValidityStatus::Expired);
    assert_eq!(tree.roots[1].validity_status, ValidityStatus::ExpiringSoon);
    assert_eq!(tree.roots[2].validity_status, ValidityStatus::Valid);
}

#[test]
fn empty_input_gives_empty_forest() {
    let tree = build_certificate_tree_at(&[], NOW);
    assert!(tree.roots.is_empty());
}

#[test]
fn duplicate_subjects_collapse_to_one_node() {
    let certs = vec![
        record("CN=Root", "CN=Root", &far()),
        record("CN=Dup", "CN=Root", "2030-01-01 00:00:00"),
        record("CN=Dup", "CN=Root", "2031-01-01 00:00:00"),
        record("CN=Other", "CN=Elsewhere", &far()),
    ];
    let tree = build_certificate_tree_at(&certs, NOW);
    assert_eq!(count(&tree.roots), 3);
    assert_eq!(tree.roots.len(), 2);
    assert_eq!(tree.roots[0].children.len(), 1);
    // a child is built from the last record with its subject
    assert_eq!(tree.roots[0].children[0].cert.not_after, "2031-01-01 00:00:00");
}

#[test]
fn node_count_equals_distinct_subjects() {
    let certs = vec![
        record("CN=A", "CN=B", &far()),
        record("CN=B", "CN=C", &far()),
        record("CN=C", "CN=A", &far()),
        record("CN=D", "CN=D", &far()),
        record("CN=E", "CN=D", &far()),
        record("CN=E", "CN=X", &far()),
        record("CN=F", "CN=Y", &far()),
    ];
    let tree = build_certificate_tree_at(&certs, NOW);
    assert_eq!(count(&tree.roots), 6);
}

#[test]
fn siblings_keep_input_order() {
    let certs = vec![
        record("CN=Root", "CN=Root", &far()),
        record("CN=Z", "CN=Root", &far()),
        record("CN=A", "CN=Root", &far()),
        record("CN=M", "CN=Root", &far()),
    ];
    let tree = build_certificate_tree_at(&certs, NOW);
    let names: Vec<&str> = tree.roots[0].children.iter().map(|c| c.cert.subject.as_str()).collect();
    assert_eq!(names, vec!["CN=Z", "CN=A", "CN=M"]);
}

#[test]
fn child_under_invalid_parent_is_valid_by_name() {
    let certs = vec![record("CN=Int", "CN=Missing", &far()), record("CN=Leaf", "CN=Int", &far())];
    let tree = build_certificate_tree_at(&certs, NOW);
    assert_eq!(tree.roots.len(), 1);
    assert_eq!(tree.roots[0].validation_status, ValidationStatus::InvalidChain);
    assert_eq!(tree.roots[0].children[0].validation_status, ValidationStatus::Valid);
}

#[test]
fn assembling_twice_gives_identical_forests() {
    let certs = vec![
        record("CN=A", "CN=B", &far()),
        record("CN=B", "CN=A", &far()),
        record("CN=Root", "CN=Root", "2023-11-20 00:00:00"),
        record("CN=Int", "CN=Root", "2020-01-01 00:00:00"),
        record("CN=Leaf", "CN=Nowhere", &far()),
    ];
    let first = build_certificate_tree_at(&certs, NOW);
    let second = build_certificate_tree_at(&certs, NOW);
    assert_eq!(shape(&first.roots), shape(&second.roots));
    let order: Vec<&str> = first.roots.iter().map(|r| r.cert.subject.as_str()).collect();
    assert_eq!(order, vec!["CN=Root", "CN=Leaf", "CN=A"]);
    assert_eq!(first.roots[0].validity_status, ValidityStatus::ExpiringSoon);
    assert_eq!(first.roots[0].children[0].validity_status, ValidityStatus::Expired);
}

#[test]
fn validation_overwrites_every_status() {
    let mut leaf = CertificateNode {
        cert: record("CN=Leaf", "CN=Other", &far()),
        children: vec![],
        validity_status: ValidityStatus::Valid,
        validation_status: ValidationStatus::Valid,
    };
    leaf.validation_status = ValidationStatus::Valid;
    let root = CertificateNode {
        cert: record("CN=Root", "CN=Root", &far()),
        children: vec![leaf],
        validity_status: ValidityStatus::Valid,
        validation_status: ValidationStatus::InvalidChain,
    };
    let mut tree = CertificateTree { roots: vec![root] };
    validate_certificate_chain(&mut tree);
    assert_eq!(tree.roots[0].validation_status, ValidationStatus::Valid);
    assert_eq!(tree.roots[0].children[0].validation_status, ValidationStatus::InvalidChain);
}
