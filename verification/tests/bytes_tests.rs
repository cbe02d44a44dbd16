use immutability::bytes::bytes_eq;
use immutability::bytes::clone_path;
use immutability::bytes::path_eq;
use immutability::bytes::path_starts_with;
use immutability::bytes::take_from;
use immutability::filter::split_abs_path;

fn p(s: &str) -> Vec<Vec<u8>> {
    split_abs_path(&s.as_bytes().to_vec())
}

#[test]
fn bytes_eq_compares_content() {
    assert!(bytes_eq(&b"abc".to_vec(), &b"abc".to_vec()));
    assert!(!bytes_eq(&b"abc".to_vec(), &b"abd".to_vec()));
    assert!(!bytes_eq(&b"abc".to_vec(), &b"ab".to_vec()));
    assert!(bytes_eq(&Vec::new(), &Vec::new()));
}

#[test]
fn path_eq_compares_components() {
    assert!(path_eq(&p("/var/log"), &p("/var/log")));
    assert!(!path_eq(&p("/var/log"), &p("/var")));
    assert!(!path_eq(&p("/var/log"), &p("/var/run")));
}

#[test]
fn path_starts_with_is_component_wise() {
    assert!(path_starts_with(&p("/var/log/app"), &p("/var/log")));
    assert!(path_starts_with(&p("/var/log"), &p("/var/log")));
    assert!(!path_starts_with(&p("/var"), &p("/var/log")));
    // "/va" is not a component-wise prefix of "/var".
    assert!(!path_starts_with(&p("/var"), &p("/va")));
}

#[test]
fn clone_path_copies_every_component() {
    let source = p("/etc/machine-id");
    let copy = clone_path(&source);
    assert_eq!(copy, source);
}

#[test]
fn take_from_drops_a_prefix() {
    assert_eq!(take_from(&b"+ /var".to_vec(), 2), b"/var".to_vec());
    assert_eq!(take_from(&b"ab".to_vec(), 2), Vec::<u8>::new());
}
