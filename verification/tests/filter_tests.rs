use immutability::filter::parse_persistent_paths;
use immutability::filter::split_abs_path;
use immutability::filter::trim_bytes;

#[test]
fn parse_picks_only_include_lines() {
    let content = b"+ /var/log\n# comment\nplain line\n+ /persist\n".to_vec();
    let paths = parse_persistent_paths(&content);
    assert_eq!(paths.len(), 2);
    assert_eq!(paths[0], b"/var/log".to_vec());
    assert_eq!(paths[1], b"/persist".to_vec());
}

#[test]
fn parse_drops_directory_contents_rules() {
    let content = b"+ /etc/\n+ /home/**\n+ /var/log\n".to_vec();
    let paths = parse_persistent_paths(&content);
    assert_eq!(paths.len(), 1);
    assert_eq!(paths[0], b"/var/log".to_vec());
}

#[test]
fn parse_empty_content_gives_empty_set() {
    let paths = parse_persistent_paths(&Vec::new());
    assert_eq!(paths.len(), 0);
}

#[test]
fn parse_trims_each_path() {
    let content = b"+ /var/log \r\n+ /etc/machine-id\t\n".to_vec();
    let paths = parse_persistent_paths(&content);
    assert_eq!(paths.len(), 2);
    assert_eq!(paths[0], b"/var/log".to_vec());
    assert_eq!(paths[1], b"/etc/machine-id".to_vec());
}

#[test]
fn parse_requires_marker_at_line_start() {
    let content = b" + /indented\n+/nospace\n+ relative\n".to_vec();
    let paths = parse_persistent_paths(&content);
    assert_eq!(paths.len(), 0);
}

#[test]
fn parse_missing_trailing_newline() {
    let content = b"+ /var/log".to_vec();
    let paths = parse_persistent_paths(&content);
    assert_eq!(paths.len(), 1);
    assert_eq!(paths[0], b"/var/log".to_vec());
}

#[test]
fn trim_removes_ascii_whitespace_both_ends() {
    assert_eq!(trim_bytes(&b"  a b \t".to_vec()), b"a b".to_vec());
    assert_eq!(trim_bytes(&b"".to_vec()), b"".to_vec());
    assert_eq!(trim_bytes(&b"  \t ".to_vec()), b"".to_vec());
}

#[test]
fn split_abs_path_drops_leading_separator() {
    let comps = split_abs_path(&b"/var/log".to_vec());
    assert_eq!(comps, vec![b"var".to_vec(), b"log".to_vec()]);
}

#[test]
fn split_abs_path_without_leading_separator() {
    let comps = split_abs_path(&b"var".to_vec());
    assert_eq!(comps, vec![b"var".to_vec()]);
}
