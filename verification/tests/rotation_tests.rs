use immutability::filter::split_abs_path;
use immutability::fs::lookup_node;
use immutability::fs::Fs;
use immutability::fs::FsEntry;
use immutability::fs::Node;
use immutability::rotation::create_snapshot;
use immutability::rotation::is_ready;
use immutability::rotation::marker_file_name;
use immutability::rotation::recover_current;
use immutability::rotation::require;
use immutability::rotation::reset;
use immutability::rotation::restore;
use immutability::rotation::snapshot_only;
use immutability::rotation::Generation;
use immutability::rotation::ResetError;
use immutability::rotation::SubvolState;

fn p(s: &str) -> Vec<Vec<u8>> {
    split_abs_path(&s.as_bytes().to_vec())
}

fn file(path: &str, content: &[u8]) -> FsEntry {
    FsEntry { path: p(path), node: Node::File(content.to_vec()) }
}

fn dir(path: &str) -> FsEntry {
    FsEntry { path: p(path), node: Node::Dir }
}

fn get(fs: &Fs, path: &str) -> Option<Node> {
    lookup_node(fs, &p(path))
}

fn tagged(tag: &[u8]) -> Fs {
    Fs { entries: vec![file("/tag", tag)] }
}

fn tag_of(fs: &Fs) -> Vec<u8> {
    match get(fs, "/tag") {
        Some(Node::File(c)) => c,
        _ => panic!("no tag"),
    }
}

#[test]
fn reset_requires_clean_template() {
    let state = SubvolState {
        live: Some(tagged(b"live")),
        clean: None,
        current: None,
        previous: None,
        penultimate: None,
    };
    assert!(matches!(reset(&state, &Vec::new()), Err(ResetError::CleanMissing)));
}

#[test]
fn reset_requires_live_volume() {
    let state = SubvolState {
        live: None,
        clean: Some(tagged(b"clean")),
        current: None,
        previous: None,
        penultimate: None,
    };
    assert!(matches!(reset(&state, &Vec::new()), Err(ResetError::SourceMissing)));
}

#[test]
fn first_reset_seeds_history_from_clean() {
    let state = SubvolState {
        live: Some(tagged(b"live0")),
        clean: Some(tagged(b"clean")),
        current: None,
        previous: None,
        penultimate: None,
    };
    let next = reset(&state, &Vec::new()).unwrap();
    // The penultimate generation is seeded from the clean template.
    assert_eq!(tag_of(next.penultimate.as_ref().unwrap()), b"clean".to_vec());
    // The previous generation holds the outgoing live volume.
    assert_eq!(tag_of(next.previous.as_ref().unwrap()), b"live0".to_vec());
    // The new live volume is reset to the clean contents and carries the marker.
    assert_eq!(tag_of(next.live.as_ref().unwrap()), b"clean".to_vec());
    assert!(is_ready(next.current.as_ref().unwrap()));
    assert!(is_ready(next.live.as_ref().unwrap()));
}

#[test]
fn rotation_ordering_over_two_resets() {
    let state = SubvolState {
        live: Some(tagged(b"gen1")),
        clean: Some(tagged(b"clean")),
        current: None,
        previous: None,
        penultimate: None,
    };
    let after1 = reset(&state, &Vec::new()).unwrap();
    // Something is written onto the live volume between the boots.
    let mut between = after1;
    between.live = Some(tagged(b"gen2"));
    let after2 = reset(&between, &Vec::new()).unwrap();
    // PENULTIMATE now holds what PREVIOUS held before the second call,
    // which is the live volume from before the first call.
    assert_eq!(tag_of(after2.penultimate.as_ref().unwrap()), b"gen1".to_vec());
    // PREVIOUS holds the live volume from just before the second call.
    assert_eq!(tag_of(after2.previous.as_ref().unwrap()), b"gen2".to_vec());
}

#[test]
fn reset_keeps_persistent_file_and_resets_the_rest() {
    let live = Fs {
        entries: vec![
            dir("/var"),
            dir("/var/log"),
            file("/var/log/boot.log", b"written between resets"),
            file("/etc/dirty", b"junk"),
        ],
    };
    let clean = Fs { entries: vec![dir("/var"), file("/etc/motd", b"fresh")] };
    let state = SubvolState {
        live: Some(live),
        clean: Some(clean),
        current: None,
        previous: None,
        penultimate: None,
    };
    let persist = vec![p("/var/log")];
    let next = reset(&state, &persist).unwrap();
    let live_next = next.live.as_ref().unwrap();
    assert_eq!(get(live_next, "/var/log/boot.log"), Some(Node::File(b"written between resets".to_vec())));
    assert_eq!(get(live_next, "/etc/dirty"), None);
    assert_eq!(get(live_next, "/etc/motd"), Some(Node::File(b"fresh".to_vec())));
    assert_eq!(get(live_next, "/var"), Some(Node::Dir));
}

#[test]
fn stale_current_does_not_influence_a_reset() {
    let base = SubvolState {
        live: Some(tagged(b"live")),
        clean: Some(tagged(b"clean")),
        current: Some(Fs { entries: vec![file("/half-merged", b"garbage")] }),
        previous: Some(tagged(b"prev")),
        penultimate: Some(tagged(b"pen")),
    };
    let fresh = SubvolState {
        live: Some(tagged(b"live")),
        clean: Some(tagged(b"clean")),
        current: None,
        previous: Some(tagged(b"prev")),
        penultimate: Some(tagged(b"pen")),
    };
    let with_stale = reset(&base, &Vec::new()).unwrap();
    let without = reset(&fresh, &Vec::new()).unwrap();
    assert_eq!(tag_of(with_stale.live.as_ref().unwrap()), tag_of(without.live.as_ref().unwrap()));
    assert_eq!(
        tag_of(with_stale.previous.as_ref().unwrap()),
        tag_of(without.previous.as_ref().unwrap())
    );
    assert_eq!(
        tag_of(with_stale.penultimate.as_ref().unwrap()),
        tag_of(without.penultimate.as_ref().unwrap())
    );
    assert_eq!(get(with_stale.current.as_ref().unwrap(), "/half-merged"), None);
}

#[test]
fn recover_current_discards_unready_generation() {
    let unready = Some(Fs { entries: vec![file("/half", b"x")] });
    assert!(recover_current(&unready).is_none());
    assert!(recover_current(&None).is_none());
}

#[test]
fn recover_current_keeps_ready_generation() {
    let ready = Some(Fs {
        entries: vec![
            file("/done", b"x"),
            FsEntry { path: vec![marker_file_name()], node: Node::File(Vec::new()) },
        ],
    });
    let kept = recover_current(&ready).unwrap();
    assert_eq!(get(&kept, "/done"), Some(Node::File(b"x".to_vec())));
}

#[test]
fn snapshot_only_advances_history_and_leaves_current_alone() {
    let state = SubvolState {
        live: Some(tagged(b"live")),
        clean: Some(tagged(b"clean")),
        current: Some(tagged(b"cur")),
        previous: Some(tagged(b"prev")),
        penultimate: Some(tagged(b"pen")),
    };
    let next = snapshot_only(&state).unwrap();
    assert_eq!(tag_of(next.previous.as_ref().unwrap()), b"live".to_vec());
    assert_eq!(tag_of(next.penultimate.as_ref().unwrap()), b"prev".to_vec());
    assert_eq!(tag_of(next.current.as_ref().unwrap()), b"cur".to_vec());
    assert_eq!(tag_of(next.live.as_ref().unwrap()), b"live".to_vec());
}

#[test]
fn snapshot_only_requires_clean_then_live() {
    let no_clean = SubvolState {
        live: Some(tagged(b"live")),
        clean: None,
        current: None,
        previous: None,
        penultimate: None,
    };
    assert!(matches!(snapshot_only(&no_clean), Err(ResetError::CleanMissing)));
    let no_live = SubvolState {
        live: None,
        clean: Some(tagged(b"clean")),
        current: None,
        previous: None,
        penultimate: None,
    };
    assert!(matches!(snapshot_only(&no_live), Err(ResetError::SourceMissing)));
}

#[test]
fn restore_requires_its_source_generation() {
    let state = SubvolState {
        live: Some(tagged(b"live")),
        clean: Some(tagged(b"clean")),
        current: None,
        previous: None,
        penultimate: None,
    };
    assert!(matches!(restore(&state, Generation::Previous), Err(ResetError::SourceMissing)));
    assert!(matches!(restore(&state, Generation::Penultimate), Err(ResetError::SourceMissing)));
}

#[test]
fn restore_determinism_back_to_back() {
    let state = SubvolState {
        live: Some(tagged(b"live")),
        clean: Some(tagged(b"clean")),
        current: None,
        previous: Some(tagged(b"prev")),
        penultimate: Some(tagged(b"pen")),
    };
    let mid = restore(&state, Generation::Previous).unwrap();
    assert_eq!(tag_of(mid.live.as_ref().unwrap()), b"prev".to_vec());
    // The second restore copies straight from PENULTIMATE, whatever the first
    // restore left on the live volume.
    let last = restore(&mid, Generation::Penultimate).unwrap();
    assert_eq!(tag_of(last.live.as_ref().unwrap()), b"pen".to_vec());
}

#[test]
fn create_snapshot_copies_the_source() {
    let out = create_snapshot(&Some(tagged(b"src"))).unwrap();
    assert_eq!(tag_of(&out), b"src".to_vec());
    assert!(matches!(create_snapshot(&None), Err(ResetError::SourceMissing)));
}

#[test]
fn require_passes_success_and_fails_failure() {
    assert!(require(true).is_ok());
    assert!(matches!(require(false), Err(ResetError::CommandFailed)));
}
