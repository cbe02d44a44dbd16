use immutability::dispatch::apply_mode;
use immutability::dispatch::run_dispatch;
use immutability::dispatch::ManagedSubvol;
use immutability::dispatch::Mode;
use immutability::filter::split_abs_path;
use immutability::fs::lookup_node;
use immutability::fs::Fs;
use immutability::fs::FsEntry;
use immutability::fs::Node;
use immutability::rotation::ResetError;
use immutability::rotation::SubvolState;

fn p(s: &str) -> Vec<Vec<u8>> {
    split_abs_path(&s.as_bytes().to_vec())
}

fn tagged(tag: &[u8]) -> Fs {
    Fs { entries: vec![FsEntry { path: p("/tag"), node: Node::File(tag.to_vec()) }] }
}

fn tag_of(fs: &Fs) -> Vec<u8> {
    match lookup_node(fs, &p("/tag")) {
        Some(Node::File(c)) => c,
        _ => panic!("no tag"),
    }
}

fn managed(live: &[u8], clean: &[u8]) -> ManagedSubvol {
    ManagedSubvol {
        state: SubvolState {
            live: Some(tagged(live)),
            clean: Some(tagged(clean)),
            current: None,
            previous: None,
            penultimate: None,
        },
        persist: Vec::new(),
    }
}

#[test]
fn disabled_mode_changes_nothing() {
    let m = managed(b"live", b"clean");
    let out = apply_mode(Mode::Disabled, &m).unwrap();
    assert_eq!(tag_of(out.live.as_ref().unwrap()), b"live".to_vec());
    assert!(out.current.is_none());
    assert!(out.previous.is_none());
}

#[test]
fn reset_mode_runs_the_rotation() {
    let m = managed(b"live", b"clean");
    let out = apply_mode(Mode::Reset, &m).unwrap();
    assert_eq!(tag_of(out.previous.as_ref().unwrap()), b"live".to_vec());
    assert_eq!(tag_of(out.live.as_ref().unwrap()), b"clean".to_vec());
}

#[test]
fn restore_mode_without_history_is_fatal() {
    let m = managed(b"live", b"clean");
    assert!(matches!(apply_mode(Mode::RestorePrevious, &m), Err(ResetError::SourceMissing)));
    assert!(matches!(apply_mode(Mode::RestorePenultimate, &m), Err(ResetError::SourceMissing)));
}

#[test]
fn dispatch_runs_each_subvolume_once() {
    let vols = vec![managed(b"one", b"c1"), managed(b"two", b"c2")];
    let results = run_dispatch(Mode::Reset, &vols);
    assert_eq!(results.len(), 2);
    let first = results[0].as_ref().unwrap();
    let second = results[1].as_ref().unwrap();
    assert_eq!(tag_of(first.previous.as_ref().unwrap()), b"one".to_vec());
    assert_eq!(tag_of(second.previous.as_ref().unwrap()), b"two".to_vec());
}

#[test]
fn concurrent_isolation_order_does_not_matter() {
    // Dispatching two independent subvolumes in either order gives each the
    // same final state, which is what licenses running them in parallel.
    let ab = vec![managed(b"one", b"c1"), managed(b"two", b"c2")];
    let ba = vec![managed(b"two", b"c2"), managed(b"one", b"c1")];
    let r1 = run_dispatch(Mode::Reset, &ab);
    let r2 = run_dispatch(Mode::Reset, &ba);
    let one_first = r1[0].as_ref().unwrap();
    let one_second = r2[1].as_ref().unwrap();
    assert_eq!(
        tag_of(one_first.previous.as_ref().unwrap()),
        tag_of(one_second.previous.as_ref().unwrap())
    );
    assert_eq!(
        tag_of(one_first.live.as_ref().unwrap()),
        tag_of(one_second.live.as_ref().unwrap())
    );
    let two_first = r2[0].as_ref().unwrap();
    let two_second = r1[1].as_ref().unwrap();
    assert_eq!(
        tag_of(two_first.previous.as_ref().unwrap()),
        tag_of(two_second.previous.as_ref().unwrap())
    );
}

#[test]
fn dispatch_reports_failures_per_subvolume() {
    let good = managed(b"live", b"clean");
    let bad = ManagedSubvol {
        state: SubvolState {
            live: Some(tagged(b"live")),
            clean: None,
            current: None,
            previous: None,
            penultimate: None,
        },
        persist: Vec::new(),
    };
    let results = run_dispatch(Mode::Reset, &vec![good, bad]);
    assert!(results[0].is_ok());
    assert!(matches!(results[1], Err(ResetError::CleanMissing)));
}
