use immutability::deletion::delete_subvolume;
use immutability::filter::split_abs_path;

fn p(s: &str) -> Vec<Vec<u8>> {
    split_abs_path(&s.as_bytes().to_vec())
}

#[test]
fn three_nested_levels_deleted_bottom_up() {
    let subvols = vec![p("top"), p("top/mid"), p("top/mid/leaf"), p("other")];
    let plan = delete_subvolume(&p("top"), &subvols);
    assert_eq!(plan.len(), 3);
    assert_eq!(plan[0], p("top/mid/leaf"));
    assert_eq!(plan[1], p("top/mid"));
    assert_eq!(plan[2], p("top"));
}

#[test]
fn unrelated_subvolumes_stay_out_of_the_plan() {
    let subvols = vec![p("a"), p("a/x"), p("b"), p("b/y")];
    let plan = delete_subvolume(&p("a"), &subvols);
    assert_eq!(plan.len(), 2);
    assert!(plan.contains(&p("a/x")));
    assert!(plan.contains(&p("a")));
    assert!(!plan.contains(&p("b")));
    assert!(!plan.contains(&p("b/y")));
}

#[test]
fn missing_root_gives_the_empty_plan() {
    let subvols = vec![p("a"), p("b")];
    let plan = delete_subvolume(&p("gone"), &subvols);
    assert_eq!(plan.len(), 0);
}

#[test]
fn every_descendant_comes_before_its_ancestor() {
    let subvols = vec![p("r"), p("r/a"), p("r/b"), p("r/a/c"), p("r/b/d"), p("r/a/c/e")];
    let plan = delete_subvolume(&p("r"), &subvols);
    assert_eq!(plan.len(), 6);
    for i in 0..plan.len() {
        for j in (i + 1)..plan.len() {
            // plan[i] must never be a strict prefix (an ancestor) of plan[j].
            let a = &plan[i];
            let b = &plan[j];
            let ancestor = a.len() < b.len() && b[..a.len()] == a[..];
            assert!(!ancestor);
        }
    }
    assert_eq!(plan[plan.len() - 1], p("r"));
}

#[test]
fn sibling_name_prefixes_are_not_ancestors() {
    // "ab" is not an ancestor of "abc": component paths, not string prefixes.
    let subvols = vec![p("ab"), p("abc")];
    let plan = delete_subvolume(&p("ab"), &subvols);
    assert_eq!(plan.len(), 1);
    assert_eq!(plan[0], p("ab"));
}
