use wyrcan::union::Seen;

#[test]
fn whiteout_in_upper_layer_hides_lower_file() {
    // Layers are read from the top down: L2 = {a/.wh.x, a/y}, then L1 = {a, a/x}.
    let mut seen = Seen::new();
    assert!(seen.skip("a/.wh.x"));
    assert!(!seen.skip("a/y"));
    seen.finish_layer();
    assert!(!seen.skip("a"));
    assert!(seen.skip("a/x"));
    assert!(seen.seen("a/y"));
    assert!(seen.seen("a/.wh.x"));
}

#[test]
fn whiteout_law_simple() {
    let mut seen = Seen::new();
    assert!(seen.skip("a/.wh.b"));
    seen.finish_layer();
    assert!(seen.skip("a/b"));
}

#[test]
fn opaque_directory_hides_lower_contents_only() {
    // Upper layer: a/.wh..wh..opq and a/c; lower layer: a/b.
    let mut seen = Seen::new();
    assert!(seen.skip("a/.wh..wh..opq"));
    assert!(!seen.skip("a/c"));
    seen.finish_layer();
    assert!(seen.skip("a/b"));
    assert!(seen.skip("a/c"));
    assert!(seen.skip("a/deep/er/file"));
    assert!(!seen.skip("b/other"));
}

#[test]
fn upper_version_of_a_path_wins() {
    let mut seen = Seen::new();
    assert!(!seen.skip("etc/hostname"));
    seen.finish_layer();
    assert!(seen.skip("etc/hostname"));
    assert!(seen.skip("./etc/hostname"));
    assert!(seen.skip("etc//hostname/"));
}

#[test]
fn duplicate_entry_in_one_layer_is_taken_once() {
    let mut seen = Seen::new();
    assert!(!seen.skip("etc/"));
    assert!(seen.skip("etc"));
    assert!(!seen.skip("etc/hostname"));
}

#[test]
fn whiteout_in_same_layer_does_not_hide() {
    let mut seen = Seen::new();
    assert!(seen.skip("a/.wh.b"));
    assert!(!seen.skip("a/b"));
}

#[test]
fn equal_paths_in_different_spellings() {
    let mut seen = Seen::new();
    assert!(!seen.skip("usr/lib/libc.so"));
    assert!(seen.skip("./usr/lib/./libc.so"));
    assert!(seen.skip("usr//lib/libc.so/"));
    assert!(!seen.skip("usr/lib/libc.so.6"));
}

#[test]
fn many_paths_stay_distinct() {
    let mut seen = Seen::new();
    for i in 0..2000 {
        assert!(!seen.skip(&format!("d{}/f{}", i % 37, i)));
    }
    seen.finish_layer();
    for i in 0..2000 {
        assert!(seen.skip(&format!("d{}/f{}", i % 37, i)));
    }
    assert!(!seen.skip("d0/f1"));
}

#[test]
fn hidden_paths_are_not_recorded() {
    let mut seen = Seen::new();
    assert!(seen.skip("a/.wh.b"));
    assert!(seen.skip("c/.wh..wh..opq"));
    seen.finish_layer();
    assert!(seen.skip("a/b"));
    assert!(!seen.seen("a/b"));
    assert!(seen.skip("c/d"));
    assert!(!seen.seen("c/d"));
    assert!(!seen.skip("a/x"));
    assert!(seen.seen("a/x"));
}
