use bloom::pointer::{at_bottom, at_top, on_monitor, Latch};

#[test]
fn latch_lingers_after_the_pointer_leaves() {
    let mut latch = Latch::new();
    let start = 1_000;
    assert!(latch.value(true, start));
    // Still hot just after the pointer leaves, so an OSD does not snap shut.
    assert!(latch.value(false, start + 100));
    // Cold once the linger has expired.
    assert!(!latch.value(false, start + 600));
}

#[test]
fn latch_reports_only_transitions() {
    let mut latch = Latch::new();
    assert!(latch.changed(true));
    assert!(!latch.changed(true));
    assert!(latch.changed(false));
    assert!(!latch.changed(false));
    assert!(latch.changed(true));
}

#[test]
fn edge_tests_stay_on_the_primary_monitor() {
    let monitor = (0, 0, 1920, 1080);
    assert!(on_monitor((0, 1079), monitor));
    // A monitor to the left of the primary must not trip the edge tests.
    assert!(!on_monitor((-200, 500), monitor));
    assert!(!on_monitor((2000, 500), monitor));
    assert!(!on_monitor((500, 1200), monitor));
}

#[test]
fn edges_are_eight_pixels_thick() {
    let monitor = (0, 0, 1920, 1080);
    assert!(at_bottom(1072, monitor));
    assert!(!at_bottom(1071, monitor));
    assert!(at_top(8, monitor));
    assert!(!at_top(9, monitor));
}
