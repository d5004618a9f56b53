use bloom::visibility::{compute, covers_dock, covers_notch, ForegroundState, Rect, Regions};

const SCREEN: Rect = Rect { left: 0, top: 0, right: 1920, bottom: 1080 };
/// A centred dock pill such as the interface reports.
const DOCK: Rect = Rect { left: 700, top: 1020, right: 1220, bottom: 1060 };
const NOTCH: Rect = Rect { left: 800, top: 0, right: 1120, bottom: 36 };
const DOCK_BAND: i32 = 56;
const NOTCH_BAND: i32 = 36;

#[test]
fn a_window_reaching_the_bottom_hides_the_dock() {
    assert!(covers_dock(Rect::from_xywh(0, 100, 1920, 980), DOCK, SCREEN, DOCK_BAND));
}

#[test]
fn a_window_stopping_above_the_band_leaves_the_dock_alone() {
    assert!(!covers_dock(Rect::from_xywh(0, 100, 1920, 780), DOCK, SCREEN, DOCK_BAND));
}

#[test]
fn a_window_beside_the_dock_leaves_it_alone() {
    assert!(!covers_dock(Rect::from_xywh(0, 0, 400, 1080), DOCK, SCREEN, DOCK_BAND));
}

#[test]
fn a_window_touching_the_top_hides_the_notch() {
    assert!(covers_notch(Rect::from_xywh(0, 0, 1920, 200), NOTCH, SCREEN, NOTCH_BAND));
}

#[test]
fn a_window_below_the_notch_band_leaves_it_alone() {
    assert!(!covers_notch(Rect::from_xywh(0, 100, 1920, 200), NOTCH, SCREEN, NOTCH_BAND));
}

#[test]
fn a_small_window_in_the_middle_affects_nothing() {
    let window = Rect::from_xywh(800, 400, 320, 240);
    assert!(!covers_dock(window, DOCK, SCREEN, DOCK_BAND));
    assert!(!covers_notch(window, NOTCH, SCREEN, NOTCH_BAND));
}

#[test]
fn a_window_still_counting_as_covered_is_the_dock_hiding() {
    let regions = Regions {
        screen: SCREEN,
        dock: Some(DOCK),
        notch: Some(NOTCH),
        dock_band: DOCK_BAND,
        notch_band: NOTCH_BAND,
    };
    let covering = Rect::from_xywh(0, 0, 1920, 1080);
    assert!(covers_dock(covering, regions.dock.unwrap(), regions.screen, regions.dock_band));
    assert!(covers_notch(covering, regions.notch.unwrap(), regions.screen, regions.notch_band));
}

#[test]
fn maximized_and_fullscreen_windows_cover_both_surfaces() {
    let regions = Regions { screen: SCREEN, dock: Some(DOCK), notch: Some(NOTCH), dock_band: DOCK_BAND, notch_band: NOTCH_BAND };
    let maximized = ForegroundState {
        fullscreen: false,
        maximized_horizontally: true,
        maximized_vertically: true,
        geometry: None,
    };
    let flags = compute(Some(maximized), &regions);
    assert!(flags.dock && flags.notch && !flags.fullscreen);
    let small = ForegroundState {
        fullscreen: false,
        maximized_horizontally: false,
        maximized_vertically: false,
        geometry: Some((800, 400, 320, 240)),
    };
    let flags = compute(Some(small), &regions);
    assert!(!flags.dock && !flags.notch);
    let flags = compute(None, &regions);
    assert!(!flags.dock && !flags.notch && !flags.fullscreen);
}
