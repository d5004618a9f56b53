use bloom::clock::{epoch_millis, epoch_millis_unsigned, get_now_ms, now_ms, now_ms_unsigned};
use bloom::launch::{after_attempt, cinnamon_panel, first_launch, LaunchNext};

#[test]
fn the_clock_reads_milliseconds_since_the_epoch() {
    assert_eq!(epoch_millis(Some(1_700_000_000_123)), 1_700_000_000_123);
    assert_eq!(epoch_millis(None), 0);
    assert_eq!(epoch_millis_unsigned(Some(42)), 42);
    assert!(now_ms() > 1_600_000_000_000);
    assert!(get_now_ms() > 1_600_000_000_000);
    assert!(now_ms_unsigned() > 1_600_000_000_000);
}

#[test]
fn the_first_candidate_that_starts_wins() {
    assert_eq!(first_launch(0), LaunchNext::Finish(false));
    assert_eq!(first_launch(2), LaunchNext::Try(0));
    assert_eq!(after_attempt(0, false, 2), LaunchNext::Try(1));
    assert_eq!(after_attempt(1, false, 2), LaunchNext::Finish(false));
    assert_eq!(after_attempt(0, true, 2), LaunchNext::Finish(true));
    let sound = cinnamon_panel("sound");
    assert_eq!(sound[0].program, "cinnamon-settings");
    assert_eq!(sound[0].args, vec!["sound"]);
}
