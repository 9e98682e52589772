use blockproof::resync::{is_resync_message, resync_target};
use blockproof::tracker::{ChainTracker, FetchErrorAction};

#[test]
fn parses_first_available_block() {
    let msg = "Block cleaned up. First available block: 57, try a later slot";
    assert!(is_resync_message(msg));
    assert_eq!(resync_target(msg), Some(57));
}

#[test]
fn resync_sets_cursor_exactly() {
    let mut t = ChainTracker::new();
    let a = t.on_fetch_error("Slot was skipped. First available block: 57, and more");
    assert_eq!(a, FetchErrorAction::Resync(57));
    assert_eq!(t.current_last(), 57);
    // No slot at or below the floor is planned afterwards.
    let plan = t.start_pass(60);
    assert_eq!(plan, vec![58, 59, 60]);
}

#[test]
fn floor_is_bounded_by_the_comma() {
    assert_eq!(
        resync_target("Slot was skipped; First available block: 1024, then 9999"),
        Some(1024)
    );
}

#[test]
fn classifies_both_transient_conditions() {
    assert!(is_resync_message("the Slot was skipped by the leader"));
    assert!(is_resync_message("Block cleaned up by the node"));
    assert!(!is_resync_message("connection refused"));
    assert!(!is_resync_message("block cleaned up")); // case matters
}

#[test]
fn malformed_floor_text_is_tolerated() {
    assert_eq!(resync_target("First available block: , nothing"), None);
    assert_eq!(resync_target("First available block: 57"), None); // no comma
    assert_eq!(resync_target("no label here 57,"), None);
    assert_eq!(resync_target("First available block: 5a7,"), None);
    assert_eq!(
        resync_target("First available block: 99999999999999999999999999,"),
        None
    );
    assert_eq!(resync_target(""), None);
}

#[test]
fn largest_floor_parses() {
    assert_eq!(
        resync_target("First available block: 18446744073709551615,"),
        Some(u64::MAX)
    );
    assert_eq!(resync_target("First available block: 18446744073709551616,"), None);
}

#[test]
fn unclassified_error_continues() {
    let mut t = ChainTracker::new();
    let a = t.on_fetch_error("connection refused");
    assert_eq!(a, FetchErrorAction::Continue);
    assert_eq!(t.current_last(), 0);
}

#[test]
fn resync_marker_without_floor_continues() {
    let mut t = ChainTracker::new();
    let a = t.on_fetch_error("Slot was skipped");
    assert_eq!(a, FetchErrorAction::Continue);
    assert_eq!(t.current_last(), 0);
}
