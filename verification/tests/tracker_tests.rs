use blockproof::tracker::{ChainTracker, FetchErrorAction};

#[test]
fn full_pass_records_range() {
    let mut t = ChainTracker::new();
    assert_eq!(t.current_last(), 0);
    assert!(t.should_enumerate(5));
    let plan = t.start_pass(5);
    assert_eq!(plan, vec![1, 2, 3, 4, 5]);
    for s in plan {
        t.record_block(s);
    }
    t.complete_pass(5);
    assert_eq!(t.current_last(), 5);
    for s in 1..=5u64 {
        assert!(t.is_seen(s));
    }
    assert!(!t.should_enumerate(5));
    assert!(!t.should_enumerate(4));
    let plan2 = t.start_pass(7);
    assert_eq!(plan2, vec![6, 7]);
}

#[test]
fn seen_slots_are_not_planned_again() {
    let mut t = ChainTracker::new();
    t.record_block(2);
    t.record_block(4);
    let plan = t.start_pass(5);
    assert_eq!(plan, vec![1, 3, 5]);
}

#[test]
fn tip_at_or_below_cursor_plans_nothing() {
    let mut t = ChainTracker::new();
    let plan = t.start_pass(0);
    assert!(plan.is_empty());
}

#[test]
fn unrecorded_slot_is_retried_on_the_next_pass() {
    let mut t = ChainTracker::new();
    let plan = t.start_pass(3);
    assert_eq!(plan, vec![1, 2, 3]);
    t.record_block(1);
    // Slot 2 failed with an unclassified error and is not recorded.
    let a = t.on_fetch_error("rpc node busy");
    assert_eq!(a, FetchErrorAction::Continue);
    t.record_block(3);
    t.complete_pass(3);
    assert_eq!(t.current_last(), 3);
    // Slot 2 is below the cursor now; the base design retries it only
    // when it falls inside a later enumeration window.
    assert!(!t.is_seen(2));
}

#[test]
fn cleaned_up_block_resyncs_enumeration() {
    let mut t = ChainTracker::new();
    let warmup = t.start_pass(19);
    for s in warmup {
        t.record_block(s);
    }
    t.complete_pass(19);
    assert_eq!(t.current_last(), 19);

    let plan = t.start_pass(30);
    assert_eq!(plan.first(), Some(&20));
    let mut recorded: Vec<u64> = Vec::new();
    for s in plan {
        if s == 20 {
            let a = t.on_fetch_error("Block cleaned up by the node. First available block: 25, resume there");
            assert_eq!(a, FetchErrorAction::Resync(25));
            break;
        }
        t.record_block(s);
        recorded.push(s);
    }
    assert!(recorded.is_empty());
    t.complete_pass(30);
    // The cursor keeps the floor: the resynchronization wins over the tip.
    assert_eq!(t.current_last(), 25);
    for s in 21..=24u64 {
        assert!(!t.is_seen(s));
    }
    let next = t.start_pass(30);
    assert_eq!(next, vec![26, 27, 28, 29, 30]);
}

#[test]
fn completing_without_resync_advances_to_the_tip() {
    let mut t = ChainTracker::new();
    let _plan = t.start_pass(4);
    t.complete_pass(4);
    assert_eq!(t.current_last(), 4);
}
