use netsandbox::engine::time::{Timing, SECOND};
use netsandbox::networking::server::{Server, TICK_RATE};

#[test]
fn a_new_clock_stands_at_the_origin() {
    let t = Timing::new();
    assert_eq!(t.last_tick, 0);
    assert_eq!(t.delta_time, 0);
}

#[test]
fn a_tick_is_due_after_a_sixtieth_of_a_second() {
    let t = Timing::new();
    assert!(!t.due(0, 60));
    assert!(!t.due(16_666_666, 60));
    assert!(t.due(16_666_667, 60));
    assert!(t.due(SECOND, 60));
}

#[test]
fn due_counts_from_the_last_tick() {
    let mut t = Timing::new();
    t.update(1_000);
    assert!(!t.due(16_667_666, 60));
    assert!(t.due(16_667_667, 60));
}

#[test]
fn due_bears_the_largest_times() {
    let t = Timing::new();
    assert!(t.due(u64::MAX, u64::MAX));
    assert!(!t.due(u64::MAX, 0));
}

#[test]
fn update_records_the_time_since_the_last_tick() {
    let mut t = Timing::new();
    t.update(20_000_000);
    assert_eq!(t.delta_time, 20_000_000);
    assert_eq!(t.last_tick, 20_000_000);
    t.update(36_666_667);
    assert_eq!(t.delta_time, 16_666_667);
    assert_eq!(t.last_tick, 36_666_667);
}

#[test]
fn a_clock_that_reads_earlier_covers_no_time() {
    let mut t = Timing::new();
    t.update(500);
    t.update(100);
    assert_eq!(t.delta_time, 0);
    assert_eq!(t.last_tick, 100);
    assert!(!t.due(50, 60));
}

#[test]
fn the_server_ticks_sixty_times_a_second() {
    assert_eq!(TICK_RATE, 60);
    let server = Server::new();
    assert!(!server.due(16_666_666));
    assert!(server.due(16_666_667));
}
