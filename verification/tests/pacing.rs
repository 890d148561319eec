use tachibana::game::pacing::Pacer;
use tachibana::game::time::TimeState;
use tachibana::game::Runner;

const MS: u64 = 1_000_000;

#[test]
fn default_intervals_are_one_and_eight_milliseconds() {
    let p = Pacer::new(5);
    assert_eq!(p.last_frame(), 5);
    assert_eq!(p.target_update_time(), MS);
    assert_eq!(p.target_frame_time(), 8 * MS);
    assert_eq!(Runner::TARGET_UPDATE_TIME, MS);
    assert_eq!(Runner::TARGET_FRAME_TIME, 8 * MS);
}

#[test]
fn frame_is_due_only_after_more_than_the_interval() {
    let p = Pacer::with_targets(100, MS, 8 * MS);
    assert!(!p.frame_due(0));
    assert!(!p.frame_due(100));
    assert!(!p.frame_due(100 + 8 * MS));
    assert!(p.frame_due(100 + 8 * MS + 1));
}

#[test]
fn drawing_moves_the_mark_by_one_interval() {
    let mut p = Pacer::with_targets(0, MS, 8 * MS);
    assert!(!p.begin_frame(8 * MS));
    assert_eq!(p.last_frame(), 0);
    assert!(p.begin_frame(9 * MS));
    assert_eq!(p.last_frame(), 8 * MS);
    assert!(!p.begin_frame(9 * MS));
    assert_eq!(p.last_frame(), 8 * MS);
}

#[test]
fn late_frame_does_not_delay_the_next() {
    let mut p = Pacer::with_targets(0, MS, 8 * MS);
    assert!(p.begin_frame(30 * MS));
    assert_eq!(p.last_frame(), 8 * MS);
    assert!(p.begin_frame(30 * MS));
    assert_eq!(p.last_frame(), 16 * MS);
    assert!(p.begin_frame(30 * MS));
    assert_eq!(p.last_frame(), 24 * MS);
    assert!(!p.begin_frame(30 * MS));
    assert_eq!(p.last_frame(), 24 * MS);
}

#[test]
fn frames_fit_into_the_time_that_has_passed() {
    let mut p = Pacer::with_targets(0, MS, 8 * MS);
    let mut drawn = 0u64;
    let mut now = 0u64;
    while now <= 100 * MS {
        if p.begin_frame(now) {
            drawn += 1;
        }
        now += 250_000;
    }
    assert_eq!(drawn, 12);
    assert_eq!(p.last_frame(), drawn * 8 * MS);
    assert!(p.last_frame() <= 100 * MS);
}

#[test]
fn consecutive_frames_are_an_interval_apart_less_the_lateness() {
    let mut p = Pacer::with_targets(0, MS, 8 * MS);
    let first = 8 * MS + 400_000;
    assert!(p.begin_frame(first));
    let mut second = first;
    while !p.begin_frame(second) {
        second += 1000;
    }
    let lateness = first - 8 * MS;
    assert!(second - first > 8 * MS - lateness);
    assert!(second > 16 * MS);
}

#[test]
fn pause_is_what_is_left_of_the_update_interval() {
    let p = Pacer::with_targets(0, MS, 8 * MS);
    assert_eq!(p.pause(0), MS);
    assert_eq!(p.pause(300_000), 700_000);
    assert_eq!(p.pause(MS - 1), 1);
    assert_eq!(p.pause(MS), 0);
    assert_eq!(p.pause(5 * MS), 0);
}

#[test]
fn tick_after_the_pause_is_an_interval_behind_the_last() {
    let p = Pacer::with_targets(0, MS, 8 * MS);
    let mut tracker = TimeState::new(40);
    tracker.update(10 * MS);
    let now = 10 * MS + 123_456;
    let woke = now + p.pause(tracker.since_last_update(now));
    tracker.update(woke);
    assert_eq!(tracker.last_update(), 11 * MS);
    assert_eq!(tracker.last_update_time(), MS);
}

#[test]
fn tracker_starts_at_rest() {
    let t = TimeState::new(77);
    assert_eq!(t.last_update(), 77);
    assert_eq!(t.last_update_time(), 0);
    assert_eq!(t.elapsed(), 0);
    assert_eq!(t.since_last_update(100), 23);
    assert_eq!(t.since_last_update(50), 0);
}

#[test]
fn tracker_records_tick_and_delta() {
    let mut t = TimeState::new(10);
    t.update(25);
    assert_eq!(t.last_update(), 25);
    assert_eq!(t.last_update_time(), 15);
    assert_eq!(t.elapsed(), 15);
    t.update(100);
    assert_eq!(t.last_update(), 100);
    assert_eq!(t.last_update_time(), 75);
    assert_eq!(t.elapsed(), 90);
}

#[test]
fn tracker_never_runs_backwards() {
    let mut t = TimeState::new(10);
    t.update(50);
    t.update(30);
    assert_eq!(t.last_update(), 50);
    assert_eq!(t.last_update_time(), 0);
    assert_eq!(t.elapsed(), 40);
}

#[test]
fn tracker_takes_the_largest_instant() {
    let mut t = TimeState::new(0);
    t.update(u64::MAX);
    assert_eq!(t.last_update(), u64::MAX);
    assert_eq!(t.elapsed(), u64::MAX);
    assert_eq!(t.since_last_update(u64::MAX), 0);
}

#[test]
fn fast_loop_draws_no_faster_than_the_frame_interval() {
    let mut p = Pacer::with_targets(0, MS, 8 * MS);
    let step = 250_000;
    let mut frames = Vec::new();
    let mut now = 0u64;
    while now <= 60 * MS {
        if p.begin_frame(now) {
            frames.push(now);
        }
        now += step;
    }
    assert_eq!(frames.len(), 7);
    for pair in frames.windows(2) {
        assert!(pair[1] - pair[0] > 8 * MS - step);
    }
}
