use arena_combat::timer::{Timer, TimerMode};

const SECOND: u64 = 1_000_000_000;

#[test]
fn once_timer_counts_up_and_stops_at_its_duration() {
    let mut timer = Timer::new(SECOND, TimerMode::Once);
    assert_eq!(timer.elapsed, 0);
    assert!(!timer.is_finished());
    timer.tick(SECOND / 4);
    assert_eq!(timer.elapsed, 250_000_000);
    assert!(!timer.is_finished());
    assert!(!timer.just_finished());
    timer.tick(SECOND);
    assert_eq!(timer.elapsed, SECOND);
    assert!(timer.is_finished());
    assert!(timer.just_finished());
    assert_eq!(timer.times_finished_this_tick, 1);
}

#[test]
fn finished_once_timer_only_forgets_that_it_just_finished() {
    let mut timer = Timer::new(SECOND, TimerMode::Once);
    timer.tick(SECOND);
    timer.tick(SECOND);
    assert_eq!(timer.elapsed, SECOND);
    assert!(timer.is_finished());
    assert!(!timer.just_finished());
}

#[test]
fn once_timer_finishes_exactly_at_its_duration() {
    let mut timer = Timer::new(200_000_000, TimerMode::Once);
    timer.tick(199_999_999);
    assert!(!timer.is_finished());
    timer.tick(1);
    assert!(timer.is_finished());
}

#[test]
fn repeating_timer_keeps_the_overshoot() {
    let mut timer = Timer::new(2 * SECOND, TimerMode::Repeating);
    timer.tick(SECOND);
    assert!(!timer.is_finished());
    assert_eq!(timer.elapsed, SECOND);
    timer.tick(SECOND + SECOND / 2);
    assert!(timer.is_finished());
    assert!(timer.just_finished());
    assert_eq!(timer.times_finished_this_tick, 1);
    assert_eq!(timer.elapsed, SECOND / 2);
    timer.tick(4 * SECOND + SECOND / 2);
    assert_eq!(timer.times_finished_this_tick, 2);
    assert_eq!(timer.elapsed, SECOND);
    timer.tick(1);
    assert!(!timer.is_finished());
    assert!(!timer.just_finished());
}

#[test]
fn repeating_timer_of_no_duration_always_finishes() {
    let mut timer = Timer::new(0, TimerMode::Repeating);
    timer.tick(5);
    assert!(timer.is_finished());
    assert_eq!(timer.times_finished_this_tick, u32::MAX);
    assert_eq!(timer.elapsed, 0);
}

#[test]
fn reset_starts_over() {
    let mut timer = Timer::new(SECOND, TimerMode::Once);
    timer.tick(2 * SECOND);
    timer.reset();
    assert_eq!(timer, Timer::new(SECOND, TimerMode::Once));
    timer.tick(SECOND / 2);
    assert!(!timer.is_finished());
}

#[test]
fn set_elapsed_does_not_finish_by_itself() {
    let mut timer = Timer::new(SECOND, TimerMode::Once);
    timer.set_elapsed(SECOND);
    assert!(!timer.is_finished());
    timer.tick(0);
    assert!(timer.is_finished());
    assert!(timer.just_finished());
}
