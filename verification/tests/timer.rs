use bomby::timer::Timer;

#[test]
fn a_new_timer_has_not_run() {
    let t = Timer::new(1_500_000_000);
    assert_eq!(t.duration(), 1_500_000_000);
    assert_eq!(t.elapsed(), 0);
    assert!(!t.finished());
    assert!(!t.just_finished());
}

#[test]
fn a_timer_counts_up_to_its_duration() {
    let mut t = Timer::new(100);
    t.tick(40);
    assert_eq!(t.elapsed(), 40);
    assert!(!t.finished());
    t.tick(59);
    assert_eq!(t.elapsed(), 99);
    assert!(!t.finished());
    t.tick(1);
    assert_eq!(t.elapsed(), 100);
    assert!(t.finished());
    assert!(t.just_finished());
}

#[test]
fn completion_is_reported_on_one_tick_only() {
    let mut t = Timer::new(100);
    let mut reported: u32 = 0;
    for _ in 0..50 {
        t.tick(7);
        if t.just_finished() {
            reported += 1;
        }
    }
    assert_eq!(reported, 1);
    assert!(t.finished());
    assert_eq!(t.elapsed(), 100);
}

#[test]
fn a_tick_past_the_end_stops_at_the_duration() {
    let mut t = Timer::new(100);
    t.tick(u64::MAX);
    assert_eq!(t.elapsed(), 100);
    assert!(t.just_finished());
    let mut late = Timer::new(u64::MAX);
    late.tick(u64::MAX - 1);
    assert!(!late.finished());
    late.tick(u64::MAX);
    assert!(late.just_finished());
    assert_eq!(late.elapsed(), u64::MAX);
}

#[test]
fn a_timer_of_no_duration_completes_on_its_first_tick() {
    let mut t = Timer::new(0);
    assert!(!t.finished());
    t.tick(0);
    assert!(t.just_finished());
    t.tick(0);
    assert!(t.finished());
    assert!(!t.just_finished());
}
