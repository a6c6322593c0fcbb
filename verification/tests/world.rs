use rusty_net_sim::world::WorldClock;

#[test]
fn tick_counter_advances_by_one_per_step() {
    let mut clock = WorldClock::new(60);
    assert_eq!(clock.tick(), 0);
    clock.advance();
    assert_eq!(clock.tick(), 1);
}

#[test]
fn velocity_resampled_once_per_second() {
    let mut clock = WorldClock::new(60);
    assert_eq!(clock.waypoint_interval_ticks(), 60);
    let mut resampled_at = Vec::new();
    for _ in 0..200 {
        let at = clock.tick();
        if clock.advance() {
            resampled_at.push(at);
        }
    }
    assert_eq!(resampled_at, vec![60, 120, 180]);
    assert_eq!(clock.tick(), 200);
}

#[test]
fn zero_tick_rate_resamples_every_step() {
    let mut clock = WorldClock::new(0);
    for _ in 0..5 {
        assert!(clock.advance());
    }
}
