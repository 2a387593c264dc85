use ray_tracer::timer::{EveryNFrames, EveryNTicks};
use ray_tracer::clock::{Clock, FrameIterator};

#[test]
fn every_n_ticks_counts() {
    let mut timer = EveryNTicks::new(3);

    assert!(!timer.tick()); // count=1
    assert!(!timer.tick()); // count=2
    assert!(timer.tick()); // count=3, fire and reset
    assert!(!timer.tick()); // count=1 again
}

#[test]
fn every_n_ticks_fires_on_multiples_of_the_interval() {
    let mut timer = EveryNTicks::new(4);
    for n in 1..=40u32 {
        assert_eq!(timer.tick(), n % 4 == 0, "tick {}", n);
    }
}

#[test]
fn every_n_ticks_reset_restarts_the_count() {
    let mut timer = EveryNTicks::new(3);
    timer.tick();
    timer.tick();
    timer.reset();
    assert!(!timer.tick());
    assert!(!timer.tick());
    assert!(timer.tick());
}

#[test]
fn every_n_ticks_with_interval_one_or_zero_always_fires() {
    let mut one = EveryNTicks::new(1);
    let mut zero = EveryNTicks::new(0);
    for _ in 0..5 {
        assert!(one.tick());
        assert!(zero.tick());
    }
}

#[test]
fn every_n_frames_fires_correctly() {
    let timer = EveryNFrames::new(10);

    assert!(timer.should_tick(0));
    assert!(!timer.should_tick(1));
    assert!(!timer.should_tick(9));
    assert!(timer.should_tick(10));
    assert!(timer.should_tick(20));
}

#[test]
fn every_n_frames_keeps_its_period() {
    let timer = EveryNFrames::new(144);
    assert_eq!(timer.every_n, 144);
    assert!(timer.should_tick(288));
    assert!(!timer.should_tick(289));
}

#[test]
fn frame_numbers_count_up_from_zero() {
    let mut frames = FrameIterator::new();
    assert_eq!(frames.frame_number(), 0);
    for expected in 0..5u64 {
        let f = frames.next_frame();
        assert_eq!(f.number, expected);
        assert!(f.time >= f.delta);
    }
    assert_eq!(frames.frame_number(), 5);
}

#[test]
fn clock_ticks_and_resets() {
    let mut clock = Clock::new();
    let first = clock.tick();
    clock.reset();
    let second = clock.tick();
    assert!(first.as_secs_f32() < 1.0);
    assert!(second.as_secs_f32() < 0.005);
}

#[test]
fn first_frame_time_equals_its_delta() {
    let mut frames = FrameIterator::new();
    let f = frames.next_frame();
    assert_eq!(f.time, f.delta);
    let g = frames.next_frame();
    assert!(g.time >= g.delta);
}

#[test]
fn default_clock_starts_now() {
    let mut clock = Clock::default();
    let delta = clock.tick();
    assert!(delta < std::time::Duration::from_secs(5));
}
