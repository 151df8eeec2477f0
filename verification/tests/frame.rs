use sim_engine::clear_canvas::ClearCanvas;
use sim_engine::fps_tracker::FPSTracker;
use sim_engine::math::div_floor;
use sim_engine::math::div_round;
use sim_engine::math::lerp_round;
use sim_engine::math::sqrt_round;
use sim_engine::math::wrap_index;
use sim_engine::screen::Screen;
use sim_engine::time::Clock;
use sim_engine::time::Time;

fn time(unscaled: u64, delta: u64) -> Time {
    let mut time = Time::new();
    time.set_unscaled_time(unscaled);
    time.set_delta_time(delta);
    time
}

#[test]
fn screen_holds_its_size() {
    let mut screen = Screen::new((800, 600));
    assert_eq!(screen.size(), (800, 600));
    assert_eq!((screen.width(), screen.height()), (800, 600));
    screen.set_size((1, -2));
    assert_eq!(screen.size(), (1, -2));
    assert_eq!((screen.width(), screen.height()), (1, -2));
}

#[test]
fn time_holds_its_values() {
    let mut t = Time::new();
    assert_eq!((t.delta_time(), t.unscaled_time()), (0, 0));
    t.set_delta_time(16_667);
    assert_eq!((t.delta_time(), t.unscaled_time()), (16_667, 0));
    t.set_unscaled_time(1_000_000);
    assert_eq!((t.delta_time(), t.unscaled_time()), (16_667, 1_000_000));
}

#[test]
fn clock_counts_from_its_first_frame() {
    let mut clock = Clock::new();
    let t = clock.advance(5_000_000);
    assert_eq!((t.delta_time(), t.unscaled_time()), (0, 0));
    let t = clock.advance(5_016_000);
    assert_eq!((t.delta_time(), t.unscaled_time()), (16_000, 16_000));
    let t = clock.advance(5_050_000);
    assert_eq!((t.delta_time(), t.unscaled_time()), (34_000, 50_000));
    // the same time again: no time has passed
    let t = clock.advance(5_050_000);
    assert_eq!((t.delta_time(), t.unscaled_time()), (0, 50_000));
}

#[test]
fn clock_that_is_set_back() {
    let mut clock = Clock::new();
    clock.advance(1_000);
    clock.advance(3_000);
    // back, but not before the start
    let t = clock.advance(2_000);
    assert_eq!((t.delta_time(), t.unscaled_time()), (0, 1_000));
    // before the start
    let t = clock.advance(10);
    assert_eq!((t.delta_time(), t.unscaled_time()), (0, 0));
    let t = clock.advance(u64::MAX);
    assert_eq!((t.delta_time(), t.unscaled_time()), (u64::MAX - 1_000, u64::MAX - 1_000));
    let mut zero = Clock::new();
    let t = zero.advance(0);
    assert_eq!((t.delta_time(), t.unscaled_time()), (0, 0));
    let t = zero.advance(7);
    assert_eq!((t.delta_time(), t.unscaled_time()), (7, 7));
}

#[test]
fn frame_rate_over_the_last_second() {
    let mut tracker = FPSTracker::new();
    // sixty frames a second
    let mut fps = 0;
    for frame in 1..=200u64 {
        fps = tracker.on_update(&time(frame * 16_667, 16_667));
    }
    assert_eq!(fps, 60);
    // a slow frame: fifty-four of the fast ones are still within the second
    let fps = tracker.on_update(&time(200 * 16_667 + 100_000, 100_000));
    assert_eq!(fps, 55);
}

#[test]
fn frame_rate_drops_the_frames_older_than_a_second() {
    let mut tracker = FPSTracker::new();
    assert_eq!(tracker.on_update(&time(0, 500_000)), 2);
    assert_eq!(tracker.on_update(&time(1_000_000, 250_000)), 3);
    // the frame at 0 is now more than a second old
    assert_eq!(tracker.on_update(&time(1_000_001, 250_000)), 4);
    // so are all before this one
    assert_eq!(tracker.on_update(&time(9_000_000, 1_000_000)), 1);
    assert_eq!(tracker.on_update(&time(9_500_000, 3)), 2);
}

#[test]
fn frame_rate_at_the_limits() {
    let mut tracker = FPSTracker::new();
    // no time has passed
    assert_eq!(tracker.on_update(&time(0, 0)), i32::MAX);
    let mut tracker = FPSTracker::new();
    assert_eq!(tracker.on_update(&time(0, 0)), i32::MAX);
    assert_eq!(tracker.on_update(&time(1, 1)), 2_000_000);
    // a rate beyond what an i32 can say
    for _ in 0..3000 {
        tracker.on_update(&time(1, 0));
    }
    assert_eq!(tracker.on_update(&time(1, 0)), i32::MAX);
    // frames that take for ever
    let mut tracker = FPSTracker::new();
    assert_eq!(tracker.on_update(&time(u64::MAX, u64::MAX)), 0);
    assert_eq!(tracker.on_update(&time(u64::MAX, 2_000_000)), 0);
    let mut tracker = FPSTracker::new();
    assert_eq!(tracker.on_update(&time(5, 2_000_000)), 1);
    let mut tracker = FPSTracker::new();
    assert_eq!(tracker.on_update(&time(5, 2_000_001)), 0);
}

#[test]
fn clear_canvas_is_made() {
    let _clear_canvas: ClearCanvas = ClearCanvas::new();
}

#[test]
fn division_rounds_down_or_to_the_nearest() {
    assert_eq!(div_floor(7, 2), 3);
    assert_eq!(div_floor(-7, 2), -4);
    assert_eq!(div_floor(-8, 2), -4);
    assert_eq!(div_floor(0, 5), 0);
    assert_eq!(div_floor(-1, 5), -1);
    assert_eq!(div_floor(4, 5), 0);
    assert_eq!(div_round(7, 2), 4);
    assert_eq!(div_round(-7, 2), -3);
    assert_eq!(div_round(5, 3), 2);
    assert_eq!(div_round(4, 3), 1);
    assert_eq!(div_round(-4, 3), -1);
    assert_eq!(div_round(-5, 3), -2);
    assert_eq!(div_round(1, 2), 1);
    assert_eq!(div_round(-1, 2), 0);
    assert_eq!(div_round(0, 9), 0);
}

#[test]
fn wrapping_brings_into_range() {
    assert_eq!(wrap_index(-1, 4), 3);
    assert_eq!(wrap_index(4, 4), 0);
    assert_eq!(wrap_index(-4, 4), 0);
    assert_eq!(wrap_index(-5, 4), 3);
    assert_eq!(wrap_index(7, 4), 3);
    assert_eq!(wrap_index(i32::MIN, 3), 1);
    assert_eq!(wrap_index(i32::MAX, 3), 1);
    assert_eq!(wrap_index(i32::MIN, i32::MAX), i32::MAX - 1);
    assert_eq!(wrap_index(12345, 1), 0);
}

#[test]
fn square_root_is_rounded_to_the_nearest() {
    let roots: Vec<u64> = [0u128, 1, 2, 3, 4, 6, 7, 12, 13, 25, 30, 31].iter().map(|n| sqrt_round(*n)).collect();
    assert_eq!(roots, vec![0, 1, 1, 2, 2, 2, 3, 3, 4, 5, 5, 6]);
    assert_eq!(sqrt_round(1 << 64), 1 << 32);
    assert_eq!(sqrt_round(1 << 66), 1 << 33);
    assert_eq!(sqrt_round((1 << 66) - 1), 1 << 33);
    assert_eq!(sqrt_round(10_000_000_000_000_000_000), 3_162_277_660);
}

#[test]
fn interpolation_is_rounded_to_the_nearest() {
    assert_eq!(lerp_round(0, 10, 1, 4), 3);
    assert_eq!(lerp_round(0, 10, 2, 4), 5);
    assert_eq!(lerp_round(0, 10, 3, 4), 8);
    assert_eq!(lerp_round(10, 0, 1, 4), 8);
    assert_eq!(lerp_round(-5, 5, 1, 2), 0);
    assert_eq!(lerp_round(0, -10, 1, 4), -2);
    assert_eq!(lerp_round(0, -10, 3, 4), -7);
    assert_eq!(lerp_round(3, 3, 1, 1), 3);
    assert_eq!(lerp_round(7, 9, 0, 5), 7);
    assert_eq!(lerp_round(7, 9, 5, 5), 9);
    assert_eq!(lerp_round(i32::MIN, i32::MAX, 1, 2), 0);
    assert_eq!(lerp_round(i32::MAX, i32::MIN, 1 << 33, 1 << 33), i32::MIN);
}
