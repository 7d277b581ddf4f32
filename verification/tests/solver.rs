//! The searches' control, step by step.

use simd_vol::consts::{VOL_CEILING, VOL_FLOOR};
use simd_vol::ieee::le;
use simd_vol::lane::Lane;
use simd_vol::solver::{
    bisect_estimate, bisect_step, converged, select_strategy, settle, settle_lane, Bisection,
    Budget, Newton, Strategy,
};

fn b(x: f32) -> u32 {
    x.to_bits()
}

fn lane(x: [f32; 8]) -> Lane {
    Lane::new(x.map(f32::to_bits))
}

fn values(l: &Lane) -> [f32; 8] {
    l.to_array().map(f32::from_bits)
}

#[test]
fn strategy_follows_the_warm_start() {
    assert_eq!(select_strategy(false), Strategy::Bisection);
    assert_eq!(select_strategy(true), Strategy::Newton);
}

#[test]
fn settle_rules() {
    assert_eq!(settle(b(0.0), b(0.3)), VOL_FLOOR);
    assert_eq!(settle(b(-0.0), b(0.3)), VOL_FLOOR);
    assert_eq!(settle(b(4.0), b(0.3)), b(0.3));
    assert_eq!(settle(b(4.0), b(-0.3)), VOL_FLOOR);
    assert_eq!(settle(b(4.0), b(-0.0)), b(-0.0));
    assert_eq!(settle(b(4.0), b(7.5)), b(7.5));
    assert_eq!(settle(b(4.0), b(f32::NEG_INFINITY)), VOL_FLOOR);
    assert!(f32::from_bits(settle(b(4.0), b(f32::NAN))).is_nan());
    assert_eq!(settle(b(0.0), b(f32::NAN)), VOL_FLOOR);
    assert_eq!(settle(b(f32::NAN), b(0.25)), b(0.25));
}

#[test]
fn settle_lane_is_slot_by_slot() {
    let price = lane([4.0, 0.0, 2.0, 3.0, -0.0, 1.0, 1.0, 1.0]);
    let estimate = lane([0.1, 0.2, -0.3, 0.4, 0.5, 0.6, -0.0, 5.5]);
    let vol = values(&settle_lane(&price, &estimate));
    assert_eq!(vol, [0.1, 0.0, 0.0, 0.4, 0.0, 0.6, -0.0, 5.5]);
    assert_eq!(settle_lane(&price, &estimate).to_array()[2], 0);
}

#[test]
fn convergence_is_of_the_whole_lane() {
    let threshold = b(0.001);
    let tight = lane([0.0005, -0.0005, 0.0, 0.0009, 0.0001, -0.0001, 0.0002, 0.0003]);
    assert!(converged(&tight, threshold, 8));
    let one_wide = lane([0.0005, -0.0005, 0.0, 0.0009, 0.0001, -0.001, 0.0002, 0.0003]);
    assert!(!converged(&one_wide, threshold, 8));
    let one_nan = lane([0.0005, -0.0005, f32::NAN, 0.0009, 0.0001, 0.0001, 0.0002, 0.0003]);
    assert!(!converged(&one_nan, threshold, 8));
}

#[test]
fn convergence_skips_padding() {
    let threshold = b(0.001);
    let padded = lane([0.0005, -0.0005, 0.0001, f32::NAN, 9.0, f32::NAN, 0.5, -7.0]);
    assert!(converged(&padded, threshold, 3));
    assert!(!converged(&padded, threshold, 4));
    assert!(!converged(&padded, threshold, 8));
    assert!(!converged(&padded, threshold, 100));
    assert!(converged(&padded, threshold, 0));
}

#[test]
fn convergence_needs_a_threshold_to_get_under() {
    let still = lane([0.0; 8]);
    assert!(!converged(&still, b(0.0), 8));
    assert!(!converged(&still, b(f32::NAN), 8));
    assert!(!converged(&still, b(-1.0), 8));
    assert!(converged(&still, b(f32::INFINITY), 8));
}

#[test]
fn budget_allows_cap_plus_two_evaluations() {
    for cap in [2, 3, 20, 100] {
        let mut budget = Budget::new(cap);
        let mut evaluations = 0;
        loop {
            evaluations += 1;
            if !budget.spend() {
                break;
            }
        }
        assert_eq!(evaluations, cap + 2);
        assert!(budget.is_stopped());
        assert_eq!(budget.steps_spent(), (cap + 1) as u32);
        assert!(!budget.spend());
        assert_eq!(budget.steps_spent(), (cap + 1) as u32);
    }
}

#[test]
fn budget_with_a_negative_cap_allows_one_evaluation() {
    let mut budget = Budget::new(-5);
    assert!(!budget.is_stopped());
    assert!(!budget.spend());
    assert!(budget.is_stopped());
    assert_eq!(budget.steps_spent(), 0);
    let mut budget = Budget::new(i32::MAX);
    assert!(budget.spend());
    assert_eq!(budget.steps_spent(), 1);
}

#[test]
fn bisect_step_moves_one_bound() {
    // value above target: the upper bound comes down
    assert_eq!(bisect_step(b(0.0), b(5.0), b(2.5), b(9.0), b(4.0)), (b(0.0), b(2.5)));
    // value below target: the lower bound goes up
    assert_eq!(bisect_step(b(0.0), b(5.0), b(2.5), b(3.0), b(4.0)), (b(2.5), b(5.0)));
    // value equal to target: the lower bound goes up
    assert_eq!(bisect_step(b(0.0), b(5.0), b(2.5), b(4.0), b(4.0)), (b(2.5), b(5.0)));
    // no comparison: the upper bound comes down
    assert_eq!(bisect_step(b(0.0), b(5.0), b(2.5), b(f32::NAN), b(4.0)), (b(0.0), b(2.5)));
    assert_eq!(bisect_step(b(0.0), b(5.0), b(2.5), b(3.0), b(f32::NAN)), (b(0.0), b(2.5)));
    // a midpoint outside the bracket, or none: nothing moves
    assert_eq!(bisect_step(b(1.0), b(2.0), b(2.5), b(3.0), b(4.0)), (b(1.0), b(2.0)));
    assert_eq!(bisect_step(b(1.0), b(2.0), b(0.5), b(9.0), b(4.0)), (b(1.0), b(2.0)));
    assert_eq!(bisect_step(b(1.0), b(2.0), b(f32::NAN), b(9.0), b(4.0)), (b(1.0), b(2.0)));
}

#[test]
fn bisect_estimate_rules() {
    assert_eq!(bisect_estimate(b(1.0), b(2.0), b(1.5), b(4.0)), b(1.5));
    assert_eq!(bisect_estimate(b(1.0), b(2.0), b(1.5), b(0.0)), VOL_FLOOR);
    assert_eq!(bisect_estimate(b(1.0), b(2.0), b(f32::NAN), b(4.0)), b(1.0));
    assert_eq!(bisect_estimate(b(1.0), b(2.0), b(3.0), b(4.0)), b(1.0));
}

#[test]
fn bisection_starts_on_the_whole_domain() {
    let search = Bisection::new(20, b(0.0001), 8);
    assert_eq!(search.low().to_array(), [VOL_FLOOR; 8]);
    assert_eq!(search.high().to_array(), [VOL_CEILING; 8]);
    assert!(!search.is_stopped());
    assert!(!search.is_converged(&lane([5.0; 8])));
    assert!(search.is_converged(&lane([0.00005; 8])));
}

#[test]
fn bisection_moves_each_slot_on_its_own() {
    let mut search = Bisection::new(20, b(0.0001), 8);
    let mid = lane([2.5; 8]);
    let value = lane([9.0, 1.0, 4.0, f32::NAN, 9.0, 1.0, 9.0, 1.0]);
    let target = lane([4.0; 8]);
    assert!(search.advance(&mid, &value, &target));
    assert_eq!(values(&search.low()), [0.0, 2.5, 2.5, 0.0, 0.0, 2.5, 0.0, 2.5]);
    assert_eq!(values(&search.high()), [2.5, 5.0, 5.0, 2.5, 2.5, 5.0, 2.5, 5.0]);
    let mid = lane([1.25, 3.75, 3.75, 1.25, f32::NAN, 7.0, -1.0, 3.75]);
    let value = lane([1.0; 8]);
    assert!(search.advance(&mid, &value, &target));
    assert_eq!(values(&search.low()), [1.25, 3.75, 3.75, 1.25, 0.0, 2.5, 0.0, 3.75]);
    assert_eq!(values(&search.high()), [2.5, 5.0, 5.0, 2.5, 2.5, 5.0, 2.5, 5.0]);
}

#[test]
fn bisection_keeps_its_brackets_whatever_it_is_fed() {
    let mut search = Bisection::new(50, b(0.0001), 8);
    let mut seed: u32 = 0x1234_5678;
    let mut next = move || {
        seed ^= seed << 13;
        seed ^= seed >> 17;
        seed ^= seed << 5;
        seed
    };
    for _ in 0..40 {
        let mid = Lane::new([0; 8].map(|_: u32| next()));
        let value = Lane::new([0; 8].map(|_: u32| next()));
        let target = Lane::new([0; 8].map(|_: u32| next()));
        search.advance(&mid, &value, &target);
        let (low, high) = (search.low().to_array(), search.high().to_array());
        for i in 0..8 {
            assert!(le(VOL_FLOOR, low[i]) && le(low[i], high[i]) && le(high[i], VOL_CEILING));
        }
        let vol = search.estimate(&mid, &target).to_array();
        for v in vol {
            assert!(le(VOL_FLOOR, v) && le(v, VOL_CEILING));
        }
    }
}

#[test]
fn bisection_stays_as_it_is_once_stopped() {
    let mut search = Bisection::new(2, b(0.0001), 8);
    let target = lane([4.0; 8]);
    let mut steps = 0;
    let mut mid = 2.5f32;
    loop {
        steps += 1;
        let go = search.advance(&lane([mid; 8]), &lane([9.0; 8]), &target);
        mid /= 2.0;
        if !go {
            break;
        }
    }
    assert_eq!(steps, 4);
    assert!(search.is_stopped());
    let (low, high) = (search.low().to_array(), search.high().to_array());
    assert_eq!(values(&search.high()), [0.3125; 8]);
    assert!(!search.advance(&lane([0.1; 8]), &lane([9.0; 8]), &target));
    assert_eq!(search.low().to_array(), low);
    assert_eq!(search.high().to_array(), high);
}

#[test]
fn bisection_estimate_is_zero_for_a_zero_price() {
    let search = Bisection::new(20, b(0.0001), 8);
    let target = lane([4.0, 0.0, -0.0, 4.0, 4.0, 4.0, 4.0, 0.0]);
    let vol = values(&search.estimate(&lane([2.5; 8]), &target));
    assert_eq!(vol, [2.5, 0.0, 0.0, 2.5, 2.5, 2.5, 2.5, 0.0]);
    assert_eq!(search.estimate(&lane([2.5; 8]), &target).to_array()[2], 0);
}

#[test]
fn newton_takes_each_step_and_floors_the_result() {
    let start = lane([0.2; 8]);
    let mut search = Newton::new(&start, 3, b(0.001), 8);
    assert_eq!(search.current().to_array(), start.to_array());
    assert!(!search.is_converged(&lane([0.0, 0.0, 0.0, 0.002, 0.0, 0.0, 0.0, 0.0])));
    assert!(search.is_converged(&lane([0.0, 0.0, 0.0, -0.0009, 0.0, 0.0, 0.0, 0.0])));
    let next = lane([0.25, -0.1, f32::NAN, 0.3, 6.0, 0.0, 0.1, 0.2]);
    assert!(search.advance(&next));
    assert_eq!(search.current().to_array(), next.to_array());
    let target = lane([4.0, 4.0, 4.0, 0.0, 4.0, 4.0, 4.0, 4.0]);
    let vol = values(&search.result(&target));
    assert_eq!(vol[0], 0.25);
    assert_eq!(vol[1], 0.0);
    assert!(vol[2].is_nan());
    assert_eq!(vol[3], 0.0);
    assert_eq!(vol[4], 6.0);
}

#[test]
fn newton_stops_at_the_cap() {
    let mut search = Newton::new(&lane([0.2; 8]), 3, b(0.001), 8);
    let mut steps = 0;
    while search.advance(&lane([0.3; 8])) {
        steps += 1;
    }
    assert_eq!(steps, 4);
    assert!(search.is_stopped());
    assert!(!search.advance(&lane([0.9; 8])));
    assert_eq!(values(&search.current()), [0.3; 8]);
}
