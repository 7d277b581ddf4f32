//! Validation, partition and assembly, with solvers that only mark where
//! their lanes came from.

use simd_vol::consts::OptionDir;
use simd_vol::lane::Lane;
use simd_vol::solver::Strategy;
use simd_vol::vol32x8::{
    chunk_bounds, count_chunks, implied_vol, load_chunk, parity_interest_rate, validate,
    BatchPlan, ParityChunk, ParityPlan, ValidationError,
};

const THRESHOLD: u32 = 0x38d1_b717;

fn threshold_is_a_ten_thousandth() -> bool {
    THRESHOLD == (0.0001f32).to_bits()
}

/// A pattern that says which contract it stands for: a number from 1000 on.
fn mark(i: usize) -> u32 {
    ((1000 + i) as f32).to_bits()
}

/// The lane that a solver would hand back for chunk `idx` if it solved
/// every slot to the slot's own mark.
fn marked_lane(idx: usize) -> Lane {
    let mut bits = [0u32; 8];
    for (slot, b) in bits.iter_mut().enumerate() {
        *b = mark(idx * 8 + slot);
    }
    Lane::new(bits)
}

fn ones(n: usize) -> Vec<u32> {
    vec![(1.0f32).to_bits(); n]
}

fn plan_of<'a>(price: &'a [u32], other: &'a [u32]) -> BatchPlan<'a> {
    BatchPlan::new(OptionDir::CALL, price, other, other, other, other, other, None, 20, THRESHOLD)
        .unwrap()
}

#[test]
fn threshold_constant() {
    assert!(threshold_is_a_ten_thousandth());
}

#[test]
fn validation_accepts_equal_lengths() {
    assert_eq!(validate(3, 3, 3, 3, 3, 3, None, 2, THRESHOLD), Ok(()));
    assert_eq!(validate(0, 0, 0, 0, 0, 0, None, 20, THRESHOLD), Ok(()));
    assert_eq!(validate(3, 3, 3, 3, 3, 3, Some(3), 20, THRESHOLD), Ok(()));
    assert_eq!(validate(3, 3, 3, 3, 3, 3, None, i32::MAX, f32::INFINITY.to_bits()), Ok(()));
    assert_eq!(validate(3, 3, 3, 3, 3, 3, None, 20, 1), Ok(()));
}

#[test]
fn validation_refuses_a_length_mismatch() {
    let e = Err(ValidationError::LengthMismatch);
    assert_eq!(validate(2, 3, 3, 3, 3, 3, None, 20, THRESHOLD), e);
    assert_eq!(validate(3, 2, 3, 3, 3, 3, None, 20, THRESHOLD), e);
    assert_eq!(validate(3, 3, 2, 3, 3, 3, None, 20, THRESHOLD), e);
    assert_eq!(validate(3, 3, 3, 2, 3, 3, None, 20, THRESHOLD), e);
    assert_eq!(validate(3, 3, 3, 3, 2, 3, None, 20, THRESHOLD), e);
    assert_eq!(validate(3, 3, 3, 3, 3, 2, None, 20, THRESHOLD), e);
    assert_eq!(validate(3, 3, 3, 3, 3, 3, Some(2), 20, THRESHOLD), e);
    // the lengths are looked at first
    assert_eq!(validate(3, 3, 3, 3, 3, 2, None, 0, 0), e);
}

#[test]
fn validation_refuses_a_low_iteration_cap() {
    let e = Err(ValidationError::IterationCap);
    assert_eq!(validate(3, 3, 3, 3, 3, 3, None, 1, THRESHOLD), e);
    assert_eq!(validate(3, 3, 3, 3, 3, 3, None, 0, THRESHOLD), e);
    assert_eq!(validate(3, 3, 3, 3, 3, 3, None, -7, THRESHOLD), e);
    assert_eq!(validate(3, 3, 3, 3, 3, 3, None, i32::MIN, THRESHOLD), e);
    // the cap is looked at before the threshold
    assert_eq!(validate(3, 3, 3, 3, 3, 3, None, 1, 0), e);
}

#[test]
fn validation_refuses_a_threshold_that_is_not_positive() {
    let e = Err(ValidationError::Threshold);
    for t in [0.0f32, -0.0, -0.0001, f32::NEG_INFINITY, f32::NAN, -f32::NAN] {
        assert_eq!(validate(3, 3, 3, 3, 3, 3, None, 20, t.to_bits()), e, "{:?}", t);
    }
}

#[test]
fn plan_reports_what_validation_says() {
    let (a, b) = (ones(8), ones(7));
    let plan = BatchPlan::new(OptionDir::PUT, &a, &a, &a, &a, &a, &b, None, 20, THRESHOLD);
    assert_eq!(plan.err(), Some(ValidationError::LengthMismatch));
    let plan = BatchPlan::new(OptionDir::PUT, &a, &a, &a, &a, &a, &a, Some(&b), 20, THRESHOLD);
    assert_eq!(plan.err(), Some(ValidationError::LengthMismatch));
    let plan = BatchPlan::new(OptionDir::PUT, &a, &a, &a, &a, &a, &a, None, 1, THRESHOLD);
    assert_eq!(plan.err(), Some(ValidationError::IterationCap));
    let plan = BatchPlan::new(OptionDir::PUT, &a, &a, &a, &a, &a, &a, None, 20, 0);
    assert_eq!(plan.err(), Some(ValidationError::Threshold));
    let plan = BatchPlan::new(OptionDir::PUT, &a, &a, &a, &a, &a, &a, None, 20, THRESHOLD).unwrap();
    assert_eq!(plan.len(), 8);
    assert_eq!(plan.chunks(), 1);
    assert_eq!(plan.strategy(), Strategy::Bisection);
    let plan =
        BatchPlan::new(OptionDir::PUT, &a, &a, &a, &a, &a, &a, Some(&a), 20, THRESHOLD).unwrap();
    assert_eq!(plan.strategy(), Strategy::Newton);
}

#[test]
fn chunk_counts() {
    let expected = [(0, 0), (1, 1), (7, 1), (8, 1), (9, 2), (16, 2), (17, 3), (19, 3), (800, 100)];
    for (n, count) in expected {
        assert_eq!(count_chunks(n), count, "{}", n);
    }
    assert_eq!(count_chunks(usize::MAX), usize::MAX / 8 + 1);
}

#[test]
fn chunk_bounds_cover_the_batch_in_order() {
    assert_eq!(chunk_bounds(19, 0), Some((0, 8)));
    assert_eq!(chunk_bounds(19, 1), Some((8, 16)));
    assert_eq!(chunk_bounds(19, 2), Some((16, 19)));
    assert_eq!(chunk_bounds(19, 3), None);
    assert_eq!(chunk_bounds(16, 1), Some((8, 16)));
    assert_eq!(chunk_bounds(16, 2), None);
    assert_eq!(chunk_bounds(0, 0), None);
    assert_eq!(chunk_bounds(1, 0), Some((0, 1)));
    assert_eq!(chunk_bounds(usize::MAX, usize::MAX / 8), Some((usize::MAX - 7, usize::MAX)));
    for n in 0..70 {
        let mut next = 0;
        for idx in 0..count_chunks(n) {
            let (start, end) = chunk_bounds(n, idx).unwrap();
            assert_eq!(start, next);
            assert!(start < end && end - start <= 8);
            next = end;
        }
        assert_eq!(next, n);
    }
}

#[test]
fn chunks_load_with_zero_padding() {
    let values: Vec<u32> = (0..19).map(mark).collect();
    assert_eq!(load_chunk(&values, 0).to_array(), marked_lane(0).to_array());
    assert_eq!(load_chunk(&values, 1).to_array(), marked_lane(1).to_array());
    let tail = load_chunk(&values, 2).to_array();
    assert_eq!(tail, [mark(16), mark(17), mark(18), 0, 0, 0, 0, 0]);
    assert_eq!(load_chunk(&values, 3).to_array(), [0; 8]);
}

#[test]
fn problems_carry_every_attribute() {
    let n = 11;
    let price: Vec<u32> = (0..n).map(|i| mark(i)).collect();
    let spot: Vec<u32> = (0..n).map(|i| mark(100 + i)).collect();
    let strike: Vec<u32> = (0..n).map(|i| mark(200 + i)).collect();
    let rate: Vec<u32> = (0..n).map(|i| mark(300 + i)).collect();
    let dividend: Vec<u32> = (0..n).map(|i| mark(400 + i)).collect();
    let years: Vec<u32> = (0..n).map(|i| mark(500 + i)).collect();
    let prev: Vec<u32> = (0..n).map(|i| mark(600 + i)).collect();
    let plan = BatchPlan::new(
        OptionDir::PUT,
        &price,
        &spot,
        &strike,
        &rate,
        &dividend,
        &years,
        Some(&prev),
        33,
        THRESHOLD,
    )
    .unwrap();
    assert_eq!(plan.chunks(), 2);
    let p = plan.problem(1).unwrap();
    assert_eq!(p.option_dir, OptionDir::PUT);
    assert_eq!(p.len, 3);
    assert_eq!(p.max_iterations, 33);
    assert_eq!(p.threshold, THRESHOLD);
    assert_eq!(p.strategy(), Strategy::Newton);
    assert_eq!(p.price.to_array(), [mark(8), mark(9), mark(10), 0, 0, 0, 0, 0]);
    assert_eq!(p.spot.to_array(), [mark(108), mark(109), mark(110), 0, 0, 0, 0, 0]);
    assert_eq!(p.strike.to_array(), [mark(208), mark(209), mark(210), 0, 0, 0, 0, 0]);
    assert_eq!(p.risk_free_rate.to_array(), [mark(308), mark(309), mark(310), 0, 0, 0, 0, 0]);
    assert_eq!(p.dividend_yield.to_array(), [mark(408), mark(409), mark(410), 0, 0, 0, 0, 0]);
    assert_eq!(p.years_to_expiry.to_array(), [mark(508), mark(509), mark(510), 0, 0, 0, 0, 0]);
    assert_eq!(
        p.prev_implied_vol.unwrap().to_array(),
        [mark(608), mark(609), mark(610), 0, 0, 0, 0, 0]
    );
    let p = plan.problem(0).unwrap();
    assert_eq!(p.len, 8);
    assert_eq!(p.spot.to_array(), marked_lane(0).to_array().map(|_| 0).iter().enumerate().fold(
        [0u32; 8],
        |mut acc, (i, _)| {
            acc[i] = mark(100 + i);
            acc
        }
    ));
    assert!(plan.problem(2).is_none());
}

#[test]
fn tail_chunk_gives_exactly_the_batch_length() {
    for k in 0..5 {
        let n = 8 * k + 3;
        let price = ones(n);
        let vol = implied_vol(
            OptionDir::CALL,
            &price,
            &price,
            &price,
            &price,
            &price,
            &price,
            20,
            THRESHOLD,
            None,
            |plan: BatchPlan| (0..plan.chunks()).map(marked_lane).collect(),
        );
        assert_eq!(vol.len(), n);
        for (i, v) in vol.iter().enumerate() {
            assert_eq!(*v, mark(i));
        }
    }
}

#[test]
fn output_order_is_input_order_over_many_chunks() {
    let n = 8 * 250 + 5;
    let price = ones(n);
    let vol = implied_vol(
        OptionDir::PUT,
        &price,
        &price,
        &price,
        &price,
        &price,
        &price,
        20,
        THRESHOLD,
        None,
        |plan: BatchPlan| {
            // solve the chunks last to first, then put the lanes in place
            let mut lanes = vec![Lane::splat(0); plan.chunks()];
            for idx in (0..plan.chunks()).rev() {
                lanes[idx] = marked_lane(idx);
            }
            lanes
        },
    );
    assert_eq!(vol.len(), n);
    for (i, v) in vol.iter().enumerate() {
        assert_eq!(*v, mark(i));
    }
}

#[test]
fn scatter_in_any_order_is_assemble() {
    let n = 29;
    let price = ones(n);
    let plan = plan_of(&price, &price);
    let lanes: Vec<Lane> = (0..plan.chunks()).map(marked_lane).collect();
    let assembled = plan.assemble(&lanes).unwrap();
    for order in [[0, 1, 2, 3], [3, 2, 1, 0], [2, 0, 3, 1], [1, 3, 0, 2]] {
        let mut out = plan.blank();
        assert_eq!(out, vec![0; n]);
        for idx in order {
            assert!(plan.scatter(&mut out, idx, &lanes[idx]));
        }
        assert_eq!(out, assembled);
    }
    // a chunk that completes twice changes nothing
    let mut out = plan.blank();
    for idx in [2, 2, 0, 1, 3, 0] {
        assert!(plan.scatter(&mut out, idx, &lanes[idx]));
    }
    assert_eq!(out, assembled);
}

#[test]
fn scatter_writes_only_its_own_segment() {
    let n = 19;
    let price = ones(n);
    let plan = plan_of(&price, &price);
    let mut out = vec![7u32; n];
    assert!(plan.scatter(&mut out, 1, &marked_lane(1)));
    for (i, v) in out.iter().enumerate() {
        assert_eq!(*v, if (8..16).contains(&i) { mark(i) } else { 7 });
    }
    assert!(plan.scatter(&mut out, 2, &marked_lane(2)));
    assert_eq!(out[16..], [mark(16), mark(17), mark(18)]);
    assert_eq!(out[..8], [7; 8]);
}

#[test]
fn scatter_refuses_what_does_not_fit() {
    let n = 19;
    let price = ones(n);
    let plan = plan_of(&price, &price);
    let mut out = plan.blank();
    assert!(!plan.scatter(&mut out, 3, &marked_lane(3)));
    assert_eq!(out, vec![0; n]);
    let mut short = vec![7u32; n - 1];
    assert!(!plan.scatter(&mut short, 0, &marked_lane(0)));
    assert_eq!(short, vec![7u32; n - 1]);
}

#[test]
fn assemble_needs_one_lane_per_chunk() {
    let n = 19;
    let price = ones(n);
    let plan = plan_of(&price, &price);
    let lanes: Vec<Lane> = (0..4).map(marked_lane).collect();
    assert!(plan.assemble(&lanes[..2]).is_none());
    assert!(plan.assemble(&lanes[..4]).is_none());
    assert!(plan.assemble(&[]).is_none());
    assert_eq!(plan.assemble(&lanes[..3]).unwrap().len(), n);
}

#[test]
fn assemble_settles_each_contract() {
    let price: Vec<u32> =
        [4.0f32, 0.0, 4.0, -0.0, 4.0, 4.0, 4.0, 4.0, 0.0, 4.0].map(f32::to_bits).to_vec();
    let other = ones(price.len());
    let plan = plan_of(&price, &other);
    let negative = Lane::splat((-0.25f32).to_bits());
    let vol = plan.assemble(&[marked_lane(0), negative]).unwrap();
    assert_eq!(vol, vec![mark(0), 0, mark(2), 0, mark(4), mark(5), mark(6), mark(7), 0, 0]);
}

#[test]
fn implied_vol_refuses_without_solving() {
    let (a, b) = (ones(8), ones(7));
    let never = |_: BatchPlan| -> Vec<Lane> { panic!("solved a refused batch") };
    assert!(implied_vol(OptionDir::CALL, &a, &a, &a, &a, &a, &b, 20, THRESHOLD, None, never)
        .is_empty());
    assert!(implied_vol(OptionDir::CALL, &b, &a, &a, &a, &a, &a, 20, THRESHOLD, None, never)
        .is_empty());
    assert!(implied_vol(OptionDir::CALL, &a, &a, &a, &a, &a, &a, 20, THRESHOLD, Some(&b), never)
        .is_empty());
    assert!(implied_vol(OptionDir::CALL, &a, &a, &a, &a, &a, &a, 1, THRESHOLD, None, never)
        .is_empty());
    assert!(implied_vol(OptionDir::CALL, &a, &a, &a, &a, &a, &a, 20, 0, None, never).is_empty());
    let none: Vec<u32> = Vec::new();
    assert!(implied_vol(
        OptionDir::CALL,
        &none,
        &none,
        &none,
        &none,
        &none,
        &none,
        20,
        THRESHOLD,
        None,
        never
    )
    .is_empty());
}

#[test]
fn implied_vol_gives_nothing_for_a_wrong_number_of_lanes() {
    let a = ones(19);
    let short = |_: BatchPlan| vec![marked_lane(0), marked_lane(1)];
    assert!(implied_vol(OptionDir::CALL, &a, &a, &a, &a, &a, &a, 20, THRESHOLD, None, short)
        .is_empty());
}

#[test]
fn parity_plan_splits_full_lanes_from_the_tail() {
    let n = 11;
    let call: Vec<u32> = (0..n).map(|i| mark(i)).collect();
    let put: Vec<u32> = (0..n).map(|i| mark(100 + i)).collect();
    let spot: Vec<u32> = (0..n).map(|i| mark(200 + i)).collect();
    let strike: Vec<u32> = (0..n).map(|i| mark(300 + i)).collect();
    let years: Vec<u32> = (0..n).map(|i| mark(400 + i)).collect();
    let plan = ParityPlan::new(&call, &put, &spot, &strike, &years).unwrap();
    assert_eq!(plan.len(), n);
    assert_eq!(plan.chunks(), 2);
    match plan.chunk(0).unwrap() {
        ParityChunk::Lanes(lanes) => {
            assert_eq!(lanes.call_price.to_array()[7], mark(7));
            assert_eq!(lanes.put_price.to_array()[0], mark(100));
            assert_eq!(lanes.spot.to_array()[3], mark(203));
            assert_eq!(lanes.strike.to_array()[4], mark(304));
            assert_eq!(lanes.years_to_expiry.to_array()[5], mark(405));
        }
        ParityChunk::Scalars(_) => panic!("a full chunk went the scalar way"),
    }
    match plan.chunk(1).unwrap() {
        ParityChunk::Lanes(_) => panic!("a partial chunk was padded to a lane"),
        ParityChunk::Scalars(pairs) => {
            assert_eq!(pairs.len(), 3);
            for (j, p) in pairs.iter().enumerate() {
                assert_eq!(p.call_price, mark(8 + j));
                assert_eq!(p.put_price, mark(108 + j));
                assert_eq!(p.spot, mark(208 + j));
                assert_eq!(p.strike, mark(308 + j));
                assert_eq!(p.years_to_expiry, mark(408 + j));
            }
        }
    }
    assert!(plan.chunk(2).is_none());
}

#[test]
fn parity_plan_refuses_a_length_mismatch() {
    let (a, b) = (ones(8), ones(9));
    assert_eq!(ParityPlan::new(&b, &a, &a, &a, &a).err(), Some(ValidationError::LengthMismatch));
    assert_eq!(ParityPlan::new(&a, &b, &a, &a, &a).err(), Some(ValidationError::LengthMismatch));
    assert_eq!(ParityPlan::new(&a, &a, &b, &a, &a).err(), Some(ValidationError::LengthMismatch));
    assert_eq!(ParityPlan::new(&a, &a, &a, &b, &a).err(), Some(ValidationError::LengthMismatch));
    assert_eq!(ParityPlan::new(&a, &a, &a, &a, &b).err(), Some(ValidationError::LengthMismatch));
    assert!(ParityPlan::new(&a, &a, &a, &a, &a).is_ok());
}

#[test]
fn parity_rate_is_zero_without_a_batch() {
    let (a, b) = (ones(8), ones(9));
    let never = |_: ParityPlan| -> u32 { panic!("averaged a refused batch") };
    assert_eq!(parity_interest_rate(&a, &a, &a, &b, &a, never), 0);
    assert_eq!(parity_interest_rate(&b, &a, &a, &a, &a, never), 0);
    let none: Vec<u32> = Vec::new();
    assert_eq!(parity_interest_rate(&none, &none, &none, &none, &none, never), 0);
    assert_eq!(parity_interest_rate(&a, &a, &a, &a, &a, |plan: ParityPlan| plan.len() as u32), 8);
}

#[test]
fn a_put_orders_before_a_call() {
    assert!(OptionDir::PUT < OptionDir::CALL);
    assert_ne!(OptionDir::PUT, OptionDir::CALL);
}

#[test]
fn chunks_are_solved_in_chunk_order() {
    let price: Vec<u32> = (0..19).map(mark).collect();
    let other = ones(19);
    let plan = plan_of(&price, &other);
    // a solver that hands back the prices it was given
    let lanes = plan.solve_in_order(|problem| problem.price);
    assert_eq!(lanes.len(), 3);
    assert_eq!(lanes[0].to_array(), marked_lane(0).to_array());
    assert_eq!(lanes[1].to_array(), marked_lane(1).to_array());
    assert_eq!(lanes[2].to_array(), [mark(16), mark(17), mark(18), 0, 0, 0, 0, 0]);
    assert_eq!(plan.assemble(&lanes).unwrap(), price);
    let none: Vec<u32> = Vec::new();
    let empty = plan_of(&none, &none);
    assert!(empty.solve_in_order(|problem| problem.price).is_empty());
}
