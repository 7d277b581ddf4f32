//! Batches of contracts: validation, partition into lanes, and assembly
//! of the solved lanes in input order.
//!
//! A value is a single-precision bit pattern throughout. The arithmetic
//! of a solve is the caller's; what is decided here is which inputs are
//! accepted, which contracts share a lane, and where each result goes.

use vstd::prelude::*;
use vstd::slice::slice_subrange;
use crate::consts::{OptionDir, LANES, VOL_FLOOR};
use crate::ieee::{is_zero, less, lt};
use crate::lane::Lane;
use crate::solver::{
    bisect, bisection_ran, newton, newton_ran, select_strategy, settle, settled, NewtonRound,
    Round, Strategy,
};

verus! {

/// Why a batch was refused.
#[derive(PartialEq, Eq, Debug, Copy, Clone, Structural)]
pub enum ValidationError {
    /// The input arrays do not all have the same length.
    LengthMismatch,
    /// The iteration cap does not exceed 1.
    IterationCap,
    /// The threshold does not exceed zero, or is not a number.
    Threshold,
}

/// Number of lanes that `n` contracts fill, the last one perhaps in part.
pub open spec fn chunk_count(n: nat) -> nat {
    (n + 7) / 8
}

/// Index of the first contract of chunk `idx`.
pub open spec fn chunk_start(idx: int) -> int {
    idx * 8
}

/// Index after the last contract of chunk `idx` in a batch of `n`.
pub open spec fn chunk_end(n: nat, idx: int) -> int {
    if idx * 8 + 8 <= n {
        idx * 8 + 8
    } else {
        n as int
    }
}

/// The lane that chunk `idx` of `values` is loaded into: its contracts in
/// order from slot 0, and zero in the slots that a last, partial chunk
/// leaves over.
pub open spec fn chunk_lane(values: Seq<u32>, idx: int) -> Seq<u32> {
    Seq::new(
        LANES as nat,
        |i: int| if idx * 8 + i < values.len() { values[idx * 8 + i] } else { 0u32 },
    )
}

/// The six input arrays, and the earlier volatilities where there are
/// any, all have the length of `price`.
pub open spec fn lengths_agree(
    price: nat,
    spot: nat,
    strike: nat,
    risk_free_rate: nat,
    dividend_yield: nat,
    years_to_expiry: nat,
    prev_implied_vol: Option<nat>,
) -> bool {
    &&& price == spot
    &&& spot == strike
    &&& strike == risk_free_rate
    &&& risk_free_rate == dividend_yield
    &&& dividend_yield == years_to_expiry
    &&& match prev_implied_vol {
        Some(n) => n == price,
        None => true,
    }
}

/// The outcome of validating a batch: the lengths are checked first, then
/// the iteration cap, which must exceed 1, then the threshold, which must
/// exceed zero.
pub open spec fn checked(
    price: nat,
    spot: nat,
    strike: nat,
    risk_free_rate: nat,
    dividend_yield: nat,
    years_to_expiry: nat,
    prev_implied_vol: Option<nat>,
    max_iterations: i32,
    threshold: u32,
) -> Result<(), ValidationError> {
    if !lengths_agree(
        price,
        spot,
        strike,
        risk_free_rate,
        dividend_yield,
        years_to_expiry,
        prev_implied_vol,
    ) {
        Err(ValidationError::LengthMismatch)
    } else if max_iterations <= 1 {
        Err(ValidationError::IterationCap)
    } else if !less(VOL_FLOOR, threshold) {
        Err(ValidationError::Threshold)
    } else {
        Ok(())
    }
}

/// Length of the earlier volatilities, where there are any.
pub open spec fn prev_len(prev_implied_vol: Option<&[u32]>) -> Option<nat> {
    match prev_implied_vol {
        Some(p) => Some(p@.len()),
        None => None,
    }
}

/// Validates the lengths and control parameters of a batch.
pub fn validate(
    price: usize,
    spot: usize,
    strike: usize,
    risk_free_rate: usize,
    dividend_yield: usize,
    years_to_expiry: usize,
    prev_implied_vol: Option<usize>,
    max_iterations: i32,
    threshold: u32,
) -> (r: Result<(), ValidationError>)
    ensures
        r == checked(
            price as nat,
            spot as nat,
            strike as nat,
            risk_free_rate as nat,
            dividend_yield as nat,
            years_to_expiry as nat,
            match prev_implied_vol {
                Some(n) => Some(n as nat),
                None => None,
            },
            max_iterations,
            threshold,
        ),
{
    let prev_ok: bool = match prev_implied_vol {
        Some(n) => n == price,
        None => true,
    };
    if !(price == spot && spot == strike && strike == risk_free_rate && risk_free_rate
        == dividend_yield && dividend_yield == years_to_expiry && prev_ok) {
        Err(ValidationError::LengthMismatch)
    } else if max_iterations <= 1 {
        Err(ValidationError::IterationCap)
    } else if !lt(VOL_FLOOR, threshold) {
        Err(ValidationError::Threshold)
    } else {
        Ok(())
    }
}

/// Number of lanes that `n` contracts fill.
pub fn count_chunks(n: usize) -> (count: usize)
    ensures
        count == chunk_count(n as nat),
{
    if n == 0 {
        0
    } else {
        (n - 1) / 8 + 1
    }
}

/// The half-open range of contracts that chunk `idx` of a batch of `n`
/// holds, or nothing where the batch has no such chunk.
pub fn chunk_bounds(n: usize, idx: usize) -> (r: Option<(usize, usize)>)
    ensures
        r is Some <==> idx < chunk_count(n as nat),
        r matches Some((start, end)) ==> start == chunk_start(idx as int) && end == chunk_end(
            n as nat,
            idx as int,
        ) && start < end <= n && end - start <= 8,
{
    if idx >= count_chunks(n) {
        return None;
    }
    let start: usize = idx * 8;
    let end: usize = if n - start < 8 {
        n
    } else {
        start + 8
    };
    Some((start, end))
}

/// Loads chunk `idx` of `values` into a lane.
pub fn load_chunk(values: &[u32], idx: usize) -> (lane: Lane)
    ensures
        lane@ == chunk_lane(values@, idx as int),
{
    let lane = match chunk_bounds(values.len(), idx) {
        None => Lane::splat(0),
        Some((start, end)) => Lane::from_slice(slice_subrange(values, start, end)),
    };
    assert(lane@ =~= chunk_lane(values@, idx as int));
    lane
}

/// The batch's volatilities in input order: contract `i` gets what slot
/// `i % 8` of lane `i / 8` reports for its price.
pub open spec fn assembled(price: Seq<u32>, lanes: Seq<Lane>) -> Seq<u32> {
    Seq::new(price.len(), |i: int| settled(price[i], lanes[i / 8]@[i % 8]))
}

/// The output `out` after the solved lane of chunk `idx` was written to
/// the chunk's own segment: the contracts of that chunk get what the lane
/// reports for their prices, all others keep what they had.
pub open spec fn scattered(out: Seq<u32>, price: Seq<u32>, idx: int, lane: Seq<u32>) -> Seq<u32> {
    Seq::new(
        out.len(),
        |i: int| if i / 8 == idx { settled(price[i], lane[i % 8]) } else { out[i] },
    )
}

/// The output `out` after the chunks named in `order` were written one
/// after the other, each with its lane of `lanes`.
pub open spec fn scattered_all(
    out: Seq<u32>,
    price: Seq<u32>,
    lanes: Seq<Lane>,
    order: Seq<int>,
) -> Seq<u32>
    decreases order.len(),
{
    if order.len() == 0 {
        out
    } else {
        scattered(
            scattered_all(out, price, lanes, order.drop_last()),
            price,
            order.last(),
            lanes[order.last()]@,
        )
    }
}

/// The order in which chunks complete does not matter: written in any
/// order that names every chunk of the batch, over any output buffer of
/// the batch's length, the solved lanes give the volatilities in input
/// order.
pub proof fn lemma_scatter_any_order(
    out: Seq<u32>,
    price: Seq<u32>,
    lanes: Seq<Lane>,
    order: Seq<int>,
)
    requires
        out.len() == price.len(),
        forall|k: int| 0 <= k < chunk_count(price.len()) ==> order.contains(k),
    ensures
        scattered_all(out, price, lanes, order) == assembled(price, lanes),
{
    lemma_scattered_all_at(out, price, lanes, order);
    assert forall|i: int| 0 <= i < price.len() implies scattered_all(out, price, lanes, order)[i]
        == assembled(price, lanes)[i] by {
        assert(0 <= i / 8 < chunk_count(price.len()));
        assert(order.contains(i / 8));
    }
    assert(scattered_all(out, price, lanes, order) =~= assembled(price, lanes));
}

/// After any sequence of writes the output has its length, a contract
/// whose chunk was written holds what its lane reports, and any other
/// holds what it held before.
pub proof fn lemma_scattered_all_at(
    out: Seq<u32>,
    price: Seq<u32>,
    lanes: Seq<Lane>,
    order: Seq<int>,
)
    ensures
        scattered_all(out, price, lanes, order).len() == out.len(),
        forall|i: int|
            0 <= i < out.len() ==> #[trigger] scattered_all(out, price, lanes, order)[i]
                == if order.contains(i / 8) {
                settled(price[i], lanes[i / 8]@[i % 8])
            } else {
                out[i]
            },
    decreases order.len(),
{
    if order.len() > 0 {
        let rest = order.drop_last();
        lemma_scattered_all_at(out, price, lanes, rest);
        assert forall|i: int| 0 <= i < out.len() implies #[trigger] scattered_all(
            out,
            price,
            lanes,
            order,
        )[i] == if order.contains(i / 8) {
            settled(price[i], lanes[i / 8]@[i % 8])
        } else {
            out[i]
        } by {
            if i / 8 == order.last() {
                assert(order[order.len() - 1] == i / 8);
            } else if rest.contains(i / 8) {
                let k = choose|k: int| 0 <= k < rest.len() && rest[k] == i / 8;
                assert(order[k] == i / 8);
            } else if order.contains(i / 8) {
                let k = choose|k: int| 0 <= k < order.len() && order[k] == i / 8;
                assert(rest[k] == i / 8);
            }
        }
    }
}

/// Two writes to different chunks commute.
pub proof fn lemma_scatter_commutes(
    out: Seq<u32>,
    price: Seq<u32>,
    a: int,
    lane_a: Seq<u32>,
    b: int,
    lane_b: Seq<u32>,
)
    requires
        a != b,
    ensures
        scattered(scattered(out, price, a, lane_a), price, b, lane_b) == scattered(
            scattered(out, price, b, lane_b),
            price,
            a,
            lane_a,
        ),
{
    assert(scattered(scattered(out, price, a, lane_a), price, b, lane_b) =~= scattered(
        scattered(out, price, b, lane_b),
        price,
        a,
        lane_a,
    ));
}

/// A contract with a price of zero is given a volatility of zero,
/// whatever the solver found and whatever its other attributes are.
pub proof fn lemma_zero_price_zero_vol(price: Seq<u32>, lanes: Seq<Lane>, i: int)
    requires
        0 <= i < price.len(),
        is_zero(price[i]),
    ensures
        assembled(price, lanes)[i] == VOL_FLOOR,
{
}

/// The chunks partition the batch: each contract lies in exactly one
/// chunk, the one numbered by its index divided by eight; each chunk but
/// the last ends where the next begins, and the last ends with the batch.
pub proof fn lemma_chunks_partition(n: nat, i: int)
    requires
        0 <= i < n,
    ensures
        0 <= i / 8 < chunk_count(n),
        chunk_start(i / 8) <= i < chunk_end(n, i / 8),
        forall|k: int| chunk_start(k) <= i < #[trigger] chunk_end(n, k) ==> k == i / 8,
        chunk_end(n, chunk_count(n) - 1) == n,
        forall|k: int|
            0 <= k < chunk_count(n) - 1 ==> #[trigger] chunk_end(n, k) == chunk_start(k + 1),
{
}

/// One lane of work for the solver: up to eight contracts, attribute by
/// attribute, with the control parameters of the batch.
#[derive(Clone, Copy, Debug)]
pub struct LaneProblem {
    pub option_dir: OptionDir,
    /// The observed prices that the volatilities are to reproduce.
    pub price: Lane,
    pub spot: Lane,
    pub strike: Lane,
    pub risk_free_rate: Lane,
    pub dividend_yield: Lane,
    pub years_to_expiry: Lane,
    /// Earlier volatilities to start from, where the batch has them.
    pub prev_implied_vol: Option<Lane>,
    pub max_iterations: i32,
    pub threshold: u32,
    /// Number of slots, from slot 0, that hold a contract of the batch.
    pub len: usize,
}

impl LaneProblem {
    /// The search to solve the lane with.
    pub fn strategy(&self) -> (s: Strategy)
        ensures
            s == if self.prev_implied_vol is Some { Strategy::Newton } else { Strategy::Bisection },
    {
        select_strategy(self.prev_implied_vol.is_some())
    }

    /// Solves the lane with the search that its inputs select: by
    /// Newton-Raphson steps from the earlier volatilities where it has
    /// them, by bisection where it has none.
    ///
    /// The arithmetic is the caller's. For a bisection, `span` gives
    /// widths and midpoints of brackets and `value_at` the model's prices
    /// at a lane of volatilities; for Newton-Raphson, `diff_at` gives the
    /// model's prices minus the prices to reach and `step_from` the next
    /// estimates.
    pub fn solve<S, V, D, N>(&self, span: S, value_at: V, diff_at: D, step_from: N) -> (vol:
        Lane) where
        S: Fn(Lane, Lane) -> (Lane, Lane),
        V: Fn(Lane) -> Lane,
        D: Fn(Lane) -> Lane,
        N: Fn(Lane, Lane) -> Lane,

        requires
            forall|low: Lane, high: Lane| call_requires(span, (low, high)),
            forall|mid: Lane| call_requires(value_at, (mid,)),
            forall|estimate: Lane| call_requires(diff_at, (estimate,)),
            forall|estimate: Lane, diff: Lane| call_requires(step_from, (estimate, diff)),
        ensures
            match self.prev_implied_vol {
                Some(warm_start) => exists|rounds: Seq<NewtonRound>, last: NewtonRound|
                    newton_ran(
                        diff_at,
                        step_from,
                        rounds,
                        last,
                        self.price@,
                        warm_start@,
                        self.max_iterations,
                        self.threshold,
                        self.len as nat,
                        vol@,
                    ),
                None => exists|rounds: Seq<Round>, last: Round|
                    bisection_ran(
                        span,
                        value_at,
                        rounds,
                        last,
                        self.price@,
                        self.max_iterations,
                        self.threshold,
                        self.len as nat,
                        vol@,
                    ),
            },
            forall|i: int| 0 <= i < LANES ==> !less(#[trigger] vol@[i], VOL_FLOOR),
            forall|i: int|
                0 <= i < LANES && is_zero(self.price@[i]) ==> #[trigger] vol@[i] == VOL_FLOOR,
    {
        match &self.prev_implied_vol {
            Some(warm_start) => newton(
                &self.price,
                warm_start,
                self.max_iterations,
                self.threshold,
                self.len,
                diff_at,
                step_from,
            ),
            None => bisect(
                &self.price,
                self.max_iterations,
                self.threshold,
                self.len,
                span,
                value_at,
            ),
        }
    }
}

/// A batch that passed validation.
#[derive(Clone, Copy, Debug)]
pub struct BatchPlan<'a> {
    option_dir: OptionDir,
    price: &'a [u32],
    spot: &'a [u32],
    strike: &'a [u32],
    risk_free_rate: &'a [u32],
    dividend_yield: &'a [u32],
    years_to_expiry: &'a [u32],
    prev_implied_vol: Option<&'a [u32]>,
    max_iterations: i32,
    threshold: u32,
}

impl<'a> BatchPlan<'a> {
    /// Direction of every contract of the batch.
    pub closed spec fn option_dir(&self) -> OptionDir {
        self.option_dir
    }

    /// The observed prices.
    pub closed spec fn price(&self) -> Seq<u32> {
        self.price@
    }

    /// The spot prices.
    pub closed spec fn spot(&self) -> Seq<u32> {
        self.spot@
    }

    /// The strikes.
    pub closed spec fn strike(&self) -> Seq<u32> {
        self.strike@
    }

    /// The risk-free rates.
    pub closed spec fn risk_free_rate(&self) -> Seq<u32> {
        self.risk_free_rate@
    }

    /// The dividend yields.
    pub closed spec fn dividend_yield(&self) -> Seq<u32> {
        self.dividend_yield@
    }

    /// The times to expiry, in years.
    pub closed spec fn years_to_expiry(&self) -> Seq<u32> {
        self.years_to_expiry@
    }

    /// The earlier volatilities, where the batch has them.
    pub closed spec fn prev_implied_vol(&self) -> Option<Seq<u32>> {
        match self.prev_implied_vol {
            Some(p) => Some(p@),
            None => None,
        }
    }

    /// The iteration cap.
    pub closed spec fn max_iterations(&self) -> i32 {
        self.max_iterations
    }

    /// The convergence threshold.
    pub closed spec fn threshold(&self) -> u32 {
        self.threshold
    }

    /// Number of contracts.
    pub open spec fn size(&self) -> nat {
        self.price().len()
    }

    /// The plan is the one made from these inputs.
    pub open spec fn describes(
        &self,
        option_dir: OptionDir,
        price: Seq<u32>,
        spot: Seq<u32>,
        strike: Seq<u32>,
        risk_free_rate: Seq<u32>,
        dividend_yield: Seq<u32>,
        years_to_expiry: Seq<u32>,
        prev_implied_vol: Option<Seq<u32>>,
        max_iterations: i32,
        threshold: u32,
    ) -> bool {
        &&& self.option_dir() == option_dir
        &&& self.price() == price
        &&& self.spot() == spot
        &&& self.strike() == strike
        &&& self.risk_free_rate() == risk_free_rate
        &&& self.dividend_yield() == dividend_yield
        &&& self.years_to_expiry() == years_to_expiry
        &&& self.prev_implied_vol() == prev_implied_vol
        &&& self.max_iterations() == max_iterations
        &&& self.threshold() == threshold
    }

    /// `problem` is the lane of work that chunk `idx` makes: each
    /// attribute's lane is the chunk of that attribute's array, and the
    /// control parameters are the batch's.
    pub open spec fn frames(&self, idx: int, problem: LaneProblem) -> bool {
        &&& problem.option_dir == self.option_dir()
        &&& problem.price@ == chunk_lane(self.price(), idx)
        &&& problem.spot@ == chunk_lane(self.spot(), idx)
        &&& problem.strike@ == chunk_lane(self.strike(), idx)
        &&& problem.risk_free_rate@ == chunk_lane(self.risk_free_rate(), idx)
        &&& problem.dividend_yield@ == chunk_lane(self.dividend_yield(), idx)
        &&& problem.years_to_expiry@ == chunk_lane(self.years_to_expiry(), idx)
        &&& match self.prev_implied_vol() {
            Some(p) => problem.prev_implied_vol is Some && problem.prev_implied_vol->0@
                == chunk_lane(p, idx),
            None => problem.prev_implied_vol is None,
        }
        &&& problem.max_iterations == self.max_iterations()
        &&& problem.threshold == self.threshold()
        &&& problem.len == chunk_end(self.size(), idx) - chunk_start(idx)
    }

    #[verifier::type_invariant]
    spec fn wf(&self) -> bool {
        checked(
            self.price@.len(),
            self.spot@.len(),
            self.strike@.len(),
            self.risk_free_rate@.len(),
            self.dividend_yield@.len(),
            self.years_to_expiry@.len(),
            prev_len(self.prev_implied_vol),
            self.max_iterations,
            self.threshold,
        ) is Ok
    }

    /// Validates a batch and, where it passes, plans it. The earlier
    /// volatilities, where given, select the Newton-Raphson search.
    pub fn new(
        option_dir: OptionDir,
        price: &'a [u32],
        spot: &'a [u32],
        strike: &'a [u32],
        risk_free_rate: &'a [u32],
        dividend_yield: &'a [u32],
        years_to_expiry: &'a [u32],
        prev_implied_vol: Option<&'a [u32]>,
        max_iterations: i32,
        threshold: u32,
    ) -> (r: Result<BatchPlan<'a>, ValidationError>)
        ensures
            match r {
                Ok(plan) => checked(
                    price@.len(),
                    spot@.len(),
                    strike@.len(),
                    risk_free_rate@.len(),
                    dividend_yield@.len(),
                    years_to_expiry@.len(),
                    prev_len(prev_implied_vol),
                    max_iterations,
                    threshold,
                ) is Ok && plan.describes(
                    option_dir,
                    price@,
                    spot@,
                    strike@,
                    risk_free_rate@,
                    dividend_yield@,
                    years_to_expiry@,
                    match prev_implied_vol {
                        Some(p) => Some(p@),
                        None => None,
                    },
                    max_iterations,
                    threshold,
                ),
                Err(e) => checked(
                    price@.len(),
                    spot@.len(),
                    strike@.len(),
                    risk_free_rate@.len(),
                    dividend_yield@.len(),
                    years_to_expiry@.len(),
                    prev_len(prev_implied_vol),
                    max_iterations,
                    threshold,
                ) == Err::<(), ValidationError>(e),
            },
    {
        let prev_length: Option<usize> = match prev_implied_vol {
            Some(p) => Some(p.len()),
            None => None,
        };
        match validate(
            price.len(),
            spot.len(),
            strike.len(),
            risk_free_rate.len(),
            dividend_yield.len(),
            years_to_expiry.len(),
            prev_length,
            max_iterations,
            threshold,
        ) {
            Err(e) => Err(e),
            Ok(()) => Ok(
                BatchPlan {
                    option_dir,
                    price,
                    spot,
                    strike,
                    risk_free_rate,
                    dividend_yield,
                    years_to_expiry,
                    prev_implied_vol,
                    max_iterations,
                    threshold,
                },
            ),
        }
    }

    /// Number of contracts. All the plan's arrays have this length.
    pub fn len(&self) -> (n: usize)
        ensures
            n == self.size(),
            self.spot().len() == n,
            self.strike().len() == n,
            self.risk_free_rate().len() == n,
            self.dividend_yield().len() == n,
            self.years_to_expiry().len() == n,
            self.prev_implied_vol() matches Some(p) ==> p.len() == n,
            1 < self.max_iterations(),
            less(VOL_FLOOR, self.threshold()),
    {
        proof {
            use_type_invariant(self);
        }
        self.price.len()
    }

    /// Number of lanes that the batch fills.
    pub fn chunks(&self) -> (count: usize)
        ensures
            count == chunk_count(self.size()),
    {
        count_chunks(self.price.len())
    }

    /// The search that the batch is solved with.
    pub fn strategy(&self) -> (s: Strategy)
        ensures
            s == if self.prev_implied_vol() is Some {
                Strategy::Newton
            } else {
                Strategy::Bisection
            },
    {
        select_strategy(self.prev_implied_vol.is_some())
    }

    /// The lane of work that chunk `idx` makes, or nothing where the
    /// batch has no such chunk.
    pub fn problem(&self, idx: usize) -> (r: Option<LaneProblem>)
        ensures
            r is Some <==> idx < chunk_count(self.size()),
            r matches Some(problem) ==> self.frames(idx as int, problem) && 1 <= problem.len <= 8,
    {
        match chunk_bounds(self.price.len(), idx) {
            None => None,
            Some((start, end)) => Some(
                LaneProblem {
                    option_dir: self.option_dir,
                    price: load_chunk(self.price, idx),
                    spot: load_chunk(self.spot, idx),
                    strike: load_chunk(self.strike, idx),
                    risk_free_rate: load_chunk(self.risk_free_rate, idx),
                    dividend_yield: load_chunk(self.dividend_yield, idx),
                    years_to_expiry: load_chunk(self.years_to_expiry, idx),
                    prev_implied_vol: match self.prev_implied_vol {
                        Some(p) => Some(load_chunk(p, idx)),
                        None => None,
                    },
                    max_iterations: self.max_iterations,
                    threshold: self.threshold,
                    len: end - start,
                },
            ),
        }
    }

    /// `lane` is what `solve_lane` gave for the lane of work of chunk
    /// `idx`.
    pub open spec fn solved<F: Fn(LaneProblem) -> Lane>(
        &self,
        solve_lane: F,
        idx: int,
        lane: Lane,
    ) -> bool {
        exists|problem: LaneProblem|
            self.frames(idx, problem) && call_ensures(solve_lane, (problem,), lane)
    }

    /// Solves the chunks one after the other, in chunk order: `solve_lane`
    /// is handed the lane of work of each chunk and gives its solved lane.
    pub fn solve_in_order<F: Fn(LaneProblem) -> Lane>(&self, solve_lane: F) -> (lanes: Vec<Lane>)
        requires
            forall|problem: LaneProblem| call_requires(solve_lane, (problem,)),
        ensures
            lanes@.len() == chunk_count(self.size()),
            forall|k: int| 0 <= k < lanes@.len() ==> #[trigger] self.solved(solve_lane, k, lanes@[k]),
    {
        let count: usize = self.chunks();
        let mut lanes: Vec<Lane> = Vec::new();
        let mut idx: usize = 0;
        while idx < count
            invariant
                idx <= count,
                count == chunk_count(self.size()),
                lanes@.len() == idx,
                forall|problem: LaneProblem| call_requires(solve_lane, (problem,)),
                forall|k: int|
                    0 <= k < lanes@.len() ==> #[trigger] self.solved(solve_lane, k, lanes@[k]),
            decreases count - idx,
        {
            match self.problem(idx) {
                None => {
                    assert(false);
                },
                Some(problem) => {
                    let lane = solve_lane(problem);
                    lanes.push(lane);
                    assert(self.frames(idx as int, problem) && call_ensures(
                        solve_lane,
                        (problem,),
                        lane,
                    ));
                    assert(self.solved(solve_lane, idx as int, lanes@[idx as int]));
                },
            }
            idx += 1;
        }
        lanes
    }

    /// A fresh output buffer: one zero per contract.
    pub fn blank(&self) -> (out: Vec<u32>)
        ensures
            out@ == Seq::new(self.size(), |i: int| VOL_FLOOR),
    {
        let n: usize = self.price.len();
        let mut out: Vec<u32> = Vec::new();
        let mut i: usize = 0;
        while i < n
            invariant
                i <= n,
                out@.len() == i,
                forall|j: int| 0 <= j < i ==> out@[j] == VOL_FLOOR,
            decreases n - i,
        {
            out.push(VOL_FLOOR);
            i += 1;
        }
        assert(out@ =~= Seq::new(self.size(), |i: int| VOL_FLOOR));
        out
    }

    /// Writes the solved lane of chunk `idx` into the chunk's segment of
    /// `out`. Nothing is written, and `false` returned, where the batch
    /// has no such chunk or `out` has not the batch's length.
    pub fn scatter(&self, out: &mut Vec<u32>, idx: usize, lane: &Lane) -> (written: bool)
        ensures
            written == (idx < chunk_count(self.size()) && old(out)@.len() == self.size()),
            final(out)@ == if written {
                scattered(old(out)@, self.price(), idx as int, lane@)
            } else {
                old(out)@
            },
    {
        if out.len() != self.price.len() {
            return false;
        }
        match chunk_bounds(self.price.len(), idx) {
            None => false,
            Some((start, end)) => {
                let mut i: usize = start;
                while i < end
                    invariant
                        start <= i <= end <= self.price@.len(),
                        start == idx * 8,
                        end - start <= 8,
                        out@.len() == self.price@.len(),
                        out@.len() == old(out)@.len(),
                        forall|j: int|
                            start <= j < i ==> out@[j] == settled(
                                self.price@[j],
                                lane@[j % 8],
                            ),
                        forall|j: int|
                            0 <= j < out@.len() && !(start <= j < i) ==> out@[j] == old(out)@[j],
                    decreases end - i,
                {
                    let v: u32 = settle(self.price[i], lane.bits[i - start]);
                    out.set(i, v);
                    i += 1;
                }
                assert(out@ =~= scattered(old(out)@, self.price(), idx as int, lane@));
                true
            },
        }
    }

    /// The batch's volatilities in input order, from one solved lane per
    /// chunk in chunk order; nothing where `lanes` has not one lane per
    /// chunk.
    pub fn assemble(&self, lanes: &[Lane]) -> (r: Option<Vec<u32>>)
        ensures
            r is Some <==> lanes@.len() == chunk_count(self.size()),
            r matches Some(vol) ==> vol@ == assembled(self.price(), lanes@),
    {
        let count: usize = count_chunks(self.price.len());
        if lanes.len() != count {
            return None;
        }
        let mut out: Vec<u32> = self.blank();
        let mut idx: usize = 0;
        while idx < count
            invariant
                idx <= count,
                count == chunk_count(self.price@.len()),
                lanes@.len() == count,
                out@.len() == self.price@.len(),
                forall|j: int|
                    0 <= j < out@.len() && j / 8 < idx ==> out@[j] == settled(
                        self.price@[j],
                        lanes@[j / 8]@[j % 8],
                    ),
            decreases count - idx,
        {
            let lane: &Lane = &lanes[idx];
            let written: bool = self.scatter(&mut out, idx, lane);
            assert(written);
            idx += 1;
        }
        assert(out@ =~= assembled(self.price(), lanes@));
        Some(out)
    }
}

/// Implied volatilities of a batch, one per contract and in input order.
///
/// The batch is validated first. A batch that is refused, or that is
/// empty, gives the empty result, and `solve` is not called. Otherwise
/// `solve` is handed the plan and solves its chunks, in any order or at
/// once, into one lane per chunk; contract `i` is then given what slot
/// `i % 8` of lane `i / 8` reports for its price. A `solve` that does not
/// hand back one lane per chunk gives the empty result.
pub fn implied_vol<'a, F>(
    option_dir: OptionDir,
    price: &'a [u32],
    spot: &'a [u32],
    strike: &'a [u32],
    risk_free_rate: &'a [u32],
    dividend_yield: &'a [u32],
    years_to_expiry: &'a [u32],
    max_iterations: i32,
    threshold: u32,
    prev_implied_vol: Option<&'a [u32]>,
    solve: F,
) -> (vol: Vec<u32>) where F: FnOnce(BatchPlan<'a>) -> Vec<Lane>
    requires
        forall|plan: BatchPlan<'a>|
            plan.describes(
                option_dir,
                price@,
                spot@,
                strike@,
                risk_free_rate@,
                dividend_yield@,
                years_to_expiry@,
                match prev_implied_vol {
                    Some(p) => Some(p@),
                    None => None,
                },
                max_iterations,
                threshold,
            ) ==> call_requires(solve, (plan,)),
    ensures
        checked(
            price@.len(),
            spot@.len(),
            strike@.len(),
            risk_free_rate@.len(),
            dividend_yield@.len(),
            years_to_expiry@.len(),
            prev_len(prev_implied_vol),
            max_iterations,
            threshold,
        ) is Err || price@.len() == 0 ==> vol@.len() == 0,
        checked(
            price@.len(),
            spot@.len(),
            strike@.len(),
            risk_free_rate@.len(),
            dividend_yield@.len(),
            years_to_expiry@.len(),
            prev_len(prev_implied_vol),
            max_iterations,
            threshold,
        ) is Ok && price@.len() > 0 ==> exists|plan: BatchPlan<'a>, lanes: Vec<Lane>|
            plan.describes(
                option_dir,
                price@,
                spot@,
                strike@,
                risk_free_rate@,
                dividend_yield@,
                years_to_expiry@,
                match prev_implied_vol {
                    Some(p) => Some(p@),
                    None => None,
                },
                max_iterations,
                threshold,
            ) && call_ensures(solve, (plan,), lanes) && vol@ == if lanes@.len() == chunk_count(
                price@.len(),
            ) {
                assembled(price@, lanes@)
            } else {
                Seq::<u32>::empty()
            },
        vol@.len() == 0 || vol@.len() == price@.len(),
        forall|i: int|
            0 <= i < vol@.len() && is_zero(price@[i]) ==> #[trigger] vol@[i] == VOL_FLOOR,
        forall|i: int| 0 <= i < vol@.len() ==> !less(#[trigger] vol@[i], VOL_FLOOR),
{
    match BatchPlan::new(
        option_dir,
        price,
        spot,
        strike,
        risk_free_rate,
        dividend_yield,
        years_to_expiry,
        prev_implied_vol,
        max_iterations,
        threshold,
    ) {
        Err(_) => Vec::new(),
        Ok(plan) => {
            if plan.len() == 0 {
                return Vec::new();
            }
            let lanes: Vec<Lane> = solve(plan);
            match plan.assemble(lanes.as_slice()) {
                Some(vol) => vol,
                None => Vec::new(),
            }
        },
    }
}

/// One matched pair of a call and a put on the same strike and expiry.
#[derive(Clone, Copy, Debug)]
pub struct ParityInput {
    pub call_price: u32,
    pub put_price: u32,
    pub spot: u32,
    pub strike: u32,
    pub years_to_expiry: u32,
}

/// Eight matched pairs, attribute by attribute.
#[derive(Clone, Copy, Debug)]
pub struct ParityLanes {
    pub call_price: Lane,
    pub put_price: Lane,
    pub spot: Lane,
    pub strike: Lane,
    pub years_to_expiry: Lane,
}

/// The work that one chunk of a parity batch makes.
#[derive(Debug)]
pub enum ParityChunk {
    /// A full chunk, for the lane-wide formula.
    Lanes(ParityLanes),
    /// A last chunk of fewer than eight pairs, for the formula pair by
    /// pair: padding such a chunk to a lane would feed zeros to a
    /// division.
    Scalars(Vec<ParityInput>),
}

/// The five arrays of a parity batch have one length.
pub open spec fn parity_lengths_agree(
    call_price: nat,
    put_price: nat,
    spot: nat,
    strike: nat,
    years_to_expiry: nat,
) -> bool {
    &&& call_price == put_price
    &&& put_price == spot
    &&& spot == strike
    &&& strike == years_to_expiry
}

/// A parity batch that passed validation.
#[derive(Clone, Copy, Debug)]
pub struct ParityPlan<'a> {
    call_price: &'a [u32],
    put_price: &'a [u32],
    spot: &'a [u32],
    strike: &'a [u32],
    years_to_expiry: &'a [u32],
}

impl<'a> ParityPlan<'a> {
    /// The call prices.
    pub closed spec fn call_price(&self) -> Seq<u32> {
        self.call_price@
    }

    /// The put prices.
    pub closed spec fn put_price(&self) -> Seq<u32> {
        self.put_price@
    }

    /// The spot prices.
    pub closed spec fn spot(&self) -> Seq<u32> {
        self.spot@
    }

    /// The strikes.
    pub closed spec fn strike(&self) -> Seq<u32> {
        self.strike@
    }

    /// The times to expiry, in years.
    pub closed spec fn years_to_expiry(&self) -> Seq<u32> {
        self.years_to_expiry@
    }

    /// Number of pairs.
    pub open spec fn size(&self) -> nat {
        self.call_price().len()
    }

    /// The plan is the one made from these inputs.
    pub open spec fn describes(
        &self,
        call_price: Seq<u32>,
        put_price: Seq<u32>,
        spot: Seq<u32>,
        strike: Seq<u32>,
        years_to_expiry: Seq<u32>,
    ) -> bool {
        &&& self.call_price() == call_price
        &&& self.put_price() == put_price
        &&& self.spot() == spot
        &&& self.strike() == strike
        &&& self.years_to_expiry() == years_to_expiry
    }

    /// Pair `i` of the batch.
    pub open spec fn pair(&self, i: int) -> ParityInput {
        ParityInput {
            call_price: self.call_price()[i],
            put_price: self.put_price()[i],
            spot: self.spot()[i],
            strike: self.strike()[i],
            years_to_expiry: self.years_to_expiry()[i],
        }
    }

    /// `chunk` is the work that chunk `idx` makes: lanes where the chunk
    /// holds eight pairs, else its pairs one by one and in order.
    pub open spec fn frames(&self, idx: int, chunk: ParityChunk) -> bool {
        match chunk {
            ParityChunk::Lanes(lanes) => {
                &&& chunk_end(self.size(), idx) - chunk_start(idx) == 8
                &&& lanes.call_price@ == chunk_lane(self.call_price(), idx)
                &&& lanes.put_price@ == chunk_lane(self.put_price(), idx)
                &&& lanes.spot@ == chunk_lane(self.spot(), idx)
                &&& lanes.strike@ == chunk_lane(self.strike(), idx)
                &&& lanes.years_to_expiry@ == chunk_lane(self.years_to_expiry(), idx)
            },
            ParityChunk::Scalars(pairs) => {
                &&& chunk_end(self.size(), idx) - chunk_start(idx) < 8
                &&& pairs@.len() == chunk_end(self.size(), idx) - chunk_start(idx)
                &&& forall|j: int|
                    0 <= j < pairs@.len() ==> #[trigger] pairs@[j] == self.pair(idx * 8 + j)
            },
        }
    }

    #[verifier::type_invariant]
    spec fn wf(&self) -> bool {
        parity_lengths_agree(
            self.call_price@.len(),
            self.put_price@.len(),
            self.spot@.len(),
            self.strike@.len(),
            self.years_to_expiry@.len(),
        )
    }

    /// Validates a parity batch and, where it passes, plans it: the five
    /// arrays must have one length.
    pub fn new(
        call_price: &'a [u32],
        put_price: &'a [u32],
        spot: &'a [u32],
        strike: &'a [u32],
        years_to_expiry: &'a [u32],
    ) -> (r: Result<ParityPlan<'a>, ValidationError>)
        ensures
            r is Ok <==> parity_lengths_agree(
                call_price@.len(),
                put_price@.len(),
                spot@.len(),
                strike@.len(),
                years_to_expiry@.len(),
            ),
            r matches Ok(plan) ==> plan.describes(
                call_price@,
                put_price@,
                spot@,
                strike@,
                years_to_expiry@,
            ),
            r matches Err(e) ==> e == ValidationError::LengthMismatch,
    {
        if call_price.len() == put_price.len() && put_price.len() == spot.len() && spot.len()
            == strike.len() && strike.len() == years_to_expiry.len() {
            Ok(ParityPlan { call_price, put_price, spot, strike, years_to_expiry })
        } else {
            Err(ValidationError::LengthMismatch)
        }
    }

    /// Number of pairs. All the plan's arrays have this length.
    pub fn len(&self) -> (n: usize)
        ensures
            n == self.size(),
            self.put_price().len() == n,
            self.spot().len() == n,
            self.strike().len() == n,
            self.years_to_expiry().len() == n,
    {
        proof {
            use_type_invariant(self);
        }
        self.call_price.len()
    }

    /// Number of chunks that the batch makes.
    pub fn chunks(&self) -> (count: usize)
        ensures
            count == chunk_count(self.size()),
    {
        count_chunks(self.call_price.len())
    }

    /// The work that chunk `idx` makes, or nothing where the batch has no
    /// such chunk.
    pub fn chunk(&self, idx: usize) -> (r: Option<ParityChunk>)
        ensures
            r is Some <==> idx < chunk_count(self.size()),
            r matches Some(chunk) ==> self.frames(idx as int, chunk),
    {
        proof {
            use_type_invariant(self);
        }
        match chunk_bounds(self.call_price.len(), idx) {
            None => None,
            Some((start, end)) => {
                if end - start < 8 {
                    let mut pairs: Vec<ParityInput> = Vec::new();
                    let mut i: usize = start;
                    while i < end
                        invariant
                            start <= i <= end <= self.call_price@.len(),
                            start == idx * 8,
                            self.wf(),
                            pairs@.len() == i - start,
                            forall|j: int|
                                0 <= j < pairs@.len() ==> #[trigger] pairs@[j] == self.pair(
                                    idx * 8 + j,
                                ),
                        decreases end - i,
                    {
                        pairs.push(
                            ParityInput {
                                call_price: self.call_price[i],
                                put_price: self.put_price[i],
                                spot: self.spot[i],
                                strike: self.strike[i],
                                years_to_expiry: self.years_to_expiry[i],
                            },
                        );
                        i += 1;
                    }
                    Some(ParityChunk::Scalars(pairs))
                } else {
                    Some(
                        ParityChunk::Lanes(
                            ParityLanes {
                                call_price: load_chunk(self.call_price, idx),
                                put_price: load_chunk(self.put_price, idx),
                                spot: load_chunk(self.spot, idx),
                                strike: load_chunk(self.strike, idx),
                                years_to_expiry: load_chunk(self.years_to_expiry, idx),
                            },
                        ),
                    )
                }
            },
        }
    }
}

/// The interest rate that put-call parity implies, averaged over a batch
/// of matched pairs.
///
/// A batch whose arrays differ in length, or that is empty, gives zero,
/// and `mean` is not called. Otherwise `mean` is handed the plan and
/// gives the mean of the rates over its chunks, which is returned as it
/// is.
pub fn parity_interest_rate<'a, F>(
    call_price: &'a [u32],
    put_price: &'a [u32],
    spot: &'a [u32],
    strike: &'a [u32],
    years_to_expiry: &'a [u32],
    mean: F,
) -> (rate: u32) where F: FnOnce(ParityPlan<'a>) -> u32
    requires
        forall|plan: ParityPlan<'a>|
            plan.describes(call_price@, put_price@, spot@, strike@, years_to_expiry@)
                ==> call_requires(mean, (plan,)),
    ensures
        !parity_lengths_agree(
            call_price@.len(),
            put_price@.len(),
            spot@.len(),
            strike@.len(),
            years_to_expiry@.len(),
        ) || call_price@.len() == 0 ==> rate == 0,
        parity_lengths_agree(
            call_price@.len(),
            put_price@.len(),
            spot@.len(),
            strike@.len(),
            years_to_expiry@.len(),
        ) && call_price@.len() > 0 ==> exists|plan: ParityPlan<'a>|
            plan.describes(call_price@, put_price@, spot@, strike@, years_to_expiry@)
                && call_ensures(mean, (plan,), rate),
{
    match ParityPlan::new(call_price, put_price, spot, strike, years_to_expiry) {
        Err(_) => 0,
        Ok(plan) => {
            if plan.len() == 0 {
                0
            } else {
                mean(plan)
            }
        },
    }
}

} // verus!
