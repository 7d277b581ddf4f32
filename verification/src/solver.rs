//! Control of the two root searches.
//!
//! The search for an implied volatility alternates arithmetic on
//! single-precision values, which the caller performs, with decisions on
//! what came out, which are made here: whether a lane has converged,
//! which bound of a bracket moves, when the iteration cap ends the search,
//! and what is reported for a contract in the end.

use vstd::prelude::*;
use crate::consts::{LANES, VOL_CEILING, VOL_FLOOR};
use crate::ieee::{is_zero, le, less, less_eq, lt, magnitude, zero, SIGN};
use crate::lane::Lane;

verus! {

/// The root search that a lane is solved with.
#[derive(PartialEq, Eq, Debug, Copy, Clone, Structural)]
pub enum Strategy {
    /// Halving a bracket; needs no first guess and always ends inside the
    /// search domain.
    Bisection,
    /// Newton-Raphson steps from an earlier volatility.
    Newton,
}

/// The search to use: Newton-Raphson where an earlier volatility is at
/// hand, bisection where none is.
pub fn select_strategy(warm_start: bool) -> (s: Strategy)
    ensures
        s == if warm_start { Strategy::Newton } else { Strategy::Bisection },
{
    if warm_start {
        Strategy::Newton
    } else {
        Strategy::Bisection
    }
}

/// The volatility reported for a contract with target `price`, given the
/// search's `estimate`: zero for a price of zero and for a negative
/// estimate, else the estimate as it is.
pub open spec fn settled(price: u32, estimate: u32) -> u32 {
    if is_zero(price) || less(estimate, VOL_FLOOR) {
        VOL_FLOOR
    } else {
        estimate
    }
}

/// `settled`, slot by slot.
pub open spec fn settled_lane(price: Seq<u32>, estimate: Seq<u32>) -> Seq<u32> {
    Seq::new(LANES as nat, |i: int| settled(price[i], estimate[i]))
}

/// The volatility reported for one contract.
pub fn settle(price: u32, estimate: u32) -> (vol: u32)
    ensures
        vol == settled(price, estimate),
        is_zero(price) ==> vol == VOL_FLOOR,
        !less(vol, VOL_FLOOR),
{
    if zero(price) || lt(estimate, VOL_FLOOR) {
        VOL_FLOOR
    } else {
        estimate
    }
}

/// The volatilities reported for a lane.
pub fn settle_lane(price: &Lane, estimate: &Lane) -> (vol: Lane)
    ensures
        vol@ == settled_lane(price@, estimate@),
{
    let mut bits: [u32; 8] = [0u32; 8];
    let mut i: usize = 0;
    while i < 8
        invariant
            i <= 8,
            forall|j: int| 0 <= j < i ==> bits@[j] == settled(price@[j], estimate@[j]),
        decreases 8 - i,
    {
        bits[i] = settle(price.bits[i], estimate.bits[i]);
        i += 1;
    }
    let vol = Lane { bits };
    assert(vol@ =~= settled_lane(price@, estimate@));
    vol
}

/// Each of the first `active` slots of `residual` is, in absolute value,
/// less than `threshold`.
pub open spec fn within(residual: Seq<u32>, threshold: u32, active: nat) -> bool {
    forall|i: int|
        0 <= i < residual.len() && i < active ==> less(
            magnitude(#[trigger] residual[i]),
            threshold,
        )
}

/// Tests whether a lane has converged as a whole: each of its first
/// `active` slots, those that hold a contract, has a residual that is,
/// in absolute value, less than `threshold`. A residual that is not a
/// number has not converged. The slots behind them are padding and do not
/// count.
pub fn converged(residual: &Lane, threshold: u32, active: usize) -> (done: bool)
    ensures
        done == within(residual@, threshold, active as nat),
{
    let mut i: usize = 0;
    while i < 8 && i < active
        invariant
            i <= 8,
            residual@.len() == 8,
            forall|j: int| 0 <= j < i ==> less(magnitude(#[trigger] residual@[j]), threshold),
        decreases 8 - i,
    {
        let b: u32 = residual.bits[i];
        let m: u32 = if b >= SIGN { b - SIGN } else { b };
        if !lt(m, threshold) {
            return false;
        }
        i += 1;
    }
    true
}

/// Evaluations that a search under the cap `max_iterations` may make: two
/// more than the cap, and one under a negative cap.
pub open spec fn allowed(max_iterations: int) -> nat {
    if max_iterations < 0 {
        1
    } else {
        (max_iterations + 2) as nat
    }
}

/// `after` is `before` with one more evaluation paid for, and `proceed`
/// says whether the search may go on: it may where `before` allows it,
/// and then one more step is spent; else the search is stopped.
pub open spec fn spent(before: Budget, after: Budget, proceed: bool) -> bool {
    &&& proceed == before.may_proceed()
    &&& after.max_iterations() == before.max_iterations()
    &&& after.stopped() == !proceed
    &&& after.steps() == if proceed { before.steps() + 1 } else { before.steps() }
}

/// Each evaluation that is paid for counts the budget down by one, the
/// search goes on exactly while more than one is left, and it is stopped
/// with none left: so a search makes no more evaluations than its cap
/// allows.
pub proof fn lemma_spent_counts_down(before: Budget, after: Budget, proceed: bool)
    requires
        spent(before, after, proceed),
    ensures
        proceed == (before.remaining() > 1),
        after.remaining() == if proceed { before.remaining() - 1 } else { 0 },
{
}

/// The iteration cap of one search.
///
/// A search evaluates, then spends one step. It may go on while the steps
/// spent before do not exceed `max_iterations`; once it has been told to
/// stop it stays stopped.
#[derive(Clone, Copy, Debug)]
pub struct Budget {
    steps: u32,
    max_iterations: i32,
    stopped: bool,
}

impl Budget {
    /// Steps spent so far.
    pub closed spec fn steps(&self) -> nat {
        self.steps as nat
    }

    /// The cap that the budget was made with.
    pub closed spec fn max_iterations(&self) -> int {
        self.max_iterations as int
    }

    /// The search has been told to stop.
    pub closed spec fn stopped(&self) -> bool {
        self.stopped
    }

    /// No more steps were spent than the cap allows.
    #[verifier::type_invariant]
    spec fn wf(&self) -> bool {
        self.steps <= 0 || self.steps <= self.max_iterations + 1
    }

    /// The search may go on after the evaluation that it is about to pay
    /// for: it was not stopped, and the steps spent before do not exceed
    /// the cap.
    pub open spec fn may_proceed(&self) -> bool {
        !self.stopped() && self.steps() <= self.max_iterations()
    }

    /// Evaluations that the search may still make: none once stopped,
    /// else one more than the steps that the cap still allows.
    pub open spec fn remaining(&self) -> nat {
        if self.stopped() {
            0
        } else if self.steps() > self.max_iterations() {
            1
        } else {
            (self.max_iterations() - self.steps() + 2) as nat
        }
    }

    /// A fresh budget under the cap `max_iterations`.
    pub fn new(max_iterations: i32) -> (b: Budget)
        ensures
            b.steps() == 0,
            b.max_iterations() == max_iterations,
            !b.stopped(),
            b.remaining() == allowed(max_iterations as int),
    {
        Budget { steps: 0, max_iterations, stopped: false }
    }

    /// Tests whether the search has been told to stop.
    pub fn is_stopped(&self) -> (r: bool)
        ensures
            r == self.stopped(),
    {
        self.stopped
    }

    /// Steps spent so far.
    pub fn steps_spent(&self) -> (n: u32)
        ensures
            n == self.steps(),
    {
        self.steps
    }

    /// Spends one step after an evaluation and says whether the search
    /// goes on: it does while it was not stopped and the steps spent
    /// before this one do not exceed the cap.
    pub fn spend(&mut self) -> (proceed: bool)
        ensures
            spent(*old(self), *final(self), proceed),
    {
        proof {
            use_type_invariant(&*self);
        }
        if self.stopped {
            return false;
        }
        if self.steps as i64 > self.max_iterations as i64 {
            self.stopped = true;
            false
        } else {
            self.steps = self.steps + 1;
            true
        }
    }
}

/// The midpoint `mid` can replace a bound of the bracket from `low` to
/// `high`: it is a number that lies between the two.
pub open spec fn usable(low: u32, high: u32, mid: u32) -> bool {
    less_eq(low, mid) && less_eq(mid, high)
}

/// The lower bound after the model gave `value` at `mid`: it moves up to
/// `mid` where the value does not exceed `target`.
pub open spec fn raised_low(low: u32, high: u32, mid: u32, value: u32, target: u32) -> u32 {
    if usable(low, high, mid) && less_eq(value, target) {
        mid
    } else {
        low
    }
}

/// The upper bound after the model gave `value` at `mid`: it moves down
/// to `mid` where the value exceeds `target`, and also where value and
/// target cannot be compared because one of them is not a number.
pub open spec fn lowered_high(low: u32, high: u32, mid: u32, value: u32, target: u32) -> u32 {
    if usable(low, high, mid) && !less_eq(value, target) {
        mid
    } else {
        high
    }
}

/// The bounds `low` and `high` form a bracket inside the search domain:
/// 0% does not exceed `low`, `low` does not exceed `high`, and `high` does
/// not exceed 500%.
pub open spec fn in_domain(low: u32, high: u32) -> bool {
    less_eq(VOL_FLOOR, low) && less_eq(low, high) && less_eq(high, VOL_CEILING)
}

/// Each slot holds a bracket inside the search domain.
pub open spec fn bracketed(low: Seq<u32>, high: Seq<u32>) -> bool {
    &&& low.len() == LANES
    &&& high.len() == LANES
    &&& forall|i: int| 0 <= i < LANES ==> #[trigger] in_domain(low[i], high[i])
}

/// What a bisection reports for one slot: the midpoint where it is usable,
/// else the lower bound, and zero for a target price of zero.
pub open spec fn bisected(low: u32, high: u32, mid: u32, target: u32) -> u32 {
    settled(target, if usable(low, high, mid) { mid } else { low })
}

/// One bisection step on a single bracket: the bounds after the model
/// gave `value` at `mid`.
pub fn bisect_step(low: u32, high: u32, mid: u32, value: u32, target: u32) -> (next: (u32, u32))
    ensures
        next.0 == raised_low(low, high, mid, value, target),
        next.1 == lowered_high(low, high, mid, value, target),
{
    if le(low, mid) && le(mid, high) {
        if le(value, target) {
            (mid, high)
        } else {
            (low, mid)
        }
    } else {
        (low, high)
    }
}

/// What a bisection reports for a single bracket with midpoint `mid`.
pub fn bisect_estimate(low: u32, high: u32, mid: u32, target: u32) -> (vol: u32)
    ensures
        vol == bisected(low, high, mid, target),
{
    let pick: u32 = if le(low, mid) && le(mid, high) {
        mid
    } else {
        low
    };
    settle(target, pick)
}

/// State of a bisection over one lane: a bracket per slot and the budget.
#[derive(Clone, Copy, Debug)]
pub struct Bisection {
    low: Lane,
    high: Lane,
    budget: Budget,
    threshold: u32,
    active: usize,
}

impl Bisection {
    /// The lower bounds.
    pub closed spec fn low_bits(&self) -> Seq<u32> {
        self.low@
    }

    /// The upper bounds.
    pub closed spec fn high_bits(&self) -> Seq<u32> {
        self.high@
    }

    /// The budget.
    pub closed spec fn budget(&self) -> Budget {
        self.budget
    }

    /// The width below which a bracket counts as converged.
    pub closed spec fn threshold(&self) -> u32 {
        self.threshold
    }

    /// Number of slots, from slot 0, that hold a contract.
    pub closed spec fn active(&self) -> nat {
        self.active as nat
    }

    #[verifier::type_invariant]
    spec fn wf(&self) -> bool {
        bracketed(self.low@, self.high@)
    }

    /// A search for a lane whose first `active` slots hold a contract. It
    /// starts on the whole domain, 0% to 500%, in every slot.
    pub fn new(max_iterations: i32, threshold: u32, active: usize) -> (s: Bisection)
        ensures
            s.low_bits() == Seq::new(LANES as nat, |i: int| VOL_FLOOR),
            s.high_bits() == Seq::new(LANES as nat, |i: int| VOL_CEILING),
            s.threshold() == threshold,
            s.active() == active,
            s.budget().steps() == 0,
            s.budget().max_iterations() == max_iterations,
            !s.budget().stopped(),
    {
        Bisection {
            low: Lane::splat(VOL_FLOOR),
            high: Lane::splat(VOL_CEILING),
            budget: Budget::new(max_iterations),
            threshold,
            active,
        }
    }

    /// The lower bounds. In every state that a search can reach the
    /// brackets are ordered and lie inside the search domain.
    pub fn low(&self) -> (lane: Lane)
        ensures
            lane@ == self.low_bits(),
            bracketed(self.low_bits(), self.high_bits()),
    {
        proof {
            use_type_invariant(self);
        }
        self.low
    }

    /// The upper bounds.
    pub fn high(&self) -> (lane: Lane)
        ensures
            lane@ == self.high_bits(),
            bracketed(self.low_bits(), self.high_bits()),
    {
        proof {
            use_type_invariant(self);
        }
        self.high
    }

    /// Tests whether the search has been told to stop.
    pub fn is_stopped(&self) -> (r: bool)
        ensures
            r == self.budget().stopped(),
    {
        self.budget.is_stopped()
    }

    /// Tests whether the lane has converged, given `width`, the upper
    /// bounds minus the lower bounds: the bracket of every contract is
    /// narrower than the threshold.
    pub fn is_converged(&self, width: &Lane) -> (done: bool)
        ensures
            done == within(width@, self.threshold(), self.active()),
    {
        converged(width, self.threshold, self.active)
    }

    /// Takes in one evaluation: the model gave `value` at the midpoints
    /// `mid`, and the prices to reach are `target`. In each slot one bound
    /// moves to the midpoint; then a step is spent. A search that was
    /// stopped before stays as it is.
    pub fn advance(&mut self, mid: &Lane, value: &Lane, target: &Lane) -> (proceed: bool)
        ensures
            bracketed(final(self).low_bits(), final(self).high_bits()),
            final(self).threshold() == old(self).threshold(),
            final(self).active() == old(self).active(),
            spent(old(self).budget(), final(self).budget(), proceed),
            old(self).budget().stopped() ==> final(self).low_bits() == old(self).low_bits()
                && final(self).high_bits() == old(self).high_bits(),
            !old(self).budget().stopped() ==> final(self).low_bits() == Seq::new(
                LANES as nat,
                |i: int|
                    raised_low(
                        old(self).low_bits()[i],
                        old(self).high_bits()[i],
                        mid@[i],
                        value@[i],
                        target@[i],
                    ),
            ),
            !old(self).budget().stopped() ==> final(self).high_bits() == Seq::new(
                LANES as nat,
                |i: int|
                    lowered_high(
                        old(self).low_bits()[i],
                        old(self).high_bits()[i],
                        mid@[i],
                        value@[i],
                        target@[i],
                    ),
            ),
    {
        proof {
            use_type_invariant(&*self);
        }
        if self.budget.is_stopped() {
            return false;
        }
        let mut low: [u32; 8] = self.low.bits;
        let mut high: [u32; 8] = self.high.bits;
        let mut i: usize = 0;
        while i < 8
            invariant
                i <= 8,
                bracketed(self.low@, self.high@),
                forall|j: int|
                    0 <= j < i ==> low@[j] == raised_low(
                        self.low@[j],
                        self.high@[j],
                        mid@[j],
                        value@[j],
                        target@[j],
                    ),
                forall|j: int|
                    0 <= j < i ==> high@[j] == lowered_high(
                        self.low@[j],
                        self.high@[j],
                        mid@[j],
                        value@[j],
                        target@[j],
                    ),
                forall|j: int| i <= j < 8 ==> low@[j] == self.low@[j] && high@[j] == self.high@[j],
            decreases 8 - i,
        {
            let next: (u32, u32) = bisect_step(
                low[i],
                high[i],
                mid.bits[i],
                value.bits[i],
                target.bits[i],
            );
            low[i] = next.0;
            high[i] = next.1;
            i += 1;
        }
        proof {
            assert(bracketed(low@, high@)) by {
                assert forall|j: int| 0 <= j < LANES implies #[trigger] in_domain(
                    low@[j],
                    high@[j],
                ) by {
                    assert(in_domain(self.low@[j], self.high@[j]));
                }
            }
        }
        let ghost before = *self;
        let mut budget = self.budget;
        let proceed = budget.spend();
        *self = Bisection {
            low: Lane { bits: low },
            high: Lane { bits: high },
            budget,
            threshold: self.threshold,
            active: self.active,
        };
        proof {
            assert(self.low@ =~= Seq::new(
                LANES as nat,
                |i: int|
                    raised_low(before.low@[i], before.high@[i], mid@[i], value@[i], target@[i]),
            ));
            assert(self.high@ =~= Seq::new(
                LANES as nat,
                |i: int|
                    lowered_high(before.low@[i], before.high@[i], mid@[i], value@[i], target@[i]),
            ));
        }
        proceed
    }

    /// The volatilities that the search reports, given the midpoints `mid`
    /// of its brackets and the prices to reach.
    pub fn estimate(&self, mid: &Lane, target: &Lane) -> (vol: Lane)
        ensures
            vol@ == Seq::new(
                LANES as nat,
                |i: int| bisected(self.low_bits()[i], self.high_bits()[i], mid@[i], target@[i]),
            ),
            forall|i: int|
                0 <= i < LANES ==> less_eq(VOL_FLOOR, #[trigger] vol@[i]) && less_eq(
                    vol@[i],
                    VOL_CEILING,
                ),
            forall|i: int|
                0 <= i < LANES && is_zero(target@[i]) ==> #[trigger] vol@[i] == VOL_FLOOR,
    {
        proof {
            use_type_invariant(self);
        }
        let mut bits: [u32; 8] = [0u32; 8];
        let mut i: usize = 0;
        while i < 8
            invariant
                i <= 8,
                bracketed(self.low@, self.high@),
                forall|j: int|
                    0 <= j < i ==> bits@[j] == bisected(
                        self.low@[j],
                        self.high@[j],
                        mid@[j],
                        target@[j],
                    ),
            decreases 8 - i,
        {
            bits[i] = bisect_estimate(
                self.low.bits[i],
                self.high.bits[i],
                mid.bits[i],
                target.bits[i],
            );
            i += 1;
        }
        let vol = Lane { bits };
        proof {
            assert(vol@ =~= Seq::new(
                LANES as nat,
                |i: int| bisected(self.low@[i], self.high@[i], mid@[i], target@[i]),
            ));
            assert forall|i: int| 0 <= i < LANES implies less_eq(VOL_FLOOR, #[trigger] vol@[i])
                && less_eq(vol@[i], VOL_CEILING) by {
                assert(in_domain(self.low@[i], self.high@[i]));
            }
        }
        vol
    }
}

/// The evaluation at `mid` agrees with a root at `root`: where the
/// midpoint can replace a bound, one whose value does not exceed the
/// target lies at or below the root, and any other at or above it. A
/// model whose price is a number and does not fall as the volatility
/// rises agrees at every midpoint with the largest volatility at which
/// its price does not exceed the target.
pub open spec fn agrees(low: u32, high: u32, mid: u32, value: u32, target: u32, root: u32) -> bool {
    usable(low, high, mid) ==> if less_eq(value, target) {
        less_eq(mid, root)
    } else {
        less_eq(root, mid)
    }
}

/// A bracket keeps what it encloses: where `root` lies between the bounds
/// and the evaluation at `mid` agrees with it, `root` lies between the
/// bounds after the step too.
pub proof fn lemma_bracket_keeps_root(
    low: u32,
    high: u32,
    mid: u32,
    value: u32,
    target: u32,
    root: u32,
)
    requires
        less_eq(low, root),
        less_eq(root, high),
        agrees(low, high, mid, value, target, root),
    ensures
        less_eq(raised_low(low, high, mid, value, target), root),
        less_eq(root, lowered_high(low, high, mid, value, target)),
{
}

/// What a bisection reports for a price other than zero lies inside the
/// closing bracket, together with any root that the bracket has kept.
pub proof fn lemma_report_in_bracket(low: u32, high: u32, mid: u32, target: u32)
    requires
        in_domain(low, high),
        !is_zero(target),
    ensures
        less_eq(low, bisected(low, high, mid, target)),
        less_eq(bisected(low, high, mid, target), high),
{
}

/// A step keeps a bracket ordered and inside the search domain, whatever
/// midpoint and value it is given.
pub proof fn lemma_step_keeps_bracket(low: u32, high: u32, mid: u32, value: u32, target: u32)
    requires
        in_domain(low, high),
    ensures
        in_domain(
            raised_low(low, high, mid, value, target),
            lowered_high(low, high, mid, value, target),
        ),
{
}

/// What a search reports is never negative, and is zero for a target
/// price of zero, whatever the estimate.
pub proof fn lemma_settled_floor(price: u32, estimate: u32)
    ensures
        !less(settled(price, estimate), VOL_FLOOR),
        is_zero(price) ==> settled(price, estimate) == VOL_FLOOR,
        settled(price, settled(price, estimate)) == settled(price, estimate),
{
}

/// State of a Newton-Raphson search over one lane: the current estimate
/// per slot and the budget.
#[derive(Clone, Copy, Debug)]
pub struct Newton {
    estimate: Lane,
    budget: Budget,
    threshold: u32,
    active: usize,
}

impl Newton {
    /// The current estimates.
    pub closed spec fn estimate_bits(&self) -> Seq<u32> {
        self.estimate@
    }

    /// The budget.
    pub closed spec fn budget(&self) -> Budget {
        self.budget
    }

    /// The residual below which a slot counts as converged.
    pub closed spec fn threshold(&self) -> u32 {
        self.threshold
    }

    /// Number of slots, from slot 0, that hold a contract.
    pub closed spec fn active(&self) -> nat {
        self.active as nat
    }

    /// A search for a lane whose first `active` slots hold a contract. It
    /// starts from the volatilities `warm_start`.
    pub fn new(warm_start: &Lane, max_iterations: i32, threshold: u32, active: usize) -> (s:
        Newton)
        ensures
            s.estimate_bits() == warm_start@,
            s.threshold() == threshold,
            s.active() == active,
            s.budget().steps() == 0,
            s.budget().max_iterations() == max_iterations,
            !s.budget().stopped(),
    {
        Newton { estimate: *warm_start, budget: Budget::new(max_iterations), threshold, active }
    }

    /// The current estimates.
    pub fn current(&self) -> (lane: Lane)
        ensures
            lane@ == self.estimate_bits(),
    {
        self.estimate
    }

    /// Tests whether the search has been told to stop.
    pub fn is_stopped(&self) -> (r: bool)
        ensures
            r == self.budget().stopped(),
    {
        self.budget.is_stopped()
    }

    /// Tests whether the lane has converged, given `diff`, the model's
    /// prices at the current estimates minus the prices to reach: the
    /// residual of every contract is, in absolute value, less than the
    /// threshold.
    pub fn is_converged(&self, diff: &Lane) -> (done: bool)
        ensures
            done == within(diff@, self.threshold(), self.active()),
    {
        converged(diff, self.threshold, self.active)
    }

    /// Takes in one Newton step: `next` replaces the estimates, then a
    /// step is spent. A search that was stopped before stays as it is.
    pub fn advance(&mut self, next: &Lane) -> (proceed: bool)
        ensures
            final(self).threshold() == old(self).threshold(),
            final(self).active() == old(self).active(),
            spent(old(self).budget(), final(self).budget(), proceed),
            final(self).estimate_bits() == if old(self).budget().stopped() {
                old(self).estimate_bits()
            } else {
                next@
            },
    {
        if self.budget.is_stopped() {
            return false;
        }
        self.estimate = *next;
        self.budget.spend()
    }

    /// The volatilities that the search reports for the prices to reach:
    /// the estimates, with zero in place of a negative one and for a
    /// target price of zero.
    pub fn result(&self, target: &Lane) -> (vol: Lane)
        ensures
            vol@ == settled_lane(target@, self.estimate_bits()),
    {
        settle_lane(target, &self.estimate)
    }
}

/// One round of a bisection: the brackets that it started from, what the
/// arithmetic made of them, and the model's value at the midpoints.
pub struct Round {
    pub low: Lane,
    pub high: Lane,
    pub width: Lane,
    pub mid: Lane,
    pub value: Lane,
}

/// The lower and upper bounds that a bisection for the prices `target`
/// holds after `rounds`: the whole domain before the first, and after
/// each round the step that its midpoints and values make.
pub open spec fn brackets_after(rounds: Seq<Round>, target: Seq<u32>) -> (Seq<u32>, Seq<u32>)
    decreases rounds.len(),
{
    if rounds.len() == 0 {
        (Seq::new(LANES as nat, |i: int| VOL_FLOOR), Seq::new(LANES as nat, |i: int| VOL_CEILING))
    } else {
        let before = brackets_after(rounds.drop_last(), target);
        let r = rounds.last();
        (
            Seq::new(
                LANES as nat,
                |i: int| raised_low(before.0[i], before.1[i], r.mid@[i], r.value@[i], target[i]),
            ),
            Seq::new(
                LANES as nat,
                |i: int| lowered_high(before.0[i], before.1[i], r.mid@[i], r.value@[i], target[i]),
            ),
        )
    }
}

/// A search keeps a root that lies in the search domain: where every
/// evaluation of slot `i` agrees with `root`, the bracket of that slot
/// encloses `root` after any number of rounds.
pub proof fn lemma_search_keeps_root(rounds: Seq<Round>, target: Seq<u32>, root: u32, i: int)
    requires
        0 <= i < LANES,
        less_eq(VOL_FLOOR, root),
        less_eq(root, VOL_CEILING),
        forall|k: int|
            0 <= k < rounds.len() ==> agrees(
                brackets_after(rounds.take(k), target).0[i],
                brackets_after(rounds.take(k), target).1[i],
                (#[trigger] rounds[k]).mid@[i],
                rounds[k].value@[i],
                target[i],
                root,
            ),
    ensures
        less_eq(brackets_after(rounds, target).0[i], root),
        less_eq(root, brackets_after(rounds, target).1[i]),
    decreases rounds.len(),
{
    if rounds.len() > 0 {
        let shorter = rounds.drop_last();
        assert forall|k: int| 0 <= k < shorter.len() implies agrees(
            brackets_after(shorter.take(k), target).0[i],
            brackets_after(shorter.take(k), target).1[i],
            (#[trigger] shorter[k]).mid@[i],
            shorter[k].value@[i],
            target[i],
            root,
        ) by {
            assert(shorter.take(k) =~= rounds.take(k));
            assert(shorter[k] == rounds[k]);
        }
        lemma_search_keeps_root(shorter, target, root, i);
        let before = brackets_after(shorter, target);
        let last = rounds[rounds.len() - 1];
        assert(rounds.take(rounds.len() - 1) =~= shorter);
        lemma_bracket_keeps_root(
            before.0[i],
            before.1[i],
            last.mid@[i],
            last.value@[i],
            target[i],
            root,
        );
    }
}

/// Round `k` of `rounds` is a round of the search: it started from the
/// brackets that the rounds before it left, `span` gave its widths and
/// midpoints for those brackets, the lane had not converged, and
/// `value_at` gave its values at its midpoints.
pub open spec fn round_follows<S: Fn(Lane, Lane) -> (Lane, Lane), V: Fn(Lane) -> Lane>(
    span: S,
    value_at: V,
    rounds: Seq<Round>,
    k: int,
    target: Seq<u32>,
    threshold: u32,
    active: nat,
) -> bool {
    let r = rounds[k];
    let before = brackets_after(rounds.take(k), target);
    &&& r.low@ == before.0
    &&& r.high@ == before.1
    &&& call_ensures(span, (r.low, r.high), (r.width, r.mid))
    &&& !within(r.width@, threshold, active)
    &&& call_ensures(value_at, (r.mid,), r.value)
}

/// `vol` is what a bisection reports after `rounds` and the closing look
/// `last` at its brackets, of which only widths and midpoints count: every
/// round was a round of the search; the search ended because the lane had
/// converged or because the cap allowed no further round; and each slot
/// reports the closing midpoint of its bracket.
pub open spec fn bisection_ran<S: Fn(Lane, Lane) -> (Lane, Lane), V: Fn(Lane) -> Lane>(
    span: S,
    value_at: V,
    rounds: Seq<Round>,
    last: Round,
    target: Seq<u32>,
    max_iterations: i32,
    threshold: u32,
    active: nat,
    vol: Seq<u32>,
) -> bool {
    &&& rounds.len() <= allowed(max_iterations as int)
    &&& forall|k: int|
        0 <= k < rounds.len() ==> #[trigger] round_follows(
            span,
            value_at,
            rounds,
            k,
            target,
            threshold,
            active,
        )
    &&& last.low@ == brackets_after(rounds, target).0
    &&& last.high@ == brackets_after(rounds, target).1
    &&& call_ensures(span, (last.low, last.high), (last.width, last.mid))
    &&& within(last.width@, threshold, active) || rounds.len() == allowed(max_iterations as int)
    &&& vol == Seq::new(
        LANES as nat,
        |i: int| bisected(last.low@[i], last.high@[i], last.mid@[i], target[i]),
    )
}

/// Searches one lane for the volatilities that reproduce the prices
/// `target`, by bisection.
///
/// The arithmetic is the caller's: `span` gives, for lower and upper
/// bounds, the widths (upper minus lower) and the midpoints of the
/// brackets, and `value_at` gives the model's prices at a lane of
/// volatilities. Each round looks at the brackets, ends the search where
/// every contract's bracket is narrower than `threshold`, else values the
/// midpoints, moves one bound per slot and pays for the evaluation; the
/// search also ends when the cap allows no further round. The report is
/// the closing midpoint of each bracket, and zero for a price of zero.
pub fn bisect<S: Fn(Lane, Lane) -> (Lane, Lane), V: Fn(Lane) -> Lane>(
    target: &Lane,
    max_iterations: i32,
    threshold: u32,
    active: usize,
    span: S,
    value_at: V,
) -> (vol: Lane)
    requires
        forall|low: Lane, high: Lane| call_requires(span, (low, high)),
        forall|mid: Lane| call_requires(value_at, (mid,)),
    ensures
        exists|rounds: Seq<Round>, last: Round|
            bisection_ran(
                span,
                value_at,
                rounds,
                last,
                target@,
                max_iterations,
                threshold,
                active as nat,
                vol@,
            ),
        forall|i: int|
            0 <= i < LANES ==> less_eq(VOL_FLOOR, #[trigger] vol@[i]) && less_eq(
                vol@[i],
                VOL_CEILING,
            ),
        forall|i: int| 0 <= i < LANES && is_zero(target@[i]) ==> #[trigger] vol@[i] == VOL_FLOOR,
{
    let mut search = Bisection::new(max_iterations, threshold, active);
    let ghost mut rounds: Seq<Round> = Seq::empty();
    loop
        invariant
            forall|low: Lane, high: Lane| call_requires(span, (low, high)),
            forall|mid: Lane| call_requires(value_at, (mid,)),
            search.threshold() == threshold,
            search.active() == active,
            search.budget().max_iterations() == max_iterations,
            !search.budget().stopped(),
            rounds.len() + search.budget().remaining() == allowed(max_iterations as int),
            search.budget().remaining() >= 1,
            search.low_bits() == brackets_after(rounds, target@).0,
            search.high_bits() == brackets_after(rounds, target@).1,
            forall|k: int|
                0 <= k < rounds.len() ==> #[trigger] round_follows(
                    span,
                    value_at,
                    rounds,
                    k,
                    target@,
                    threshold,
                    active as nat,
                ),
        decreases search.budget().remaining(),
    {
        let low = search.low();
        let high = search.high();
        let (width, mid) = span(low, high);
        if search.is_converged(&width) {
            let vol = search.estimate(&mid, target);
            proof {
                let last = Round { low, high, width, mid, value: mid };
                assert(bisection_ran(
                    span,
                    value_at,
                    rounds,
                    last,
                    target@,
                    max_iterations,
                    threshold,
                    active as nat,
                    vol@,
                ));
            }
            return vol;
        }
        let value = value_at(mid);
        let ghost before = search;
        let proceed = search.advance(&mid, &value, target);
        proof {
            lemma_spent_counts_down(before.budget(), search.budget(), proceed);
            let round = Round { low, high, width, mid, value };
            let longer = rounds.push(round);
            assert(longer.drop_last() =~= rounds);
            assert(longer.take(rounds.len() as int) =~= rounds);
            assert(search.low_bits() =~= brackets_after(longer, target@).0);
            assert(search.high_bits() =~= brackets_after(longer, target@).1);
            assert forall|k: int| 0 <= k < longer.len() implies #[trigger] round_follows(
                span,
                value_at,
                longer,
                k,
                target@,
                threshold,
                active as nat,
            ) by {
                if k < rounds.len() {
                    assert(longer.take(k) =~= rounds.take(k));
                    assert(round_follows(
                        span,
                        value_at,
                        rounds,
                        k,
                        target@,
                        threshold,
                        active as nat,
                    ));
                }
            }
            rounds = longer;
        }
        if !proceed {
            let low = search.low();
            let high = search.high();
            let (width, mid) = span(low, high);
            let vol = search.estimate(&mid, target);
            proof {
                let last = Round { low, high, width, mid, value: mid };
                assert(bisection_ran(
                    span,
                    value_at,
                    rounds,
                    last,
                    target@,
                    max_iterations,
                    threshold,
                    active as nat,
                    vol@,
                ));
            }
            return vol;
        }
    }
}

/// One round of a Newton-Raphson search: the estimates that it started
/// from, the model's prices at them minus the prices to reach, and the
/// estimates that the step gave.
pub struct NewtonRound {
    pub estimate: Lane,
    pub diff: Lane,
    pub next: Lane,
}

/// The estimates that a search from `warm_start` holds after `rounds`.
pub open spec fn estimates_after(rounds: Seq<NewtonRound>, warm_start: Seq<u32>) -> Seq<u32> {
    if rounds.len() == 0 {
        warm_start
    } else {
        rounds.last().next@
    }
}

/// Round `k` of `rounds` is a round of the search: it started from the
/// estimates that the rounds before it left, `diff_at` gave its residuals
/// at them, the lane had not converged, and `step_from` gave its next
/// estimates.
pub open spec fn newton_round_follows<D: Fn(Lane) -> Lane, N: Fn(Lane, Lane) -> Lane>(
    diff_at: D,
    step_from: N,
    rounds: Seq<NewtonRound>,
    k: int,
    warm_start: Seq<u32>,
    threshold: u32,
    active: nat,
) -> bool {
    let r = rounds[k];
    &&& r.estimate@ == estimates_after(rounds.take(k), warm_start)
    &&& call_ensures(diff_at, (r.estimate,), r.diff)
    &&& !within(r.diff@, threshold, active)
    &&& call_ensures(step_from, (r.estimate, r.diff), r.next)
}

/// `vol` is what a Newton-Raphson search reports after `rounds` and the
/// closing look `last`, of which only estimates and residuals count:
/// every round was a round of the search; the search ended because the
/// lane had converged at the closing estimates or because the cap allowed
/// no further round; and each slot reports its closing estimate, with
/// zero in place of a negative one and for a price of zero.
pub open spec fn newton_ran<D: Fn(Lane) -> Lane, N: Fn(Lane, Lane) -> Lane>(
    diff_at: D,
    step_from: N,
    rounds: Seq<NewtonRound>,
    last: NewtonRound,
    target: Seq<u32>,
    warm_start: Seq<u32>,
    max_iterations: i32,
    threshold: u32,
    active: nat,
    vol: Seq<u32>,
) -> bool {
    &&& rounds.len() <= allowed(max_iterations as int)
    &&& forall|k: int|
        0 <= k < rounds.len() ==> #[trigger] newton_round_follows(
            diff_at,
            step_from,
            rounds,
            k,
            warm_start,
            threshold,
            active,
        )
    &&& last.estimate@ == estimates_after(rounds, warm_start)
    &&& (call_ensures(diff_at, (last.estimate,), last.diff) && within(
        last.diff@,
        threshold,
        active,
    )) || rounds.len() == allowed(max_iterations as int)
    &&& vol == settled_lane(target, last.estimate@)
}

/// Searches one lane for the volatilities that reproduce the prices
/// `target`, by Newton-Raphson steps from `warm_start`.
///
/// The arithmetic is the caller's: `diff_at` gives the model's prices at
/// a lane of volatilities minus the prices to reach, and `step_from`
/// gives, for estimates and their residuals, the next estimates. Each
/// round takes the residuals, ends the search where every contract's
/// residual is, in absolute value, less than `threshold`, else takes the
/// step and pays for the evaluation; the search also ends when the cap
/// allows no further round. The report is the closing estimate of each
/// slot, with zero in place of a negative one and for a price of zero.
pub fn newton<D: Fn(Lane) -> Lane, N: Fn(Lane, Lane) -> Lane>(
    target: &Lane,
    warm_start: &Lane,
    max_iterations: i32,
    threshold: u32,
    active: usize,
    diff_at: D,
    step_from: N,
) -> (vol: Lane)
    requires
        forall|estimate: Lane| call_requires(diff_at, (estimate,)),
        forall|estimate: Lane, diff: Lane| call_requires(step_from, (estimate, diff)),
    ensures
        exists|rounds: Seq<NewtonRound>, last: NewtonRound|
            newton_ran(
                diff_at,
                step_from,
                rounds,
                last,
                target@,
                warm_start@,
                max_iterations,
                threshold,
                active as nat,
                vol@,
            ),
        forall|i: int| 0 <= i < LANES ==> !less(#[trigger] vol@[i], VOL_FLOOR),
        forall|i: int| 0 <= i < LANES && is_zero(target@[i]) ==> #[trigger] vol@[i] == VOL_FLOOR,
{
    let mut search = Newton::new(warm_start, max_iterations, threshold, active);
    let ghost mut rounds: Seq<NewtonRound> = Seq::empty();
    loop
        invariant
            forall|estimate: Lane| call_requires(diff_at, (estimate,)),
            forall|estimate: Lane, diff: Lane| call_requires(step_from, (estimate, diff)),
            search.threshold() == threshold,
            search.active() == active,
            search.budget().max_iterations() == max_iterations,
            !search.budget().stopped(),
            rounds.len() + search.budget().remaining() == allowed(max_iterations as int),
            search.budget().remaining() >= 1,
            search.estimate_bits() == estimates_after(rounds, warm_start@),
            forall|k: int|
                0 <= k < rounds.len() ==> #[trigger] newton_round_follows(
                    diff_at,
                    step_from,
                    rounds,
                    k,
                    warm_start@,
                    threshold,
                    active as nat,
                ),
        decreases search.budget().remaining(),
    {
        let estimate = search.current();
        let diff = diff_at(estimate);
        if search.is_converged(&diff) {
            let vol = search.result(target);
            proof {
                let last = NewtonRound { estimate, diff, next: estimate };
                assert(newton_ran(
                    diff_at,
                    step_from,
                    rounds,
                    last,
                    target@,
                    warm_start@,
                    max_iterations,
                    threshold,
                    active as nat,
                    vol@,
                ));
            }
            return vol;
        }
        let next = step_from(estimate, diff);
        let ghost before = search;
        let proceed = search.advance(&next);
        proof {
            lemma_spent_counts_down(before.budget(), search.budget(), proceed);
            let longer = rounds.push(NewtonRound { estimate, diff, next });
            assert(longer.take(rounds.len() as int) =~= rounds);
            assert forall|k: int| 0 <= k < longer.len() implies #[trigger] newton_round_follows(
                diff_at,
                step_from,
                longer,
                k,
                warm_start@,
                threshold,
                active as nat,
            ) by {
                if k < rounds.len() {
                    assert(longer.take(k) =~= rounds.take(k));
                    assert(newton_round_follows(
                        diff_at,
                        step_from,
                        rounds,
                        k,
                        warm_start@,
                        threshold,
                        active as nat,
                    ));
                }
            }
            rounds = longer;
        }
        if !proceed {
            let closing = search.current();
            let vol = search.result(target);
            proof {
                let last = NewtonRound { estimate: closing, diff, next };
                assert(newton_ran(
                    diff_at,
                    step_from,
                    rounds,
                    last,
                    target@,
                    warm_start@,
                    max_iterations,
                    threshold,
                    active as nat,
                    vol@,
                ));
            }
            return vol;
        }
    }
}

} // verus!
