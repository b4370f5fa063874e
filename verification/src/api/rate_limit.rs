//! Token buckets.
//!
//! A bucket fills at a fixed rate up to its capacity, and every request takes one
//! token out of it. Tokens are counted in grains: with a rate given in tokens per
//! minute, what flows in during any number of nanoseconds is then a whole number.

use vstd::prelude::*;

verus! {

/// Grains in a token: nanoseconds in a minute.
pub const TOKEN: u128 = 60_000_000_000;

/// What a bucket holds: its grains, when it was last filled, the grains that flow
/// in every nanosecond, and the grains that it has room for.
pub struct BucketModel {
    pub tokens: nat,
    pub last_refill: nat,
    pub rate: nat,
    pub capacity: nat,
}

/// A token bucket.
#[derive(Clone, Copy, Debug, PartialEq, Eq)]
pub struct TokenBucket {
    tokens: u128,
    last_refill: u64,
    rate: u64,
    capacity: u128,
}

impl View for TokenBucket {
    type V = BucketModel;

    closed spec fn view(&self) -> BucketModel {
        BucketModel {
            tokens: self.tokens as nat,
            last_refill: self.last_refill as nat,
            rate: self.rate as nat,
            capacity: self.capacity as nat,
        }
    }
}

/// A full bucket for `rate` tokens a minute and with room for `capacity` sixtieths
/// of a token.
pub open spec fn full_bucket(rate: u64, capacity: u64, now: u64) -> BucketModel {
    BucketModel {
        tokens: (capacity * 1_000_000_000) as nat,
        last_refill: now as nat,
        rate: rate as nat,
        capacity: (capacity * 1_000_000_000) as nat,
    }
}

/// The invariant of a bucket: it holds no more than it has room for.
pub open spec fn not_overfull(b: BucketModel) -> bool {
    b.tokens <= b.capacity
}

/// The time from the last filling to `now`, none where the clock ran backward.
pub open spec fn elapsed(b: BucketModel, now: nat) -> nat {
    if now > b.last_refill {
        (now - b.last_refill) as nat
    } else {
        0
    }
}

/// The grains in the bucket once it was filled at `now`.
pub open spec fn refilled(b: BucketModel, now: nat) -> nat {
    let tokens = b.tokens + elapsed(b, now) * b.rate;
    if tokens <= b.capacity {
        tokens
    } else {
        b.capacity
    }
}

/// Whether a request at `now` finds a token.
pub open spec fn grants(b: BucketModel, now: nat) -> bool {
    refilled(b, now) >= TOKEN
}

/// The bucket after a request at `now`.
pub open spec fn consumed(b: BucketModel, now: nat) -> BucketModel {
    BucketModel {
        tokens: if grants(b, now) {
            (refilled(b, now) - TOKEN) as nat
        } else {
            refilled(b, now)
        },
        last_refill: now,
        ..b
    }
}

impl TokenBucket {
    /// A full bucket for `rate` tokens a minute that holds the tokens of one second,
    /// but at least one.
    pub fn new(rate: u64, now: u64) -> (r: Self)
        ensures
            r@ == full_bucket(rate, if rate >= 60 { rate } else { 60 }, now),
            not_overfull(r@),
    {
        if rate >= 60 {
            Self::with_capacity(rate, rate, now)
        } else {
            Self::with_capacity(rate, 60, now)
        }
    }

    /// A full bucket for `rate` tokens a minute and with room for `capacity`
    /// sixtieths of a token.
    pub fn with_capacity(rate: u64, capacity: u64, now: u64) -> (r: Self)
        ensures
            r@ == full_bucket(rate, capacity, now),
            not_overfull(r@),
    {
        let grains: u128 = capacity as u128 * 1_000_000_000;
        TokenBucket { tokens: grains, last_refill: now, rate, capacity: grains }
    }

    /// Takes a token out of the bucket at the time `now`, in nanoseconds. Returns
    /// whether there was one.
    pub fn try_consume(&mut self, now: u64) -> (r: bool)
        ensures
            r == grants(old(self)@, now as nat),
            final(self)@ == consumed(old(self)@, now as nat),
            not_overfull(old(self)@) ==> not_overfull(final(self)@),
    {
        let elapsed: u64 = now.saturating_sub(self.last_refill);
        assert(0 <= elapsed * self.rate <= 0xFFFF_FFFF_FFFF_FFFF * 0xFFFF_FFFF_FFFF_FFFF)
            by (nonlinear_arith)
            requires
                0 <= elapsed <= 0xFFFF_FFFF_FFFF_FFFF,
                0 <= self.rate <= 0xFFFF_FFFF_FFFF_FFFF,
        ;
        let inflow: u128 = elapsed as u128 * self.rate as u128;
        let tokens: u128 = self.tokens.saturating_add(inflow);
        self.tokens = if tokens <= self.capacity {
            tokens
        } else {
            self.capacity
        };
        self.last_refill = now;
        if self.tokens >= TOKEN {
            self.tokens = self.tokens - TOKEN;
            true
        } else {
            false
        }
    }
}

/// The bucket after requests at the given times, and how many of them were granted.
pub open spec fn run(b: BucketModel, times: Seq<nat>) -> (BucketModel, nat)
    decreases times.len(),
{
    if times.len() == 0 {
        (b, 0)
    } else {
        let (before, granted) = run(b, times.drop_last());
        (
            consumed(before, times.last()),
            if grants(before, times.last()) {
                granted + 1
            } else {
                granted
            },
        )
    }
}

/// Whether times come one after the other, none before `start`.
pub open spec fn in_order(start: nat, times: Seq<nat>) -> bool {
    forall|i: int|
        0 <= i < times.len() ==> (if i == 0 {
            start
        } else {
            times[i - 1]
        }) <= #[trigger] times[i]
}

proof fn lemma_run(b: BucketModel, times: Seq<nat>)
    requires
        not_overfull(b),
        in_order(b.last_refill, times),
    ensures
        ({
            let (after, granted) = run(b, times);
            &&& not_overfull(after)
            &&& after.rate == b.rate
            &&& after.capacity == b.capacity
            &&& after.last_refill == if times.len() == 0 {
                b.last_refill
            } else {
                times.last()
            }
            &&& b.last_refill <= after.last_refill
            &&& granted * TOKEN + after.tokens <= b.tokens + (after.last_refill - b.last_refill)
                * b.rate
        }),
    decreases times.len(),
{
    if times.len() > 0 {
        let front = times.drop_last();
        let now = times.last();
        assert(in_order(b.last_refill, front)) by {
            assert forall|i: int| 0 <= i < front.len() implies (if i == 0 {
                b.last_refill
            } else {
                front[i - 1]
            }) <= #[trigger] front[i] by {
                assert(times[i] == front[i]);
            }
        }
        lemma_run(b, front);
        let (before, granted) = run(b, front);
        assert(before.last_refill <= now) by {
            assert(times[times.len() - 1] == now);
        }
        let gone = before.last_refill - b.last_refill;
        let more = now - before.last_refill;
        assert(gone * b.rate + more * b.rate == (now - b.last_refill) * b.rate)
            by (nonlinear_arith)
            requires
                gone + more == now - b.last_refill,
        ;
        assert(before.tokens + more * before.rate >= refilled(before, now));
        assert((granted + 1) * TOKEN == granted * TOKEN + TOKEN) by (nonlinear_arith);
    }
}

/// From any moment on, no more requests are granted than the bucket has room for
/// tokens, and those that flow in meanwhile.
pub proof fn law_grants_bounded(b: BucketModel, times: Seq<nat>)
    requires
        not_overfull(b),
        in_order(b.last_refill, times),
        times.len() > 0,
    ensures
        run(b, times).1 * TOKEN <= b.capacity + (times.last() - b.last_refill) * b.rate,
{
    lemma_run(b, times);
}

proof fn lemma_burst(b: BucketModel, times: Seq<nat>)
    requires
        b.tokens == b.capacity,
        times.len() * TOKEN <= b.capacity,
    ensures
        run(b, times).1 == times.len(),
        run(b, times).0.tokens >= b.capacity - times.len() * TOKEN,
        run(b, times).0.capacity == b.capacity,
    decreases times.len(),
{
    if times.len() > 0 {
        let front = times.drop_last();
        assert(times.len() * TOKEN == front.len() * TOKEN + TOKEN) by (nonlinear_arith)
            requires
                times.len() == front.len() + 1,
        ;
        lemma_burst(b, front);
        let before = run(b, front).0;
        assert(elapsed(before, times.last()) * before.rate >= 0) by (nonlinear_arith);
        assert(refilled(before, times.last()) >= TOKEN);
    }
}

/// A full bucket grants as many requests at once as it holds tokens.
pub proof fn law_full_bucket_burst(b: BucketModel, times: Seq<nat>)
    requires
        b.tokens == b.capacity,
        times.len() * TOKEN <= b.capacity,
    ensures
        run(b, times).1 == times.len(),
{
    lemma_burst(b, times);
}

/// A request is granted once a token has had time to flow in.
pub proof fn law_granted_after_pause(b: BucketModel, now: nat)
    requires
        elapsed(b, now) * b.rate >= TOKEN,
        b.capacity >= TOKEN,
    ensures
        grants(b, now),
{
}

/// Tokens are neither lost nor made. What is in the bucket after a request, and what
/// the request took, is what was in it and what flowed in since the last one, up to
/// what it has room for. A request is granted where that is a whole token.
pub proof fn law_tokens_conserved(b: BucketModel, now: nat)
    requires
        not_overfull(b),
        b.last_refill <= now,
    ensures
        ({
            let before = b.tokens + (now - b.last_refill) * b.rate;
            let after = consumed(b, now);
            let kept = after.tokens + if grants(b, now) {
                TOKEN as int
            } else {
                0
            };
            &&& before <= b.capacity ==> kept == before
            &&& before >= b.capacity ==> kept == b.capacity
            &&& grants(b, now) <==> before >= TOKEN && b.capacity >= TOKEN
            &&& after.last_refill == now
            &&& after.rate == b.rate
            &&& after.capacity == b.capacity
        }),
{
    assert((now - b.last_refill) * b.rate >= 0) by (nonlinear_arith)
        requires
            now >= b.last_refill,
            b.rate >= 0,
    ;
    if now == b.last_refill {
        assert((now - b.last_refill) * b.rate == 0) by (nonlinear_arith)
            requires
                now == b.last_refill,
        ;
        assert(0 * b.rate == 0) by (nonlinear_arith);
    }
}

/// Nothing flows in where the clock ran backward.
pub proof fn law_clock_backward(b: BucketModel, now: nat)
    requires
        not_overfull(b),
        now < b.last_refill,
    ensures
        consumed(b, now).tokens + (if grants(b, now) {
            TOKEN as int
        } else {
            0
        }) == b.tokens,
        grants(b, now) <==> b.tokens >= TOKEN,
        consumed(b, now).last_refill == now,
{
    assert(0 * b.rate == 0) by (nonlinear_arith);
}

proof fn lemma_front_in_order(start: nat, times: Seq<nat>)
    requires
        in_order(start, times),
        times.len() > 0,
    ensures
        in_order(start, times.drop_last()),
{
    let front = times.drop_last();
    assert forall|i: int| 0 <= i < front.len() implies (if i == 0 {
        start
    } else {
        front[i - 1]
    }) <= #[trigger] front[i] by {
        assert(times[i] == front[i]);
    }
}

/// As long as the bucket has room for all that flows in, every grain of it is there
/// afterwards or was granted.
pub proof fn law_nothing_lost(b: BucketModel, times: Seq<nat>)
    requires
        not_overfull(b),
        in_order(b.last_refill, times),
        times.len() > 0 ==> b.tokens + (times.last() - b.last_refill) * b.rate <= b.capacity,
    ensures
        ({
            let (after, granted) = run(b, times);
            let end = if times.len() == 0 {
                b.last_refill
            } else {
                times.last()
            };
            granted * TOKEN + after.tokens == b.tokens + (end - b.last_refill) * b.rate
        }),
    decreases times.len(),
{
    lemma_run(b, times);
    if times.len() > 0 {
        let front = times.drop_last();
        let now = times.last();
        lemma_front_in_order(b.last_refill, times);
        lemma_run(b, front);
        let (before, granted) = run(b, front);
        assert(before.last_refill <= now) by {
            assert(times[times.len() - 1] == now);
        }
        let gone = before.last_refill - b.last_refill;
        let more = now - before.last_refill;
        assert(gone * b.rate + more * b.rate == (now - b.last_refill) * b.rate)
            by (nonlinear_arith)
            requires
                gone + more == now - b.last_refill,
        ;
        assert(more * b.rate >= 0) by (nonlinear_arith)
            requires
                more >= 0,
                b.rate >= 0,
        ;
        assert(granted * TOKEN >= 0) by (nonlinear_arith)
            requires
                granted >= 0,
        ;
        law_nothing_lost(b, front);
        law_tokens_conserved(before, now);
        assert((granted + 1) * TOKEN == granted * TOKEN + TOKEN) by (nonlinear_arith);
    } else {
        assert(0 * b.rate == 0) by (nonlinear_arith);
        assert(0 * TOKEN == 0) by (nonlinear_arith);
    }
}

proof fn lemma_at_once(b: BucketModel, now: nat, times: Seq<nat>)
    requires
        not_overfull(b),
        b.last_refill <= now,
        forall|i: int| 0 <= i < times.len() ==> #[trigger] times[i] == now,
        times.len() * TOKEN <= b.tokens + (now - b.last_refill) * b.rate,
        times.len() * TOKEN <= b.capacity,
    ensures
        run(b, times).1 == times.len(),
        ({
            let all = b.tokens + (now - b.last_refill) * b.rate;
            let room = if all <= b.capacity {
                all
            } else {
                b.capacity as int
            };
            times.len() > 0 ==> {
                &&& run(b, times).0.tokens + times.len() * TOKEN == room
                &&& run(b, times).0.last_refill == now
                &&& run(b, times).0.capacity == b.capacity
                &&& run(b, times).0.rate == b.rate
            }
        }),
    decreases times.len(),
{
    if times.len() > 0 {
        let front = times.drop_last();
        assert(times.last() == now);
        assert(times.len() * TOKEN == front.len() * TOKEN + TOKEN) by (nonlinear_arith)
            requires
                times.len() == front.len() + 1,
        ;
        assert forall|i: int| 0 <= i < front.len() implies #[trigger] front[i] == now by {
            assert(times[i] == now);
        }
        lemma_at_once(b, now, front);
        let before = run(b, front).0;
        if front.len() == 0 {
            law_tokens_conserved(b, now);
            assert(0 * TOKEN == 0) by (nonlinear_arith);
        } else {
            assert((now - before.last_refill) * before.rate == 0) by (nonlinear_arith)
                requires
                    now == before.last_refill,
            ;
            assert(front.len() * TOKEN >= 0) by (nonlinear_arith)
                requires
                    front.len() >= 0,
            ;
            law_tokens_conserved(before, now);
        }
    }
}

/// After a pause, as many requests at once are granted as there are whole tokens in
/// the bucket with those that flowed in, as far as it has room for them.
pub proof fn law_burst_after_pause(b: BucketModel, now: nat, times: Seq<nat>)
    requires
        not_overfull(b),
        b.last_refill <= now,
        forall|i: int| 0 <= i < times.len() ==> #[trigger] times[i] == now,
        times.len() * TOKEN <= b.tokens + (now - b.last_refill) * b.rate,
        times.len() * TOKEN <= b.capacity,
    ensures
        run(b, times).1 == times.len(),
{
    lemma_at_once(b, now, times);
}

/// A new bucket for `rate` tokens a minute grants the requests of one second at once,
/// but at least one.
pub proof fn law_second_of_tokens(rate: u64, now: u64, times: Seq<nat>)
    requires
        forall|i: int| 0 <= i < times.len() ==> #[trigger] times[i] == now,
        60 * times.len() <= rate || times.len() <= 1,
    ensures
        run(full_bucket(rate, if rate >= 60 { rate } else { 60 }, now), times).1 == times.len(),
{
    let b = full_bucket(rate, if rate >= 60 { rate } else { 60 }, now);
    assert(times.len() * TOKEN == 60_000_000_000 * times.len()) by (nonlinear_arith);
    law_full_bucket_burst(b, times);
}

} // verus!
