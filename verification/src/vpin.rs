//! VPIN engine: signed trade volume is split across equal-volume buckets;
//! each completed bucket contributes the absolute buy/sell imbalance to a
//! rolling window, and the reading is the window sum over
//! `bucket_volume * window_size`. Volumes are exact integers in the
//! caller's volume unit, and the reading is returned as an exact
//! numerator/denominator pair.

use vstd::prelude::*;
use std::collections::VecDeque;

verus! {

#[derive(Debug, PartialEq, Eq, Structural)]
pub enum VpinError {
    /// The bucket volume must be at least one volume unit.
    NonPositiveBucketVolume,
    /// The rolling window must hold at least one bucket.
    ZeroWindow,
}

/// The sum of a sequence of imbalances.
pub open spec fn seq_sum(s: Seq<int>) -> int
    decreases s.len(),
{
    if s.len() == 0 {
        0
    } else {
        s[0] + seq_sum(s.subrange(1, s.len() as int))
    }
}

pub proof fn lemma_seq_sum_push(s: Seq<int>, x: int)
    ensures
        seq_sum(s.push(x)) == seq_sum(s) + x,
    decreases s.len(),
{
    if s.len() == 0 {
        assert(s.push(x)[0] == x);
        assert(s.push(x).subrange(1, 1) =~= Seq::<int>::empty());
        assert(seq_sum(s.push(x)) == x + seq_sum(Seq::<int>::empty()));
    } else {
        assert(s.push(x)[0] == s[0]);
        assert(s.push(x).subrange(1, s.len() as int + 1) =~= s.subrange(1, s.len() as int).push(
            x,
        ));
        lemma_seq_sum_push(s.subrange(1, s.len() as int), x);
    }
}

pub proof fn lemma_seq_sum_nonneg(s: Seq<int>)
    requires
        forall|i: int| 0 <= i < s.len() ==> s[i] >= 0,
    ensures
        seq_sum(s) >= 0,
    decreases s.len(),
{
    if s.len() > 0 {
        lemma_seq_sum_nonneg(s.subrange(1, s.len() as int));
    }
}

pub proof fn lemma_seq_sum_bound(s: Seq<int>, b: int)
    requires
        forall|i: int| 0 <= i < s.len() ==> s[i] <= b,
        b >= 0,
    ensures
        seq_sum(s) <= s.len() * b,
    decreases s.len(),
{
    if s.len() > 0 {
        lemma_seq_sum_bound(s.subrange(1, s.len() as int), b);
        assert(seq_sum(s) == s[0] + seq_sum(s.subrange(1, s.len() as int)));
        assert((s.len() - 1) * b + b == s.len() * b) by (nonlinear_arith);
    }
}

/// The mathematical state of the engine: the open bucket and the rolling
/// window of completed-bucket imbalances, plus the count of buckets
/// completed since the last reset.
#[verifier::ext_equal]
pub struct VpinState {
    pub filled: int,
    pub buy: int,
    pub sell: int,
    pub imbalances: Seq<int>,
    pub completed: int,
}

/// Closes the open bucket: its absolute imbalance enters the window, the
/// oldest entry leaves once the window is full, and the bucket restarts.
pub open spec fn vpin_finalize(s: VpinState, window: int) -> VpinState {
    let imb = if s.buy >= s.sell {
        s.buy - s.sell
    } else {
        s.sell - s.buy
    };
    let longer = s.imbalances.push(imb);
    let kept = if longer.len() > window {
        longer.subrange(1, longer.len() as int)
    } else {
        longer
    };
    VpinState { filled: 0, buy: 0, sell: 0, imbalances: kept, completed: s.completed + 1 }
}

/// Splits `remaining` volume units across buckets: each step takes what
/// fits in the open bucket and closes it when it becomes exactly full.
pub open spec fn vpin_consume(
    s: VpinState,
    is_buy: bool,
    remaining: int,
    bucket: int,
    window: int,
) -> VpinState
    decreases remaining,
{
    if remaining <= 0 || bucket <= 0 || s.filled < 0 || s.filled >= bucket {
        s
    } else {
        let space = bucket - s.filled;
        let take = if remaining < space {
            remaining
        } else {
            space
        };
        let s2 = VpinState {
            filled: s.filled + take,
            buy: s.buy + if is_buy {
                take
            } else {
                0
            },
            sell: s.sell + if is_buy {
                0
            } else {
                take
            },
            imbalances: s.imbalances,
            completed: s.completed,
        };
        let s3 = if s2.filled == bucket {
            vpin_finalize(s2, window)
        } else {
            s2
        };
        vpin_consume(s3, is_buy, remaining - take, bucket, window)
    }
}

/// One engine update: zero volume is skipped, any other volume is split
/// by its sign and magnitude.
pub open spec fn vpin_update(s: VpinState, v: i64, bucket: int, window: int) -> VpinState {
    if v == 0 {
        s
    } else {
        let a = if v > 0 {
            v as int
        } else {
            -(v as int)
        };
        vpin_consume(s, v > 0, a, bucket, window)
    }
}

/// A series of updates, applied in order.
pub open spec fn vpin_update_seq(s: VpinState, vols: Seq<i64>, bucket: int, window: int) -> VpinState
    decreases vols.len(),
{
    if vols.len() == 0 {
        s
    } else {
        vpin_update_seq(
            vpin_update(s, vols[0], bucket, window),
            vols.subrange(1, vols.len() as int),
            bucket,
            window,
        )
    }
}

/// The reading of a state: the window sum over
/// `bucket_volume * window_size`, available once the window is full.
pub open spec fn vpin_reading_of(s: VpinState, bucket: int, window: int) -> Option<(u128, u128)> {
    if s.imbalances.len() == window {
        Some((seq_sum(s.imbalances) as u128, (bucket * window) as u128))
    } else {
        None
    }
}

pub proof fn lemma_vpin_update_seq_push(
    s: VpinState,
    vols: Seq<i64>,
    v: i64,
    bucket: int,
    window: int,
)
    ensures
        vpin_update_seq(s, vols.push(v), bucket, window) == vpin_update(
            vpin_update_seq(s, vols, bucket, window),
            v,
            bucket,
            window,
        ),
    decreases vols.len(),
{
    let p = vols.push(v);
    if vols.len() == 0 {
        assert(p[0] == v);
        assert(p.subrange(1, 1) =~= Seq::<i64>::empty());
        assert(vpin_update_seq(s, p, bucket, window) == vpin_update_seq(
            vpin_update(s, p[0], bucket, window),
            p.subrange(1, 1),
            bucket,
            window,
        ));
    } else {
        let rest = vols.subrange(1, vols.len() as int);
        assert(p[0] == vols[0]);
        assert(p.subrange(1, vols.len() as int + 1) =~= rest.push(v));
        lemma_vpin_update_seq_push(vpin_update(s, vols[0], bucket, window), rest, v, bucket, window);
        assert(vpin_update_seq(s, p, bucket, window) == vpin_update_seq(
            vpin_update(s, p[0], bucket, window),
            p.subrange(1, vols.len() as int + 1),
            bucket,
            window,
        ));
        assert(vpin_update_seq(s, vols, bucket, window) == vpin_update_seq(
            vpin_update(s, vols[0], bucket, window),
            rest,
            bucket,
            window,
        ));
    }
}

/// Splitting a trade across buckets loses no volume: the open bucket plus
/// the completed buckets absorb exactly the trade's magnitude.
pub proof fn lemma_vpin_consume_conserves_volume(
    s: VpinState,
    is_buy: bool,
    remaining: int,
    bucket: int,
    window: int,
)
    requires
        remaining >= 0,
        bucket > 0,
        0 <= s.filled < bucket,
    ensures
        ({
            let t = vpin_consume(s, is_buy, remaining, bucket, window);
            t.filled + t.completed * bucket == s.filled + s.completed * bucket + remaining
        }),
    decreases remaining,
{
    if remaining > 0 {
        let space = bucket - s.filled;
        let take = if remaining < space {
            remaining
        } else {
            space
        };
        let s2 = VpinState {
            filled: s.filled + take,
            buy: s.buy + if is_buy {
                take
            } else {
                0
            },
            sell: s.sell + if is_buy {
                0
            } else {
                take
            },
            imbalances: s.imbalances,
            completed: s.completed,
        };
        let s3 = if s2.filled == bucket {
            vpin_finalize(s2, window)
        } else {
            s2
        };
        lemma_vpin_consume_conserves_volume(s3, is_buy, remaining - take, bucket, window);
        if s2.filled == bucket {
            assert(s3.completed * bucket == s2.completed * bucket + bucket) by (nonlinear_arith)
                requires
                    s3.completed == s2.completed + 1,
            ;
        }
    }
}

/// Volume conservation at the engine's boundary: an update absorbs
/// exactly the trade's magnitude into the open bucket and the completed
/// buckets.
pub proof fn lemma_update_conserves_volume(c: &RustVpinCalculator, v: i64)
    requires
        c.wf(),
    ensures
        ({
            let t = vpin_update(c@, v, c.spec_bucket_volume(), c.spec_window_size());
            let a = if v >= 0 {
                v as int
            } else {
                -(v as int)
            };
            t.filled + t.completed * c.spec_bucket_volume() == c@.filled + c@.completed
                * c.spec_bucket_volume() + a
        }),
{
    if v != 0 {
        lemma_vpin_consume_conserves_volume(
            c@,
            v > 0,
            if v >= 0 {
                v as int
            } else {
                -(v as int)
            },
            c.spec_bucket_volume(),
            c.spec_window_size(),
        );
    }
}

/// The reading stays absent until `window_size` buckets have been
/// completed, and is available from then on.
pub proof fn lemma_reading_after_window(c: &RustVpinCalculator)
    requires
        c.wf(),
    ensures
        c.spec_reading() is Some <==> c@.completed >= c.spec_window_size(),
{
}

/// Volume-bucket imbalance calculator with a rolling window mean.
pub struct RustVpinCalculator {
    bucket_volume: u64,
    window_size: usize,
    filled_volume: u64,
    buy_volume: u64,
    sell_volume: u64,
    imbalances: VecDeque<u64>,
    imbalance_sum: u128,
    completed: Ghost<int>,
}

impl View for RustVpinCalculator {
    type V = VpinState;

    closed spec fn view(&self) -> VpinState {
        VpinState {
            filled: self.filled_volume as int,
            buy: self.buy_volume as int,
            sell: self.sell_volume as int,
            imbalances: Seq::new(self.imbalances@.len(), |i: int| self.imbalances@[i] as int),
            completed: self.completed@,
        }
    }
}

impl RustVpinCalculator {
    /// The configured bucket volume.
    pub closed spec fn spec_bucket_volume(&self) -> int {
        self.bucket_volume as int
    }

    /// The configured window size.
    pub closed spec fn spec_window_size(&self) -> int {
        self.window_size as int
    }

    pub closed spec fn wf(&self) -> bool {
        &&& self.bucket_volume > 0
        &&& self.window_size > 0
        &&& self.buy_volume + self.sell_volume == self.filled_volume
        &&& self.filled_volume < self.bucket_volume
        &&& self.imbalances@.len() <= self.window_size
        &&& self.imbalance_sum == seq_sum(self@.imbalances)
        &&& forall|i: int|
            0 <= i < self.imbalances@.len() ==> #[trigger] self.imbalances@[i]
                <= self.bucket_volume
        &&& self.completed@ >= 0
        &&& self.imbalances@.len() as int == if self.completed@ >= self.window_size {
            self.window_size as int
        } else {
            self.completed@
        }
    }

    /// The current reading: the window sum over
    /// `bucket_volume * window_size`, available once the window is full.
    pub open spec fn spec_reading(&self) -> Option<(u128, u128)> {
        vpin_reading_of(self@, self.spec_bucket_volume(), self.spec_window_size())
    }

    /// A fresh engine. The bucket volume and the window must both be
    /// positive.
    pub fn new(bucket_volume: u64, window_size: usize) -> (r: Result<RustVpinCalculator, VpinError>)
        ensures
            match r {
                Ok(c) => {
                    &&& bucket_volume > 0
                    &&& window_size > 0
                    &&& c.wf()
                    &&& c.spec_bucket_volume() == bucket_volume
                    &&& c.spec_window_size() == window_size
                    &&& c@ == (VpinState {
                        filled: 0,
                        buy: 0,
                        sell: 0,
                        imbalances: Seq::<int>::empty(),
                        completed: 0,
                    })
                },
                Err(VpinError::NonPositiveBucketVolume) => bucket_volume == 0,
                Err(VpinError::ZeroWindow) => bucket_volume > 0 && window_size == 0,
            },
    {
        if bucket_volume == 0 {
            return Err(VpinError::NonPositiveBucketVolume);
        }
        if window_size == 0 {
            return Err(VpinError::ZeroWindow);
        }
        let c = RustVpinCalculator {
            bucket_volume,
            window_size,
            filled_volume: 0,
            buy_volume: 0,
            sell_volume: 0,
            imbalances: VecDeque::new(),
            imbalance_sum: 0,
            completed: Ghost(0),
        };
        proof {
            assert(c@.imbalances =~= Seq::<int>::empty());
        }
        Ok(c)
    }

    /// Forgets all buckets and the window, keeping the configuration.
    pub fn reset(&mut self)
        requires
            old(self).wf(),
        ensures
            final(self).wf(),
            final(self).spec_bucket_volume() == old(self).spec_bucket_volume(),
            final(self).spec_window_size() == old(self).spec_window_size(),
            final(self)@ == (VpinState {
                filled: 0,
                buy: 0,
                sell: 0,
                imbalances: Seq::<int>::empty(),
                completed: 0,
            }),
    {
        self.filled_volume = 0;
        self.buy_volume = 0;
        self.sell_volume = 0;
        self.imbalances.clear();
        self.imbalance_sum = 0;
        proof {
            self.completed@ = 0;
        }
        proof {
            assert(self@.imbalances =~= Seq::<int>::empty());
        }
    }

    /// Completed buckets currently in the window.
    pub fn buckets_ready(&self) -> (n: usize)
        ensures
            n == self@.imbalances.len(),
    {
        self.imbalances.len()
    }

    /// The configured bucket volume.
    pub fn bucket_volume(&self) -> (v: u64)
        ensures
            v == self.spec_bucket_volume(),
    {
        self.bucket_volume
    }

    fn current_vpin(&self) -> (r: Option<(u128, u128)>)
        requires
            self.wf(),
        ensures
            r == self.spec_reading(),
    {
        if self.imbalances.len() < self.window_size {
            return None;
        }
        proof {
            let b = self.bucket_volume as int;
            let w = self.window_size as int;
            assert(b * w < 0x100000000000000000000000000000000) by (nonlinear_arith)
                requires
                    0 <= b <= 0xFFFF_FFFF_FFFF_FFFF,
                    0 <= w <= 0xFFFF_FFFF_FFFF_FFFF,
            ;
        }
        let denom: u128 = (self.bucket_volume as u128) * (self.window_size as u128);
        Some((self.imbalance_sum, denom))
    }

    /// Closes the exactly-full open bucket.
    fn finalize_bucket(&mut self)
        requires
            old(self).bucket_volume > 0,
            old(self).window_size > 0,
            old(self).buy_volume + old(self).sell_volume == old(self).filled_volume,
            old(self).filled_volume == old(self).bucket_volume,
            old(self).imbalances@.len() <= old(self).window_size,
            old(self).imbalance_sum == seq_sum(old(self)@.imbalances),
            forall|i: int|
                0 <= i < old(self).imbalances@.len() ==> #[trigger] old(self).imbalances@[i]
                    <= old(self).bucket_volume,
            old(self).completed@ >= 0,
            old(self).imbalances@.len() as int == if old(self).completed@ >= old(
                self,
            ).window_size {
                old(self).window_size as int
            } else {
                old(self).completed@
            },
        ensures
            final(self).wf(),
            final(self).spec_bucket_volume() == old(self).spec_bucket_volume(),
            final(self).spec_window_size() == old(self).spec_window_size(),
            final(self)@ == vpin_finalize(old(self)@, old(self).spec_window_size()),
    {
        proof {
            let cnt = old(self)@.imbalances.len() as int;
            let w = old(self).window_size as int;
            let b = old(self).bucket_volume as int;
            lemma_seq_sum_nonneg(old(self)@.imbalances);
            lemma_seq_sum_bound(old(self)@.imbalances, b);
            assert(cnt * b <= w * b) by (nonlinear_arith)
                requires
                    cnt <= w,
                    b >= 0,
            ;
            assert((w + 1) * b < 0x100000000000000000000000000000000) by (nonlinear_arith)
                requires
                    w <= 0xFFFF_FFFF_FFFF_FFFF,
                    0 <= b <= 0xFFFF_FFFF_FFFF_FFFF,
            ;
            assert(w * b + b == (w + 1) * b) by (nonlinear_arith);
        }
        let imbalance: u64 = if self.buy_volume >= self.sell_volume {
            self.buy_volume - self.sell_volume
        } else {
            self.sell_volume - self.buy_volume
        };
        let ghost before_push = self@.imbalances;
        self.imbalances.push_back(imbalance);
        self.imbalance_sum = self.imbalance_sum + imbalance as u128;
        proof {
            assert(self@.imbalances =~= before_push.push(imbalance as int));
            lemma_seq_sum_push(before_push, imbalance as int);
        }
        if self.imbalances.len() > self.window_size {
            let ghost before_pop = self@.imbalances;
            let popped = self.imbalances.pop_front();
            match popped {
                Some(old_imb) => {
                    proof {
                        assert(self@.imbalances =~= before_pop.subrange(
                            1,
                            before_pop.len() as int,
                        ));
                        assert(seq_sum(before_pop) == before_pop[0] + seq_sum(self@.imbalances));
                        lemma_seq_sum_nonneg(self@.imbalances);
                    }
                    self.imbalance_sum = self.imbalance_sum - (old_imb as u128);
                },
                None => {
                    proof {
                        assert(false);
                    }
                },
            }
        }
        self.buy_volume = 0;
        self.sell_volume = 0;
        self.filled_volume = 0;
        proof {
            self.completed@ = self.completed@ + 1;
        }
        proof {
            assert(self@ =~~= vpin_finalize(old(self)@, old(self).spec_window_size()));
        }
    }

    /// Feeds one signed trade: positive volume buys, negative sells, zero
    /// is skipped. The magnitude is split across buckets without loss,
    /// and the reading is returned once the window is full.
    pub fn update_signed_volume(&mut self, signed_volume: i64) -> (r: Option<(u128, u128)>)
        requires
            old(self).wf(),
        ensures
            final(self).wf(),
            final(self).spec_bucket_volume() == old(self).spec_bucket_volume(),
            final(self).spec_window_size() == old(self).spec_window_size(),
            final(self)@ == vpin_update(
                old(self)@,
                signed_volume,
                old(self).spec_bucket_volume(),
                old(self).spec_window_size(),
            ),
            r == final(self).spec_reading(),
    {
        if signed_volume == 0 {
            return self.current_vpin();
        }
        let is_buy = signed_volume > 0;
        let mut remaining: u64 = if signed_volume >= 0 {
            signed_volume as u64
        } else {
            ((-(signed_volume as i128)) as u64)
        };
        let ghost total = remaining as int;
        let ghost bucket = self.spec_bucket_volume();
        let ghost window = self.spec_window_size();
        let ghost target = vpin_consume(old(self)@, is_buy, total, bucket, window);
        while remaining > 0
            invariant
                self.wf(),
                self.spec_bucket_volume() == bucket,
                self.spec_window_size() == window,
                target == vpin_consume(self@, is_buy, remaining as int, bucket, window),
            decreases remaining,
        {
            let space: u64 = self.bucket_volume - self.filled_volume;
            let take: u64 = if remaining < space {
                remaining
            } else {
                space
            };
            let ghost step_pre = self@;
            if is_buy {
                self.buy_volume = self.buy_volume + take;
            } else {
                self.sell_volume = self.sell_volume + take;
            }
            self.filled_volume = self.filled_volume + take;
            if self.filled_volume == self.bucket_volume {
                self.finalize_bucket();
            }
            remaining = remaining - take;
        }
        assert(self@ == target);
        self.current_vpin()
    }

    /// Feeds a series of signed trades, collecting the reading after each.
    pub fn update_signed_series(&mut self, signed_volumes: &Vec<i64>) -> (out: Vec<
        Option<(u128, u128)>,
    >)
        requires
            old(self).wf(),
        ensures
            final(self).wf(),
            final(self).spec_bucket_volume() == old(self).spec_bucket_volume(),
            final(self).spec_window_size() == old(self).spec_window_size(),
            out@.len() == signed_volumes@.len(),
            final(self)@ == vpin_update_seq(
                old(self)@,
                signed_volumes@,
                old(self).spec_bucket_volume(),
                old(self).spec_window_size(),
            ),
            forall|t: int|
                0 <= t < out@.len() ==> #[trigger] out@[t] == vpin_reading_of(
                    vpin_update_seq(
                        old(self)@,
                        signed_volumes@.subrange(0, t + 1),
                        old(self).spec_bucket_volume(),
                        old(self).spec_window_size(),
                    ),
                    old(self).spec_bucket_volume(),
                    old(self).spec_window_size(),
                ),
    {
        let ghost bucket = self.spec_bucket_volume();
        let ghost window = self.spec_window_size();
        proof {
            assert(signed_volumes@.subrange(0, 0) =~= Seq::<i64>::empty());
        }
        let mut out: Vec<Option<(u128, u128)>> = Vec::new();
        let mut i: usize = 0;
        while i < signed_volumes.len()
            invariant
                i <= signed_volumes@.len(),
                out@.len() == i,
                self.wf(),
                self.spec_bucket_volume() == bucket,
                self.spec_window_size() == window,
                old(self).spec_bucket_volume() == bucket,
                old(self).spec_window_size() == window,
                self@ == vpin_update_seq(
                    old(self)@,
                    signed_volumes@.subrange(0, i as int),
                    bucket,
                    window,
                ),
                forall|t: int|
                    0 <= t < i ==> #[trigger] out@[t] == vpin_reading_of(
                        vpin_update_seq(
                            old(self)@,
                            signed_volumes@.subrange(0, t + 1),
                            bucket,
                            window,
                        ),
                        bucket,
                        window,
                    ),
            decreases signed_volumes@.len() - i,
        {
            let ghost prefix = signed_volumes@.subrange(0, i as int);
            let r = self.update_signed_volume(signed_volumes[i]);
            out.push(r);
            proof {
                lemma_vpin_update_seq_push(
                    old(self)@,
                    prefix,
                    signed_volumes@[i as int],
                    bucket,
                    window,
                );
                assert(signed_volumes@.subrange(0, i + 1) =~= prefix.push(
                    signed_volumes@[i as int],
                ));
            }
            i += 1;
        }
        proof {
            assert(signed_volumes@.subrange(0, signed_volumes@.len() as int) =~= signed_volumes@);
        }
        out
    }
}

} // verus!
