//! Hawkes self-exciting intensity engine over fixed-point arithmetic.
//! Intensities and decay factors are scaled by `FIXED_ONE`. The engine
//! keeps the last intensity and event timestamp; each event first decays
//! the excess over the baseline by a factor `decay` in `[0, 1]` (computed
//! outside as `exp(-beta * dt)` and handed in as a fixed-point fraction),
//! then adds `alpha`. Timestamps must be non-decreasing.

use vstd::prelude::*;
use vstd::arithmetic::div_mod::lemma_div_multiples_vanish;

verus! {

/// The fixed-point scale: one intensity unit, one full decay.
pub const FIXED_ONE: u64 = 1_000_000_000_000;

#[derive(Debug, PartialEq, Eq, Structural)]
pub enum HawkesError {
    /// `beta` must be positive for the decay to be defined.
    NonPositiveBeta,
    /// Events must arrive with non-decreasing timestamps.
    OutOfOrderTimestamp,
}

/// The mathematical state of the engine: the parameters that shape each
/// event, the last intensity and the last event timestamp.
#[verifier::ext_equal]
pub struct HawkesState {
    pub baseline: int,
    pub alpha: int,
    pub last_intensity: int,
    pub last_timestamp: Option<u64>,
}

/// The decayed intensity: the excess over the baseline shrunk by
/// `decay / FIXED_ONE`.
pub open spec fn hawkes_decayed(s: HawkesState, decay: u64) -> int {
    s.baseline + ((s.last_intensity - s.baseline) * decay) / (FIXED_ONE as int)
}

/// The intensity right after an event: the decayed value plus `alpha`,
/// saturating at the integer ceiling.
pub open spec fn hawkes_excited(s: HawkesState, decay: u64) -> int {
    if hawkes_decayed(s, decay) + s.alpha <= u64::MAX {
        hawkes_decayed(s, decay) + s.alpha
    } else {
        u64::MAX as int
    }
}

/// An event is admitted when its timestamp does not move backwards.
pub open spec fn hawkes_event_ok(s: HawkesState, timestamp: u64) -> bool {
    match s.last_timestamp {
        Some(t0) => timestamp >= t0,
        None => true,
    }
}

/// The intensity an admitted event produces: before any event the
/// baseline plus `alpha`; afterwards the decayed-then-excited value,
/// with a repeated timestamp applying no decay.
pub open spec fn hawkes_event_intensity(s: HawkesState, timestamp: u64, decay: u64) -> int {
    match s.last_timestamp {
        Some(t0) => hawkes_excited(
            s,
            if timestamp == t0 {
                FIXED_ONE
            } else {
                decay
            },
        ),
        None => if s.baseline + s.alpha <= u64::MAX {
            s.baseline + s.alpha
        } else {
            u64::MAX as int
        },
    }
}

/// One engine step: an admitted event stores its intensity and
/// timestamp; a rejected event changes nothing.
pub open spec fn hawkes_step(s: HawkesState, timestamp: u64, decay: u64) -> HawkesState {
    if hawkes_event_ok(s, timestamp) {
        HawkesState {
            baseline: s.baseline,
            alpha: s.alpha,
            last_intensity: hawkes_event_intensity(s, timestamp, decay),
            last_timestamp: Some(timestamp),
        }
    } else {
        s
    }
}

/// A series of events, applied in order.
pub open spec fn hawkes_steps(s: HawkesState, events: Seq<(u64, u64)>) -> HawkesState
    decreases events.len(),
{
    if events.len() == 0 {
        s
    } else {
        hawkes_steps(
            hawkes_step(s, events[0].0, events[0].1),
            events.subrange(1, events.len() as int),
        )
    }
}

/// Whether every event of a series is admitted in turn.
pub open spec fn hawkes_steps_ok(s: HawkesState, events: Seq<(u64, u64)>) -> bool
    decreases events.len(),
{
    if events.len() == 0 {
        true
    } else {
        hawkes_event_ok(s, events[0].0) && hawkes_steps_ok(
            hawkes_step(s, events[0].0, events[0].1),
            events.subrange(1, events.len() as int),
        )
    }
}

pub proof fn lemma_hawkes_steps_push(s: HawkesState, events: Seq<(u64, u64)>, x: (u64, u64))
    ensures
        hawkes_steps(s, events.push(x)) == hawkes_step(hawkes_steps(s, events), x.0, x.1),
        hawkes_steps_ok(s, events.push(x)) <==> (hawkes_steps_ok(s, events) && hawkes_event_ok(
            hawkes_steps(s, events),
            x.0,
        )),
    decreases events.len(),
{
    let p = events.push(x);
    if events.len() == 0 {
        assert(p[0] == x);
        assert(p.subrange(1, 1) =~= Seq::<(u64, u64)>::empty());
        assert(hawkes_steps(s, events) == s);
        assert(hawkes_steps(s, p) == hawkes_steps(
            hawkes_step(s, p[0].0, p[0].1),
            p.subrange(1, 1),
        ));
        assert(hawkes_steps_ok(s, p) == (hawkes_event_ok(s, p[0].0) && hawkes_steps_ok(
            hawkes_step(s, p[0].0, p[0].1),
            p.subrange(1, 1),
        )));
    } else {
        let rest = events.subrange(1, events.len() as int);
        assert(p[0] == events[0]);
        assert(p.subrange(1, events.len() as int + 1) =~= rest.push(x));
        lemma_hawkes_steps_push(hawkes_step(s, events[0].0, events[0].1), rest, x);
        assert(hawkes_steps(s, p) == hawkes_steps(
            hawkes_step(s, p[0].0, p[0].1),
            p.subrange(1, events.len() as int + 1),
        ));
        assert(hawkes_steps(s, events) == hawkes_steps(
            hawkes_step(s, events[0].0, events[0].1),
            rest,
        ));
        assert(hawkes_steps_ok(s, p) == (hawkes_event_ok(s, p[0].0) && hawkes_steps_ok(
            hawkes_step(s, p[0].0, p[0].1),
            p.subrange(1, events.len() as int + 1),
        )));
        assert(hawkes_steps_ok(s, events) == (hawkes_event_ok(s, events[0].0) && hawkes_steps_ok(
            hawkes_step(s, events[0].0, events[0].1),
            rest,
        )));
    }
}

/// In an everywhere-admitted series, each event is admitted by the state
/// the preceding prefix produced.
pub proof fn lemma_hawkes_steps_ok_prefix(s: HawkesState, events: Seq<(u64, u64)>, k: int)
    requires
        hawkes_steps_ok(s, events),
        0 <= k < events.len(),
    ensures
        hawkes_event_ok(hawkes_steps(s, events.subrange(0, k)), events[k].0),
    decreases k,
{
    if k == 0 {
        assert(events.subrange(0, 0) =~= Seq::<(u64, u64)>::empty());
    } else {
        let s2 = hawkes_step(s, events[0].0, events[0].1);
        let rest = events.subrange(1, events.len() as int);
        lemma_hawkes_steps_ok_prefix(s2, rest, k - 1);
        assert(rest.subrange(0, k - 1) =~= events.subrange(0, k).subrange(1, k));
        assert(events.subrange(0, k)[0] == events[0]);
        assert(rest[k - 1] == events[k]);
    }
}

/// Self-exciting point-process intensity with exponential decay.
pub struct RustHawkesIntensity {
    baseline: u64,
    alpha: u64,
    beta: u64,
    last_intensity: u64,
    last_timestamp: Option<u64>,
}

impl View for RustHawkesIntensity {
    type V = HawkesState;

    closed spec fn view(&self) -> HawkesState {
        HawkesState {
            baseline: self.baseline as int,
            alpha: self.alpha as int,
            last_intensity: self.last_intensity as int,
            last_timestamp: self.last_timestamp,
        }
    }
}

impl RustHawkesIntensity {
    pub closed spec fn spec_baseline(&self) -> u64 {
        self.baseline
    }

    pub closed spec fn spec_alpha(&self) -> u64 {
        self.alpha
    }

    pub closed spec fn spec_beta(&self) -> u64 {
        self.beta
    }

    pub closed spec fn spec_last_intensity(&self) -> u64 {
        self.last_intensity
    }

    pub closed spec fn spec_last_timestamp(&self) -> Option<u64> {
        self.last_timestamp
    }

    /// The intensity never falls below the baseline.
    pub closed spec fn wf(&self) -> bool {
        &&& self.beta > 0
        &&& self.last_intensity >= self.baseline
    }

    /// The decayed intensity after applying a decay factor of
    /// `decay / FIXED_ONE` to the excess over the baseline.
    pub open spec fn spec_decayed(&self, decay: u64) -> int {
        hawkes_decayed(self@, decay)
    }

    /// The intensity after one event: the decayed value plus `alpha`,
    /// saturating at the integer ceiling.
    pub open spec fn spec_excited(&self, decay: u64) -> int {
        hawkes_excited(self@, decay)
    }

    /// A fresh engine at the baseline intensity, with no event seen.
    pub fn new(baseline: u64, alpha: u64, beta: u64) -> (r: Result<
        RustHawkesIntensity,
        HawkesError,
    >)
        ensures
            match r {
                Ok(h) => {
                    &&& beta > 0
                    &&& h.wf()
                    &&& h.spec_baseline() == baseline
                    &&& h.spec_alpha() == alpha
                    &&& h.spec_beta() == beta
                    &&& h.spec_last_intensity() == baseline
                    &&& h.spec_last_timestamp() is None
                },
                Err(e) => {
                    &&& e == HawkesError::NonPositiveBeta
                    &&& beta == 0
                },
            },
    {
        if beta == 0 {
            return Err(HawkesError::NonPositiveBeta);
        }
        Ok(
            RustHawkesIntensity {
                baseline,
                alpha,
                beta,
                last_intensity: baseline,
                last_timestamp: None,
            },
        )
    }

    /// Forgets all events, keeping the parameters.
    pub fn reset(&mut self)
        requires
            old(self).wf(),
        ensures
            final(self).wf(),
            final(self).spec_baseline() == old(self).spec_baseline(),
            final(self).spec_alpha() == old(self).spec_alpha(),
            final(self).spec_beta() == old(self).spec_beta(),
            final(self).spec_last_intensity() == old(self).spec_baseline(),
            final(self).spec_last_timestamp() is None,
    {
        self.last_intensity = self.baseline;
        self.last_timestamp = None;
    }

    /// The intensity right after the last event (the baseline before any
    /// event).
    pub fn current_intensity(&self) -> (r: u64)
        ensures
            r == self.spec_last_intensity(),
    {
        self.last_intensity
    }

    /// Computes the decayed excess; bounded by the stored excess because
    /// the decay factor is at most one.
    fn decayed_intensity(&self, decay: u64) -> (r: u64)
        requires
            self.wf(),
            decay <= FIXED_ONE,
        ensures
            r == self.spec_decayed(decay),
            self.spec_baseline() <= r,
            r <= self.spec_last_intensity(),
    {
        let excess: u64 = self.last_intensity - self.baseline;
        proof {
            let x = excess as int;
            let d = decay as int;
            let k = FIXED_ONE as int;
            assert((x * d) / k <= x && 0 <= (x * d) / k && x * d
                < 0x100000000000000000000000000000000) by (nonlinear_arith)
                requires
                    0 <= x <= 0xFFFF_FFFF_FFFF_FFFF,
                    0 <= d <= k,
                    k == 1_000_000_000_000,
            ;
        }
        let scaled: u64 = (((excess as u128) * (decay as u128)) / (FIXED_ONE as u128)) as u64;
        self.baseline + scaled
    }

    /// Feeds one event. The caller computes `decay = exp(-beta * dt)` in
    /// fixed point for `dt = timestamp - last_timestamp`; when the
    /// timestamp repeats, `dt` is zero and the engine applies no decay
    /// whatever factor was handed in. Fails, changing nothing, when the
    /// timestamp moves backwards.
    pub fn update(&mut self, timestamp: u64, decay: u64) -> (r: Result<u64, HawkesError>)
        requires
            old(self).wf(),
            decay <= FIXED_ONE,
        ensures
            final(self).wf(),
            final(self).spec_baseline() == old(self).spec_baseline(),
            final(self).spec_alpha() == old(self).spec_alpha(),
            final(self).spec_beta() == old(self).spec_beta(),
            match r {
                Ok(intensity) => {
                    &&& match old(self).spec_last_timestamp() {
                        Some(t0) => timestamp >= t0 && intensity == old(self).spec_excited(
                            if timestamp == t0 {
                                FIXED_ONE
                            } else {
                                decay
                            },
                        ),
                        None => intensity == if old(self).spec_baseline() + old(self).spec_alpha()
                            <= u64::MAX {
                            old(self).spec_baseline() + old(self).spec_alpha()
                        } else {
                            u64::MAX as int
                        },
                    }
                    &&& final(self).spec_last_intensity() == intensity
                    &&& final(self).spec_last_timestamp() == Some(timestamp)
                },
                Err(e) => {
                    &&& e == HawkesError::OutOfOrderTimestamp
                    &&& old(self).spec_last_timestamp() matches Some(t0) && timestamp < t0
                    &&& *final(self) == *old(self)
                },
            },
            r is Ok <==> hawkes_event_ok(old(self)@, timestamp),
            r matches Ok(intensity) ==> intensity == hawkes_event_intensity(
                old(self)@,
                timestamp,
                decay,
            ) && final(self)@ == hawkes_step(old(self)@, timestamp, decay),
    {
        match self.last_timestamp {
            Some(last_ts) => {
                if timestamp < last_ts {
                    return Err(HawkesError::OutOfOrderTimestamp);
                }
                let effective = if timestamp == last_ts {
                    FIXED_ONE
                } else {
                    decay
                };
                let decayed = self.decayed_intensity(effective);
                let next = if decayed > u64::MAX - self.alpha {
                    u64::MAX
                } else {
                    decayed + self.alpha
                };
                self.last_intensity = next;
                self.last_timestamp = Some(timestamp);
                Ok(next)
            },
            None => {
                let next = if self.baseline > u64::MAX - self.alpha {
                    u64::MAX
                } else {
                    self.baseline + self.alpha
                };
                self.last_intensity = next;
                self.last_timestamp = Some(timestamp);
                Ok(next)
            },
        }
    }

    /// Feeds a series of events as `(timestamp, decay)` pairs, collecting
    /// the intensity after each. Succeeds exactly when every timestamp is
    /// admitted in turn; the first out-of-order timestamp fails the call,
    /// with the events before it already applied.
    pub fn update_many(&mut self, events: &Vec<(u64, u64)>) -> (r: Result<Vec<u64>, HawkesError>)
        requires
            old(self).wf(),
            forall|i: int|
                0 <= i < events@.len() ==> (#[trigger] events@[i]).1 <= FIXED_ONE,
        ensures
            final(self).wf(),
            final(self).spec_baseline() == old(self).spec_baseline(),
            final(self).spec_alpha() == old(self).spec_alpha(),
            final(self).spec_beta() == old(self).spec_beta(),
            r is Ok <==> hawkes_steps_ok(old(self)@, events@),
            r matches Ok(out) ==> {
                &&& out@.len() == events@.len()
                &&& final(self)@ == hawkes_steps(old(self)@, events@)
                &&& forall|t: int|
                    0 <= t < events@.len() ==> #[trigger] out@[t] == hawkes_steps(
                        old(self)@,
                        events@.subrange(0, t + 1),
                    ).last_intensity
            },
            r matches Err(e) ==> {
                &&& e == HawkesError::OutOfOrderTimestamp
                &&& exists|k: int|
                    {
                        &&& 0 <= k < events@.len()
                        &&& hawkes_steps_ok(old(self)@, #[trigger] events@.subrange(0, k))
                        &&& !hawkes_event_ok(
                            hawkes_steps(old(self)@, events@.subrange(0, k)),
                            events@[k].0,
                        )
                        &&& final(self)@ == hawkes_steps(old(self)@, events@.subrange(0, k))
                    }
            },
    {
        proof {
            assert(events@.subrange(0, 0) =~= Seq::<(u64, u64)>::empty());
        }
        let mut out: Vec<u64> = Vec::new();
        let mut i: usize = 0;
        while i < events.len()
            invariant
                i <= events@.len(),
                out@.len() == i,
                self.wf(),
                self.spec_baseline() == old(self).spec_baseline(),
                self.spec_alpha() == old(self).spec_alpha(),
                self.spec_beta() == old(self).spec_beta(),
                old(self).wf(),
                hawkes_steps_ok(old(self)@, events@.subrange(0, i as int)),
                self@ == hawkes_steps(old(self)@, events@.subrange(0, i as int)),
                forall|t: int|
                    0 <= t < i ==> #[trigger] out@[t] == hawkes_steps(
                        old(self)@,
                        events@.subrange(0, t + 1),
                    ).last_intensity,
                forall|k: int|
                    0 <= k < events@.len() ==> (#[trigger] events@[k]).1 <= FIXED_ONE,
            decreases events@.len() - i,
        {
            let (ts, decay) = events[i];
            let ghost prefix = events@.subrange(0, i as int);
            match self.update(ts, decay) {
                Ok(v) => {
                    out.push(v);
                    proof {
                        lemma_hawkes_steps_push(old(self)@, prefix, events@[i as int]);
                        assert(events@.subrange(0, i + 1) =~= prefix.push(events@[i as int]));
                    }
                },
                Err(e) => {
                    proof {
                        if hawkes_steps_ok(old(self)@, events@) {
                            lemma_hawkes_steps_ok_prefix(old(self)@, events@, i as int);
                            assert(false);
                        }
                        assert(hawkes_steps_ok(old(self)@, events@.subrange(0, i as int)));
                    }
                    return Err(e);
                },
            }
            i += 1;
        }
        proof {
            assert(events@.subrange(0, events@.len() as int) =~= events@);
            if !hawkes_steps_ok(old(self)@, events@) {
                assert(false);
            }
        }
        Ok(out)
    }

    /// The intensity that would be observed at `timestamp`, without
    /// adding an event: the decayed value alone. Before any event this is
    /// the baseline.
    pub fn intensity_at(&self, timestamp: u64, decay: u64) -> (r: Result<u64, HawkesError>)
        requires
            self.wf(),
            decay <= FIXED_ONE,
        ensures
            match r {
                Ok(v) => {
                    &&& match self.spec_last_timestamp() {
                        Some(t0) => timestamp >= t0 && v == self.spec_decayed(
                            if timestamp == t0 {
                                FIXED_ONE
                            } else {
                                decay
                            },
                        ),
                        None => v == self.spec_baseline(),
                    }
                },
                Err(e) => {
                    &&& e == HawkesError::OutOfOrderTimestamp
                    &&& self.spec_last_timestamp() matches Some(t0) && timestamp < t0
                },
            },
    {
        match self.last_timestamp {
            Some(last_ts) => {
                if timestamp < last_ts {
                    return Err(HawkesError::OutOfOrderTimestamp);
                }
                let effective = if timestamp == last_ts {
                    FIXED_ONE
                } else {
                    decay
                };
                Ok(self.decayed_intensity(effective))
            },
            None => Ok(self.baseline),
        }
    }
}

/// Two events at the same timestamp: the decay factor is one, so the
/// intensity rises by exactly `alpha` (short of the integer ceiling).
pub proof fn lemma_same_timestamp_adds_alpha(h: &RustHawkesIntensity)
    requires
        h.wf(),
        h.spec_last_intensity() + h.spec_alpha() <= u64::MAX,
    ensures
        h.spec_excited(FIXED_ONE) == h.spec_last_intensity() + h.spec_alpha(),
{
    let x = h.spec_last_intensity() - h.spec_baseline();
    lemma_div_multiples_vanish(x, FIXED_ONE as int);
    assert(x * (FIXED_ONE as int) == (FIXED_ONE as int) * x) by (nonlinear_arith);
}

/// As the decay factor falls toward zero (that is, as `dt` grows without
/// bound and `exp(-beta * dt)` vanishes), the observed intensity falls
/// monotonically to exactly the baseline.
pub proof fn lemma_decay_convergence(h: &RustHawkesIntensity, d1: u64, d2: u64)
    requires
        h.wf(),
        d1 <= d2 <= FIXED_ONE,
    ensures
        h.spec_decayed(0) == h.spec_baseline(),
        h.spec_baseline() <= h.spec_decayed(d1) <= h.spec_decayed(d2),
{
    let x = h.spec_last_intensity() - h.spec_baseline();
    let k = FIXED_ONE as int;
    assert(x * 0 == 0) by (nonlinear_arith);
    assert(0int / k == 0);
    assert((x * d1) / k <= (x * d2) / k && 0 <= (x * d1) / k) by (nonlinear_arith)
        requires
            0 <= x,
            0 <= d1 <= d2,
            k > 0,
    ;
}

} // verus!
