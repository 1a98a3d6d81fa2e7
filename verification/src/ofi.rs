//! Order-flow imbalance from top-of-book deltas. Prices and sizes are
//! exact integers in the caller's tick and size units. Each update
//! compares the new best bid and ask against the previous observation
//! and returns the bid contribution minus the ask contribution.

use vstd::prelude::*;

verus! {

#[derive(Debug, PartialEq, Eq, Structural)]
pub enum OfiError {
    /// A side's price and size arrays must have matching lengths.
    MismatchedLengths,
}

/// The top level of one side, if the side has any depth.
pub open spec fn spec_best_level(prices: Seq<i64>, sizes: Seq<i64>) -> Option<(i64, i64)> {
    if prices.len() == 0 || sizes.len() == 0 {
        None
    } else {
        Some((prices[0], sizes[0]))
    }
}

/// A side is well formed when empty on either array or of matching
/// lengths.
pub open spec fn spec_side_ok(prices: Seq<i64>, sizes: Seq<i64>) -> bool {
    prices.len() == 0 || sizes.len() == 0 || prices.len() == sizes.len()
}

/// One side's contribution: on the bid side a price rise contributes the
/// new size, a fall removes the old size, and an unchanged price
/// contributes the size delta; the ask side mirrors the price
/// comparisons.
pub open spec fn spec_side_contribution(
    price: i64,
    size: i64,
    prev_price: i64,
    prev_size: i64,
    is_bid: bool,
) -> int {
    if is_bid {
        if price > prev_price {
            size as int
        } else if price < prev_price {
            -(prev_size as int)
        } else {
            size - prev_size
        }
    } else {
        if price < prev_price {
            size as int
        } else if price > prev_price {
            -(prev_size as int)
        } else {
            size - prev_size
        }
    }
}

/// A size-only update (both best prices unchanged) contributes exactly
/// the size delta on the bid side and its negative on the ask side.
pub proof fn lemma_size_only_update(
    bid_price: i64,
    bid_size: i64,
    prev_bid_size: i64,
    ask_price: i64,
    ask_size: i64,
    prev_ask_size: i64,
)
    ensures
        spec_side_contribution(bid_price, bid_size, bid_price, prev_bid_size, true) == bid_size
            - prev_bid_size,
        spec_side_contribution(ask_price, ask_size, ask_price, prev_ask_size, false) == ask_size
            - prev_ask_size,
        spec_side_contribution(bid_price, bid_size, bid_price, prev_bid_size, true)
            - spec_side_contribution(ask_price, ask_size, ask_price, prev_ask_size, false) == (
        bid_size - prev_bid_size) - (ask_size - prev_ask_size),
{
}

/// Order-flow imbalance calculator over successive top-of-book
/// observations.
pub struct RustOfiCalculator {
    prev_bid: Option<(i64, i64)>,
    prev_ask: Option<(i64, i64)>,
}

impl RustOfiCalculator {
    pub closed spec fn spec_prev_bid(&self) -> Option<(i64, i64)> {
        self.prev_bid
    }

    pub closed spec fn spec_prev_ask(&self) -> Option<(i64, i64)> {
        self.prev_ask
    }

    /// A fresh calculator with no stored observation.
    pub fn new() -> (c: RustOfiCalculator)
        ensures
            c.spec_prev_bid() is None,
            c.spec_prev_ask() is None,
    {
        RustOfiCalculator { prev_bid: None, prev_ask: None }
    }

    /// Forgets the stored observation.
    pub fn reset(&mut self)
        ensures
            final(self).spec_prev_bid() is None,
            final(self).spec_prev_ask() is None,
    {
        self.prev_bid = None;
        self.prev_ask = None;
    }

    fn best_level(prices: &Vec<i64>, sizes: &Vec<i64>) -> (r: Result<Option<(i64, i64)>, OfiError>)
        ensures
            match r {
                Ok(level) => {
                    &&& spec_side_ok(prices@, sizes@)
                    &&& level == spec_best_level(prices@, sizes@)
                },
                Err(e) => {
                    &&& e == OfiError::MismatchedLengths
                    &&& !spec_side_ok(prices@, sizes@)
                },
            },
    {
        if prices.len() == 0 || sizes.len() == 0 {
            return Ok(None);
        }
        if prices.len() != sizes.len() {
            return Err(OfiError::MismatchedLengths);
        }
        Ok(Some((prices[0], sizes[0])))
    }

    /// Feeds one book observation. Missing depth on either side reports
    /// zero flow; the first full observation only stores state; after
    /// that the result is the bid contribution minus the ask
    /// contribution. A side whose arrays disagree in length fails the
    /// call, changing nothing.
    pub fn update_from_levels(
        &mut self,
        bid_prices: &Vec<i64>,
        bid_sizes: &Vec<i64>,
        ask_prices: &Vec<i64>,
        ask_sizes: &Vec<i64>,
    ) -> (r: Result<Option<i128>, OfiError>)
        ensures
            match r {
                Ok(flow) => {
                    let best_bid = spec_best_level(bid_prices@, bid_sizes@);
                    let best_ask = spec_best_level(ask_prices@, ask_sizes@);
                    &&& spec_side_ok(bid_prices@, bid_sizes@)
                    &&& spec_side_ok(ask_prices@, ask_sizes@)
                    &&& final(self).spec_prev_bid() == best_bid
                    &&& final(self).spec_prev_ask() == best_ask
                    &&& if best_bid is None || best_ask is None {
                        flow == Some(0int as i128)
                    } else if old(self).spec_prev_bid() is None || old(self).spec_prev_ask()
                        is None {
                        flow is None
                    } else {
                        let bid = best_bid.unwrap();
                        let ask = best_ask.unwrap();
                        let prev_bid = old(self).spec_prev_bid().unwrap();
                        let prev_ask = old(self).spec_prev_ask().unwrap();
                        flow matches Some(v) && v == spec_side_contribution(
                            bid.0,
                            bid.1,
                            prev_bid.0,
                            prev_bid.1,
                            true,
                        ) - spec_side_contribution(ask.0, ask.1, prev_ask.0, prev_ask.1, false)
                    }
                },
                Err(e) => {
                    &&& e == OfiError::MismatchedLengths
                    &&& (!spec_side_ok(bid_prices@, bid_sizes@) || !spec_side_ok(
                        ask_prices@,
                        ask_sizes@,
                    ))
                    &&& *final(self) == *old(self)
                },
            },
    {
        let best_bid = match Self::best_level(bid_prices, bid_sizes) {
            Ok(level) => level,
            Err(e) => {
                return Err(e);
            },
        };
        let best_ask = match Self::best_level(ask_prices, ask_sizes) {
            Ok(level) => level,
            Err(e) => {
                return Err(e);
            },
        };
        if best_bid.is_none() || best_ask.is_none() {
            self.prev_bid = best_bid;
            self.prev_ask = best_ask;
            return Ok(Some(0));
        }
        let bid = best_bid.unwrap();
        let ask = best_ask.unwrap();
        let prev_bid = match self.prev_bid {
            Some(prev) => prev,
            None => {
                self.prev_bid = Some(bid);
                self.prev_ask = Some(ask);
                return Ok(None);
            },
        };
        let prev_ask = match self.prev_ask {
            Some(prev) => prev,
            None => {
                self.prev_bid = Some(bid);
                self.prev_ask = Some(ask);
                return Ok(None);
            },
        };
        let bid_contrib: i128 = if bid.0 > prev_bid.0 {
            bid.1 as i128
        } else if bid.0 < prev_bid.0 {
            -(prev_bid.1 as i128)
        } else {
            (bid.1 as i128) - (prev_bid.1 as i128)
        };
        let ask_contrib: i128 = if ask.0 < prev_ask.0 {
            ask.1 as i128
        } else if ask.0 > prev_ask.0 {
            -(prev_ask.1 as i128)
        } else {
            (ask.1 as i128) - (prev_ask.1 as i128)
        };
        self.prev_bid = Some(bid);
        self.prev_ask = Some(ask);
        Ok(Some(bid_contrib - ask_contrib))
    }
}

} // verus!
