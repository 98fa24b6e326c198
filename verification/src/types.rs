//! The shared value model: sides, exact fixed-point prices, orders and the
//! events the book publishes towards the depth cache.

use vstd::prelude::*;

verus! {

/// The side of an order.
///
/// `Bid` is the demand (buy) side, `Ask` the supply (sell) side.
#[derive(Debug, Clone, Copy, PartialEq, Eq, Hash, Structural)]
pub enum Side {
    /// Buy side: traders willing to purchase at a given price.
    Bid,
    /// Sell side: traders willing to sell at a given price.
    Ask,
}

/// Number of fractional decimal digits a `Price` can carry.
pub const PRICE_SCALE: u32 = 6;

/// Number of ticks in one whole currency unit: `10^PRICE_SCALE`.
pub const TICKS_PER_UNIT: u64 = 1_000_000;

/// `10^e`, the mathematical power of ten.
pub open spec fn pow10(e: nat) -> nat
    decreases e,
{
    if e == 0 {
        1
    } else {
        10 * pow10((e - 1) as nat)
    }
}

/// An exact, non-negative, base-10 fixed-point price.
///
/// A price is a whole number of ticks, each tick worth
/// `10^-PRICE_SCALE` currency units, so comparison and truncation are
/// exact integer operations: 100.10 always equals 100.10.
#[derive(Debug, Clone, Copy, PartialEq, Eq, Structural)]
pub struct Price {
    /// The price measured in ticks of `10^-PRICE_SCALE` units.
    pub ticks: u64,
}

/// The only way constructing a value of this crate can fail.
#[derive(Debug, Clone, Copy, PartialEq, Eq, Structural)]
pub enum PriceError {
    /// The requested decimal value is not exactly representable as a
    /// whole number of `10^-PRICE_SCALE` ticks, or does not fit in one.
    InvalidPrice,
}

/// Powers of ten are positive.
proof fn lemma_pow10_pos(e: nat)
    ensures
        pow10(e) >= 1,
    decreases e,
{
    if e > 0 {
        lemma_pow10_pos((e - 1) as nat);
    }
}

/// Powers of ten multiply by adding exponents.
proof fn lemma_pow10_adds(a: nat, b: nat)
    ensures
        pow10(a + b) == pow10(a) * pow10(b),
    decreases a,
{
    if a == 0 {
        assert(pow10(0) == 1);
        assert(a + b == b);
    } else {
        lemma_pow10_adds((a - 1) as nat, b);
        assert(((a + b) - 1) as nat == (a - 1) as nat + b);
        assert(pow10(a + b) == 10 * pow10(((a + b) - 1) as nat));
        assert(pow10(a) == 10 * pow10((a - 1) as nat));
        assert(pow10(a + b) == 10 * (pow10((a - 1) as nat) * pow10(b)));
        assert(pow10(a + b) == pow10(a) * pow10(b)) by (nonlinear_arith)
            requires
                pow10(a + b) == 10 * (pow10((a - 1) as nat) * pow10(b)),
                pow10(a) == 10 * pow10((a - 1) as nat),
        ;
    }
}

/// Whether `t` ticks represent exactly the decimal value
/// `mantissa * 10^-scale`: both sides are compared over the common
/// denominator `10^(scale + PRICE_SCALE)`.
pub open spec fn represents(t: u64, mantissa: u64, scale: u32) -> bool {
    t as nat * pow10(scale as nat) == mantissa as nat * pow10(PRICE_SCALE as nat)
}

/// Equal products with a positive common factor have equal other factors.
proof fn lemma_mul_cancel(a: nat, b: nat, c: nat) by (nonlinear_arith)
    requires
        c >= 1,
        a * c == b * c,
    ensures
        a == b,
{
}

/// `10^e` for the small exponents a price's own scale allows.
fn pow10_u64(e: u32) -> (r: u64)
    requires
        e <= PRICE_SCALE,
    ensures
        r as nat == pow10(e as nat),
        1 <= r <= TICKS_PER_UNIT,
{
    proof {
        reveal_with_fuel(pow10, 8);
    }
    match e {
        0 => 1,
        1 => 10,
        2 => 100,
        3 => 1_000,
        4 => 10_000,
        5 => 100_000,
        _ => 1_000_000,
    }
}

impl Price {
    /// The aggregated (coarsened) level of a price: its fractional part
    /// is discarded, leaving the integer part.
    pub open spec fn aggregated(self) -> Price {
        Price { ticks: ((self.ticks / TICKS_PER_UNIT) * TICKS_PER_UNIT) as u64 }
    }

    /// Constructs the exact price `mantissa * 10^-scale`, for example
    /// 99.50 from a mantissa of 9950 and a scale of 2.
    ///
    /// Construction succeeds exactly when that decimal value is a whole,
    /// representable number of `10^-PRICE_SCALE` ticks: the returned
    /// price `p` satisfies `p.ticks * 10^scale == mantissa * 10^PRICE_SCALE`,
    /// and `InvalidPrice` comes back exactly when no tick count does.
    /// Rejection happens here, synchronously, before a malformed value
    /// can reach a book or a cache.
    pub fn from_mantissa_scale(mantissa: u64, scale: u32) -> (r: Result<Price, PriceError>)
        ensures
            match r {
                Ok(p) => represents(p.ticks, mantissa, scale),
                Err(e) => e == PriceError::InvalidPrice && forall|t: u64|
                    !represents(t, mantissa, scale),
            },
    {
        if scale <= PRICE_SCALE {
            let mult = pow10_u64(PRICE_SCALE - scale);
            proof {
                lemma_pow10_adds((PRICE_SCALE - scale) as nat, scale as nat);
                assert((PRICE_SCALE - scale) as nat + scale as nat == PRICE_SCALE as nat);
            }
            if mantissa > u64::MAX / mult {
                proof {
                    vstd::arithmetic::div_mod::lemma_fundamental_div_mod(
                        u64::MAX as int,
                        mult as int,
                    );
                    vstd::arithmetic::div_mod::lemma_mod_bound(u64::MAX as int, mult as int);
                    assert(mantissa as nat * mult as nat > u64::MAX as nat) by (nonlinear_arith)
                        requires
                            mantissa as int > u64::MAX as int / mult as int,
                            u64::MAX as int == mult as int * (u64::MAX as int / mult as int)
                                + u64::MAX as int % mult as int,
                            (u64::MAX as int % mult as int) < mult as int,
                            mult >= 1,
                    ;
                    assert forall|t: u64| !represents(t, mantissa, scale) by {
                        if represents(t, mantissa, scale) {
                            lemma_pow10_pos(scale as nat);
                            assert(mantissa as nat * (mult as nat * pow10(scale as nat)) == (
                            mantissa as nat * mult as nat) * pow10(scale as nat))
                                by (nonlinear_arith);
                            lemma_mul_cancel(
                                t as nat,
                                mantissa as nat * mult as nat,
                                pow10(scale as nat),
                            );
                        }
                    }
                }
                Err(PriceError::InvalidPrice)
            } else {
                proof {
                    vstd::arithmetic::div_mod::lemma_fundamental_div_mod(
                        u64::MAX as int,
                        mult as int,
                    );
                    vstd::arithmetic::div_mod::lemma_mod_bound(u64::MAX as int, mult as int);
                    vstd::arithmetic::mul::lemma_mul_inequality(
                        mantissa as int,
                        (u64::MAX / mult) as int,
                        mult as int,
                    );
                    assert((mantissa * mult) as nat * pow10(scale as nat) == mantissa as nat * (
                    mult as nat * pow10(scale as nat))) by (nonlinear_arith);
                }
                Ok(Price { ticks: mantissa * mult })
            }
        } else {
            let mut m = mantissa;
            let mut s = scale;
            proof {
                assert((scale - s) as nat == 0);
                assert(pow10(0) == 1);
            }
            while s > PRICE_SCALE
                invariant
                    PRICE_SCALE <= s <= scale,
                    mantissa as nat == m as nat * pow10((scale - s) as nat),
                decreases s,
            {
                let ghost k = (scale - s) as nat;
                if m % 10 != 0 {
                    proof {
                        assert forall|t: u64| !represents(t, mantissa, scale) by {
                            if represents(t, mantissa, scale) {
                                lemma_pow10_adds(k + PRICE_SCALE as nat, (s - PRICE_SCALE) as nat);
                                assert(k + PRICE_SCALE as nat + (s - PRICE_SCALE) as nat
                                    == scale as nat);
                                lemma_pow10_adds(k, PRICE_SCALE as nat);
                                assert(mantissa as nat * pow10(PRICE_SCALE as nat) == m as nat
                                    * pow10(k + PRICE_SCALE as nat)) by (nonlinear_arith)
                                    requires
                                        mantissa as nat == m as nat * pow10(k),
                                        pow10(k + PRICE_SCALE as nat) == pow10(k) * pow10(
                                            PRICE_SCALE as nat,
                                        ),
                                ;
                                assert(t as nat * pow10(scale as nat) == (t as nat * pow10(
                                    (s - PRICE_SCALE) as nat,
                                )) * pow10(k + PRICE_SCALE as nat)) by (nonlinear_arith)
                                    requires
                                        pow10(scale as nat) == pow10(k + PRICE_SCALE as nat)
                                            * pow10((s - PRICE_SCALE) as nat),
                                ;
                                lemma_pow10_pos(k + PRICE_SCALE as nat);
                                lemma_mul_cancel(
                                    t as nat * pow10((s - PRICE_SCALE) as nat),
                                    m as nat,
                                    pow10(k + PRICE_SCALE as nat),
                                );
                                assert(pow10((s - PRICE_SCALE) as nat) == 10 * pow10(
                                    (s - PRICE_SCALE - 1) as nat,
                                ));
                                assert(m as nat == (t as nat * pow10((s - PRICE_SCALE - 1) as nat))
                                    * 10) by (nonlinear_arith)
                                    requires
                                        m as nat == t as nat * (10 * pow10(
                                            (s - PRICE_SCALE - 1) as nat,
                                        )),
                                ;
                                vstd::arithmetic::div_mod::lemma_mod_multiples_basic(
                                    t as int * pow10((s - PRICE_SCALE - 1) as nat) as int,
                                    10,
                                );
                            }
                        }
                    }
                    return Err(PriceError::InvalidPrice);
                }
                proof {
                    vstd::arithmetic::div_mod::lemma_fundamental_div_mod(m as int, 10);
                    assert(mantissa as nat == (m / 10) as nat * pow10(k + 1)) by (nonlinear_arith)
                        requires
                            mantissa as nat == m as nat * pow10(k),
                            m as nat == 10 * (m / 10) as nat,
                            pow10(k + 1) == 10 * pow10(k),
                    ;
                    assert((scale - (s - 1)) as nat == k + 1);
                }
                m = m / 10;
                s = s - 1;
            }
            proof {
                let ghost k = (scale - PRICE_SCALE) as nat;
                lemma_pow10_adds(k, PRICE_SCALE as nat);
                assert(m as nat * pow10(scale as nat) == mantissa as nat * pow10(
                    PRICE_SCALE as nat,
                )) by (nonlinear_arith)
                    requires
                        mantissa as nat == m as nat * pow10(k),
                        pow10(scale as nat) == pow10(k) * pow10(PRICE_SCALE as nat),
                ;
            }
            Ok(Price { ticks: m })
        }
    }
}

/// A single resting order: immutable once constructed.
#[derive(Debug, Clone, PartialEq, Eq, Structural)]
pub struct Order {
    /// The exact price level at which this order rests.
    pub price: Price,
    /// The quantity of the asset being bought or sold.
    pub quantity: u64,
    /// Whether this is a buy (`Bid`) or sell (`Ask`) order.
    pub side: Side,
}

impl Order {
    /// Creates a new order with the given price, quantity, and side.
    pub fn new(price: Price, quantity: u64, side: Side) -> (order: Order)
        ensures
            order == (Order { price, quantity, side }),
    {
        Order { price, quantity, side }
    }
}

/// The mapping one side of a book maintains: each exact price, to the
/// orders resting there in arrival order.
pub type PriceLevelMap = crate::price_index::PriceIndex<Vec<Order>>;

/// The mapping one side of a depth cache maintains: each aggregated
/// price level, to the total quantity resting there.
pub type AggregatedDepthMap = crate::price_index::PriceIndex<u64>;

/// The event the book publishes for every successful insertion.
///
/// It carries the insertion's exact price (not aggregated), its quantity
/// as an additive delta, and its side, and is the sole channel of
/// information from the book to the depth cache.
#[derive(Debug, Clone, PartialEq, Eq, Structural)]
pub struct OrderEvent {
    /// The exact price level where the change occurred.
    pub price: Price,
    /// The change in quantity at this price level (always additive).
    pub quantity_delta: u64,
    /// Whether this event affects the bid or ask side.
    pub side: Side,
}

} // verus!
