//! Derived market metrics.
//!
//! Prices are not set by the server: they emerge from the orders players
//! place.  This module smooths them (exponential moving average), relates
//! supply to demand, and gives the NPC price floor and ceiling.
use vstd::prelude::*;

use crate::decimal::{
    abs, add_spec, aligned_fits, lemma_add_exact, lemma_mul_exact, pow10, product_fits, div_spec,
    lemma_pow10_values, mul_spec, one_whole, product_safe, quotient_safe, safe_magnitude, sub_spec,
    sum_safe, units, within, wf, Decimal,
};
use crate::models::Market;

verus! {

pub struct PricingEngine;

/// The smoothing factor of the moving average, 0.1: a new price contributes
/// 10% and the history 90%.
pub open spec fn ema_alpha() -> Decimal {
    Decimal { mantissa: 1, scale: 1 }
}

/// 1 - 0.1, written as `rust_decimal` computes it: 0.9.
pub open spec fn ema_keep() -> Decimal {
    Decimal { mantissa: 9, scale: 1 }
}

/// The moving average after a trade at `new_price`:
/// 0.1 · new_price + 0.9 · old_ema.
pub open spec fn ema_spec(new_price: Decimal, old_ema: Decimal) -> Decimal {
    add_spec(mul_spec(ema_alpha(), new_price), mul_spec(ema_keep(), old_ema))
}

/// 0.5: the NPC floor as a fraction of the base price.
pub open spec fn floor_factor() -> Decimal {
    Decimal { mantissa: 5, scale: 1 }
}

/// 5.0: the NPC ceiling as a multiple of the base price.
pub open spec fn ceiling_factor() -> Decimal {
    Decimal { mantissa: 50, scale: 1 }
}

/// Largest price magnitude the moving average accepts: 2^94.
pub open spec fn ema_limit() -> int {
    19807040628566084398385987584
}

/// `market` with only the moving average and the last price replaced.
pub open spec fn with_price(market: Market, ema: Decimal, last: Decimal) -> Market {
    Market { ema_price: ema, last_price: last, ..market }
}

impl PricingEngine {
    /// Updates the market's moving average after a trade at `new_price` and
    /// records `new_price` as the last price.
    pub fn update_ema(market: &mut Market, new_price: Decimal)
        requires
            wf(new_price),
            wf(old(market).ema_price),
            within(new_price, ema_limit()),
            within(old(market).ema_price, ema_limit()),
        ensures
            *final(market) == with_price(
                *old(market),
                ema_spec(new_price, old(market).ema_price),
                new_price,
            ),
            wf(final(market).ema_price),
    {
        let alpha = Decimal { mantissa: 1, scale: 1 };
        let one = Decimal { mantissa: 1, scale: 0 };
        proof {
            lemma_pow10_values();
            assert(units(alpha) == 1000000000000000000000000000);
            assert(units(one) == 10000000000000000000000000000);
            assert(crate::decimal::aligned_fits(one, alpha, units(one) - units(alpha)));
        }
        let keep = one.sub(&alpha);
        proof {
            assert(units(keep) == 9000000000000000000000000000);
            assert(keep.scale <= 1);
            assert(keep == ema_keep()) by {
                crate::decimal::lemma_units_scale(keep);
                if keep.scale == 0 {
                    assert(units(keep) == keep.mantissa * 10000000000000000000000000000);
                } else {
                    assert(units(keep) == keep.mantissa * 1000000000000000000000000000);
                }
            }
            let w = one_whole();
            assert(abs(units(alpha) * units(new_price)) <= safe_magnitude() * w * w) by (
            nonlinear_arith)
                requires
                    units(alpha) == 1000000000000000000000000000,
                    abs(units(new_price)) <= ema_limit() * w,
                    w == 10000000000000000000000000000,
                    ema_limit() == 19807040628566084398385987584,
                    safe_magnitude() == 39614081257132168796771975168,
            ;
            assert(abs(units(keep) * units(market.ema_price)) <= safe_magnitude() * w * w) by (
            nonlinear_arith)
                requires
                    units(keep) == 9000000000000000000000000000,
                    abs(units(market.ema_price)) <= ema_limit() * w,
                    w == 10000000000000000000000000000,
                    ema_limit() == 19807040628566084398385987584,
                    safe_magnitude() == 39614081257132168796771975168,
            ;
        }
        let fresh = alpha.mul(&new_price);
        let kept = keep.mul(&market.ema_price);
        proof {
            let w = one_whole();
            let un = units(new_price);
            let uo = units(market.ema_price);
            let uf = units(fresh);
            let uk = units(kept);
            assert(w == 10000000000000000000000000000);
            assert(-100000000000000000000000000000 <= 10 * uf - un <= 100000000000000000000000000000)
                by (nonlinear_arith)
                requires
                    -(w * w) <= uf * w - 1000000000000000000000000000 * un <= w * w,
                    w == 10000000000000000000000000000,
            ;
            assert(-100000000000000000000000000000 <= 10 * uk - 9 * uo <= 100000000000000000000000000000)
                by (nonlinear_arith)
                requires
                    -(w * w) <= uk * w - 9000000000000000000000000000 * uo <= w * w,
                    w == 10000000000000000000000000000,
            ;
            assert(sum_safe(fresh, kept));
        }
        market.ema_price = fresh.add(&kept);
        market.last_price = new_price;
    }

    /// Supply over demand: above 1 means oversupply, below 1 undersupply.
    /// `None` when demand is zero.
    pub fn supply_demand_ratio(market: &Market) -> (r: Option<Decimal>)
        requires
            wf(market.total_supply),
            wf(market.total_demand),
            market.total_demand.mantissa != 0 ==> quotient_safe(
                market.total_supply,
                market.total_demand,
            ),
        ensures
            r == (if market.total_demand.mantissa == 0 {
                None
            } else {
                Some(div_spec(market.total_supply, market.total_demand))
            }),
    {
        if market.total_demand.is_zero() {
            return None;
        }
        Some(market.total_supply.div(&market.total_demand))
    }

    /// The spread `best_ask - best_bid`, when both sides have an order.  A
    /// tight spread indicates a liquid market.
    pub fn spread(best_bid: Option<Decimal>, best_ask: Option<Decimal>) -> (r: Option<Decimal>)
        requires
            best_bid is Some ==> wf(best_bid->0),
            best_ask is Some ==> wf(best_ask->0),
            best_bid is Some && best_ask is Some ==> sum_safe(best_ask->0, best_bid->0),
        ensures
            r == (match (best_bid, best_ask) {
                (Some(bid), Some(ask)) => Some(sub_spec(ask, bid)),
                _ => None,
            }),
    {
        match (best_bid, best_ask) {
            (Some(bid), Some(ask)) => Some(ask.sub(&bid)),
            _ => None,
        }
    }

    /// Sets the market's aggregate supply and demand.
    pub fn recalculate_supply_demand(
        market: &mut Market,
        total_sell_qty: Decimal,
        total_buy_qty: Decimal,
    )
        ensures
            *final(market) == (Market {
                total_supply: total_sell_qty,
                total_demand: total_buy_qty,
                ..*old(market)
            }),
    {
        market.total_supply = total_sell_qty;
        market.total_demand = total_buy_qty;
    }

    /// NPC price floor: half the base price.  Raw materials have an
    /// extraction cost below which NPC sellers do not go, so prices never
    /// collapse to zero.
    pub fn npc_floor_price(base_price: Decimal) -> (r: Decimal)
        requires
            wf(base_price),
        ensures
            r == mul_spec(base_price, floor_factor()),
            wf(r),
            2 * abs(units(r)) <= abs(units(base_price)) + 2 * one_whole(),
            units(base_price) >= 0 ==> units(r) <= units(base_price),
    {
        let half = Decimal { mantissa: 5, scale: 1 };
        proof {
            lemma_pow10_values();
            let w = one_whole();
            assert(units(half) == 5000000000000000000000000000);
            crate::decimal::lemma_units_bound(base_price);
            assert(abs(units(base_price) * units(half)) <= safe_magnitude() * w * w) by (
            nonlinear_arith)
                requires
                    units(half) == 5000000000000000000000000000,
                    abs(units(base_price)) <= 2 * safe_magnitude() * w,
                    w == 10000000000000000000000000000,
            ;
        }
        let r = base_price.mul(&half);
        proof {
            let w = one_whole();
            let b = units(base_price);
            let x = units(r);
            crate::decimal::lemma_units_of_zero(base_price);
            if b > 0 {
                assert(x * w == x * 10000000000000000000000000000);
                assert(b * units(half) == b * 5000000000000000000000000000);
                assert(x <= b);
            }
            assert(-2 * w <= 2 * units(r) - units(base_price) <= 2 * w) by (nonlinear_arith)
                requires
                    -(w * w) <= units(r) * w - units(base_price) * 5000000000000000000000000000 <= w
                        * w,
                    w == 10000000000000000000000000000,
            ;
        }
        r
    }

    /// NPC price ceiling: five times the base price.  Above it NPC sellers
    /// flood the market to dampen runaway inflation.
    pub fn npc_ceiling_price(base_price: Decimal) -> (r: Decimal)
        requires
            wf(base_price),
            product_safe(base_price, ceiling_factor()),
        ensures
            r == mul_spec(base_price, ceiling_factor()),
            wf(r),
            units(base_price) >= 0 ==> units(base_price) <= units(r),
    {
        let five = Decimal { mantissa: 50, scale: 1 };
        proof {
            lemma_pow10_values();
        }
        let r = base_price.mul(&five);
        proof {
            let w = one_whole();
            let b = units(base_price);
            let x = units(r);
            assert(units(five) == 50000000000000000000000000000);
            crate::decimal::lemma_units_of_zero(base_price);
            if b > 0 {
                assert(x * w == x * 10000000000000000000000000000);
                assert(b * units(five) == b * 50000000000000000000000000000);
                let e = x * 10000000000000000000000000000 - b * 50000000000000000000000000000;
                assert(abs(e) >= -e);
                assert(1000000000000000000000000000 * (-e) <= 1000000000000000000000000000
                    * 10000000000000000000000000000 + b * 50000000000000000000000000000);
                assert(b <= x) by (nonlinear_arith)
                    requires
                        b > 0,
                        e == x * 10000000000000000000000000000 - b * 50000000000000000000000000000,
                        1000000000000000000000000000 * (-e) <= 1000000000000000000000000000
                            * 10000000000000000000000000000 + b * 50000000000000000000000000000,
                ;
            }
        }
        r
    }
}

/// The moving average is exact when both products and their sum fit the
/// decimal representation without rounding.
pub open spec fn ema_is_exact(new_price: Decimal, old_ema: Decimal) -> bool {
    &&& product_fits(ema_alpha(), new_price)
    &&& product_fits(ema_keep(), old_ema)
    &&& aligned_fits(
        mul_spec(ema_alpha(), new_price),
        mul_spec(ema_keep(), old_ema),
        units(mul_spec(ema_alpha(), new_price)) + units(mul_spec(ema_keep(), old_ema)),
    )
}

/// The moving average moves toward the new price without reaching it: it is
/// one tenth of the new price plus nine tenths of the old average, so it lies
/// strictly between the two when they differ and equals them when they agree.
/// (Where rounding at 28 digits is needed the average may land on the old
/// value, so the law is stated for exact averages.)
pub proof fn law_ema_moves_toward_new_price(new_price: Decimal, old_ema: Decimal)
    requires
        wf(new_price),
        wf(old_ema),
        ema_is_exact(new_price, old_ema),
    ensures
        10 * units(ema_spec(new_price, old_ema)) == units(new_price) + 9 * units(old_ema),
        units(old_ema) < units(new_price) ==> units(old_ema) < units(ema_spec(new_price, old_ema))
            < units(new_price),
        units(new_price) < units(old_ema) ==> units(new_price) < units(ema_spec(new_price, old_ema))
            < units(old_ema),
        units(old_ema) == units(new_price) ==> units(ema_spec(new_price, old_ema)) == units(
            new_price,
        ),
{
    lemma_pow10_values();
    let a = ema_alpha();
    let k = ema_keep();
    assert(units(a) == 1000000000000000000000000000);
    assert(units(k) == 9000000000000000000000000000);
    lemma_mul_exact(a, new_price);
    lemma_mul_exact(k, old_ema);
    let p = mul_spec(a, new_price);
    let q = mul_spec(k, old_ema);
    assert(wf(p)) by {
        assert(product_fits(a, new_price));
    }
    assert(wf(q)) by {
        assert(product_fits(k, old_ema));
    }
    lemma_add_exact(p, q);
    let w = one_whole();
    assert(10 * units(p) == units(new_price)) by (nonlinear_arith)
        requires
            units(p) * w == 1000000000000000000000000000 * units(new_price),
            w == 10000000000000000000000000000,
    ;
    assert(10 * units(q) == 9 * units(old_ema)) by (nonlinear_arith)
        requires
            units(q) * w == 9000000000000000000000000000 * units(old_ema),
            w == 10000000000000000000000000000,
    ;
}

/// For a positive base price whose products with 0.5 and 5.0 are exact, the
/// NPC floor is half the base price and the ceiling five times it, so
/// floor < base < ceiling.
pub proof fn law_npc_band_brackets_base_price(base_price: Decimal)
    requires
        wf(base_price),
        base_price.mantissa > 0,
        product_fits(base_price, floor_factor()),
        product_fits(base_price, ceiling_factor()),
    ensures
        2 * units(mul_spec(base_price, floor_factor())) == units(base_price),
        units(mul_spec(base_price, ceiling_factor())) == 5 * units(base_price),
        units(mul_spec(base_price, floor_factor())) < units(base_price) < units(
            mul_spec(base_price, ceiling_factor()),
        ),
{
    lemma_pow10_values();
    let w = one_whole();
    assert(units(floor_factor()) == 5000000000000000000000000000);
    assert(units(ceiling_factor()) == 50000000000000000000000000000);
    lemma_mul_exact(base_price, floor_factor());
    lemma_mul_exact(base_price, ceiling_factor());
    crate::decimal::lemma_pow10_positive((28 - base_price.scale) as nat);
    assert(units(base_price) > 0) by (nonlinear_arith)
        requires
            base_price.mantissa > 0,
            pow10((28 - base_price.scale) as nat) >= 1,
            units(base_price) == base_price.mantissa * pow10((28 - base_price.scale) as nat),
    ;
    let f = mul_spec(base_price, floor_factor());
    let c = mul_spec(base_price, ceiling_factor());
    assert(2 * units(f) == units(base_price)) by (nonlinear_arith)
        requires
            units(f) * w == units(base_price) * 5000000000000000000000000000,
            w == 10000000000000000000000000000,
    ;
    assert(units(c) == 5 * units(base_price)) by (nonlinear_arith)
        requires
            units(c) * w == units(base_price) * 50000000000000000000000000000,
            w == 10000000000000000000000000000,
    ;
}

} // verus!
