//! Properties of the matching engine that hold for every order book.
use vstd::prelude::*;

use crate::decimal::units;
use crate::engine::matching::{
    after_fill, fill_of, insert_spec, is_sorted, match_loop, match_spec, order_after, sort_spec,
};
use crate::models::{time_le, OrderStatus, OrderType, TradeOrder, Transaction};

verus! {

broadcast use vstd::seq_lib::group_to_multiset_ensures;

/// Two orders agree on everything that matching does not change: all but the
/// remaining quantity and the status.
pub open spec fn same_terms(o: TradeOrder, p: TradeOrder) -> bool {
    &&& o.id == p.id
    &&& o.player_id == p.player_id
    &&& o.company_id == p.company_id
    &&& o.resource_id == p.resource_id
    &&& o.order_type == p.order_type
    &&& o.price == p.price
    &&& o.original_quantity == p.original_quantity
    &&& o.created_at == p.created_at
}

/// `t` is a fill between a buy order of `buys` and a sell order of `sells`
/// of different players whose bid is at least the ask, executed at the price
/// of whichever order is older (the buy order on equal times).
pub open spec fn fill_respects_book(
    t: Transaction,
    buys: Seq<TradeOrder>,
    sells: Seq<TradeOrder>,
) -> bool {
    exists|i: int, j: int|
        0 <= i < buys.len() && 0 <= j < sells.len() && fill_between(t, #[trigger] buys[i], #[trigger] sells[j])
}

pub open spec fn fill_between(t: Transaction, b: TradeOrder, s: TradeOrder) -> bool {
    &&& t.buy_order_id == b.id
    &&& t.buyer_id == b.player_id
    &&& t.sell_order_id == s.id
    &&& t.seller_id == s.player_id
    &&& t.resource_id == b.resource_id
    &&& b.player_id != s.player_id
    &&& units(b.price) >= units(s.price)
    &&& t.price == (if time_le(b.created_at, s.created_at) {
        b.price
    } else {
        s.price
    })
}

/// An order after matching is either as it was, or carries `Filled` exactly
/// when nothing of it remains and `PartiallyFilled` otherwise.
pub open spec fn settled(after: TradeOrder, before: TradeOrder) -> bool {
    after == before || after.status == (if after.quantity.mantissa == 0 {
        OrderStatus::Filled
    } else {
        OrderStatus::PartiallyFilled
    })
}

proof fn lemma_insert_sorted(r: Seq<TradeOrder>, x: TradeOrder, side: OrderType)
    requires
        is_sorted(r, side),
    ensures
        is_sorted(insert_spec(r, x, side), side),
        insert_spec(r, x, side).to_multiset() == r.to_multiset().insert(x),
        insert_spec(r, x, side).len() == r.len() + 1,
        forall|k: int|
            0 <= k < insert_spec(r, x, side).len() ==> #[trigger] insert_spec(r, x, side)[k] == x
                || r.contains(insert_spec(r, x, side)[k]),
    decreases r.len(),
{
    let ins = insert_spec(r, x, side);
    if r.len() == 0 {
        assert(seq![x] =~= Seq::<TradeOrder>::empty().insert(0, x));
    } else if order_after(side, r[0], x) {
        assert(seq![x] + r =~= r.insert(0, x));
        assert forall|i: int, j: int| 0 <= i < j < ins.len() implies !order_after(
            side,
            #[trigger] ins[i],
            #[trigger] ins[j],
        ) by {
            if i == 0 {
                assert(ins[j] == r[j - 1]);
                if j - 1 > 0 {
                    assert(!order_after(side, r[0], r[j - 1]));
                }
            } else {
                assert(ins[i] == r[i - 1] && ins[j] == r[j - 1]);
            }
        }
        assert forall|k: int| 0 <= k < ins.len() implies #[trigger] ins[k] == x || r.contains(
            ins[k],
        ) by {
            if k > 0 {
                assert(ins[k] == r[k - 1]);
            }
        }
    } else {
        let t = r.drop_first();
        assert forall|i: int, j: int| 0 <= i < j < t.len() implies !order_after(
            side,
            #[trigger] t[i],
            #[trigger] t[j],
        ) by {
            assert(t[i] == r[i + 1] && t[j] == r[j + 1]);
        }
        lemma_insert_sorted(t, x, side);
        let it = insert_spec(t, x, side);
        assert(seq![r[0]] + it =~= it.insert(0, r[0]));
        assert(seq![r[0]] + t =~= r);
        assert(t.insert(0, r[0]) =~= r);
        assert forall|i: int, j: int| 0 <= i < j < ins.len() implies !order_after(
            side,
            #[trigger] ins[i],
            #[trigger] ins[j],
        ) by {
            if i == 0 {
                assert(ins[j] == it[j - 1]);
                if it[j - 1] != x {
                    let k = choose|k: int| 0 <= k < t.len() && t[k] == it[j - 1];
                    assert(r[k + 1] == it[j - 1]);
                }
            } else {
                assert(ins[i] == it[i - 1] && ins[j] == it[j - 1]);
            }
        }
        assert forall|k: int| 0 <= k < ins.len() implies #[trigger] ins[k] == x || r.contains(
            ins[k],
        ) by {
            if k > 0 {
                let y = it[k - 1];
                assert(ins[k] == y);
                if y != x {
                    let j = choose|j: int| 0 <= j < t.len() && t[j] == y;
                    assert(r[j + 1] == y);
                }
            } else {
                assert(r[0] == ins[0]);
            }
        }
    }
}

/// Sorting a side of the book rearranges its orders (the same orders, each
/// as often) into price-time priority: no order comes after one that it
/// sorts after.
pub proof fn law_book_sort_orders_by_priority(s: Seq<TradeOrder>, side: OrderType)
    ensures
        is_sorted(sort_spec(s, side), side),
        sort_spec(s, side).to_multiset() == s.to_multiset(),
    decreases s.len(),
{
    if s.len() > 0 {
        law_book_sort_orders_by_priority(s.drop_last(), side);
        lemma_insert_sorted(sort_spec(s.drop_last(), side), s.last(), side);
        assert(s.drop_last().push(s.last()) =~= s);
    }
}

/// Sorting keeps the orders of a side.
proof fn lemma_sort_contains(s: Seq<TradeOrder>, side: OrderType)
    ensures
        sort_spec(s, side).len() == s.len(),
        forall|k: int| 0 <= k < s.len() ==> s.contains(#[trigger] sort_spec(s, side)[k]),
    decreases s.len(),
{
    if s.len() > 0 {
        let p = s.drop_last();
        lemma_sort_contains(p, side);
        law_book_sort_orders_by_priority(p, side);
        lemma_insert_sorted(sort_spec(p, side), s.last(), side);
        let sp = sort_spec(p, side);
        assert forall|k: int| 0 <= k < s.len() implies s.contains(
            #[trigger] sort_spec(s, side)[k],
        ) by {
            let y = sort_spec(s, side)[k];
            if y == s.last() {
                assert(s[s.len() - 1] == y);
            } else {
                let j = choose|j: int| 0 <= j < sp.len() && sp[j] == y;
                assert(p.contains(sp[j]));
                let i = choose|i: int| 0 <= i < p.len() && p[i] == y;
                assert(s[i] == y);
            }
        }
    }
}

proof fn lemma_loop_fills(
    bb: Seq<TradeOrder>,
    ss: Seq<TradeOrder>,
    b: Seq<TradeOrder>,
    s: Seq<TradeOrder>,
    bi: nat,
    si: nat,
)
    requires
        b.len() == bb.len(),
        s.len() == ss.len(),
        forall|i: int| 0 <= i < b.len() ==> same_terms(#[trigger] b[i], bb[i]),
        forall|i: int| 0 <= i < s.len() ==> same_terms(#[trigger] s[i], ss[i]),
        forall|i: int| 0 <= i < b.len() ==> settled(#[trigger] b[i], bb[i]),
        forall|i: int| 0 <= i < s.len() ==> settled(#[trigger] s[i], ss[i]),
    ensures
        ({
            let m = match_loop(b, s, bi, si);
            &&& forall|k: int| 0 <= k < m.2.len() ==> fill_respects_book(#[trigger] m.2[k], bb, ss)
            &&& m.0.len() == bb.len()
            &&& m.1.len() == ss.len()
            &&& forall|i: int| 0 <= i < bb.len() ==> settled(#[trigger] m.0[i], bb[i])
            &&& forall|i: int| 0 <= i < ss.len() ==> settled(#[trigger] m.1[i], ss[i])
            &&& forall|i: int| 0 <= i < bb.len() ==> same_terms(#[trigger] m.0[i], bb[i])
            &&& forall|i: int| 0 <= i < ss.len() ==> same_terms(#[trigger] m.1[i], ss[i])
        }),
    decreases (b.len() - bi) + (s.len() - si),
{
    if bi >= b.len() || si >= s.len() || units(b[bi as int].price) < units(s[si as int].price) {
    } else if b[bi as int].player_id == s[si as int].player_id {
        lemma_loop_fills(bb, ss, b, s, bi, si + 1);
    } else {
        let buy = b[bi as int];
        let sell = s[si as int];
        let t = fill_of(buy, sell);
        let nb = after_fill(buy, t.quantity);
        let ns = after_fill(sell, t.quantity);
        let b2 = b.update(bi as int, nb);
        let s2 = s.update(si as int, ns);
        assert(fill_between(t, bb[bi as int], ss[si as int]));
        assert(fill_respects_book(t, bb, ss));
        assert forall|i: int| 0 <= i < b2.len() implies same_terms(#[trigger] b2[i], bb[i])
            && settled(b2[i], bb[i]) by {
            if i != bi {
                assert(b2[i] == b[i]);
            }
        }
        assert forall|i: int| 0 <= i < s2.len() implies same_terms(#[trigger] s2[i], ss[i])
            && settled(s2[i], ss[i]) by {
            if i != si {
                assert(s2[i] == s[i]);
            }
        }
        if nb.quantity.mantissa != 0 && ns.quantity.mantissa != 0 {
            let m = match_loop(b, s, bi, si);
            assert forall|k: int| 0 <= k < m.2.len() implies fill_respects_book(
                #[trigger] m.2[k],
                bb,
                ss,
            ) by {
                assert(m.2[k] == t);
            }
        } else {
            let bi2 = if nb.quantity.mantissa == 0 {
                bi + 1
            } else {
                bi
            };
            let si2 = if ns.quantity.mantissa == 0 {
                si + 1
            } else {
                si
            };
            lemma_loop_fills(bb, ss, b2, s2, bi2, si2);
            let rest = match_loop(b2, s2, bi2, si2);
            let m = match_loop(b, s, bi, si);
            assert(m.2 == seq![t] + rest.2);
            assert forall|k: int| 0 <= k < m.2.len() implies fill_respects_book(
                #[trigger] m.2[k],
                bb,
                ss,
            ) by {
                if k > 0 {
                    assert(m.2[k] == rest.2[k - 1]);
                }
            }
        }
    }
}

/// Every fill of the matching engine is between a buy order and a sell
/// order of the book, of two different players (no self-trading), with the
/// bid at least the ask, at the price of the older order (the maker); and
/// every order of the resulting books is either untouched or marked
/// `Filled` exactly when nothing of it remains (`PartiallyFilled` otherwise).
pub proof fn law_fills_cross_at_maker_price(buys: Seq<TradeOrder>, sells: Seq<TradeOrder>)
    ensures
        ({
            let m = match_spec(buys, sells);
            let sb = sort_spec(buys, OrderType::Buy);
            let ss = sort_spec(sells, OrderType::Sell);
            &&& forall|k: int| 0 <= k < m.2.len() ==> fill_respects_book(#[trigger] m.2[k], buys, sells)
            &&& m.0.len() == buys.len()
            &&& m.1.len() == sells.len()
            &&& forall|i: int| 0 <= i < buys.len() ==> settled(#[trigger] m.0[i], sb[i])
            &&& forall|i: int| 0 <= i < sells.len() ==> settled(#[trigger] m.1[i], ss[i])
        }),
{
    let sb = sort_spec(buys, OrderType::Buy);
    let ss = sort_spec(sells, OrderType::Sell);
    lemma_sort_contains(buys, OrderType::Buy);
    lemma_sort_contains(sells, OrderType::Sell);
    lemma_loop_fills(sb, ss, sb, ss, 0, 0);
    let m = match_spec(buys, sells);
    assert forall|k: int| 0 <= k < m.2.len() implies fill_respects_book(
        #[trigger] m.2[k],
        buys,
        sells,
    ) by {
        let t = m.2[k];
        assert(fill_respects_book(t, sb, ss));
        let (i, j) = choose|i: int, j: int|
            0 <= i < sb.len() && 0 <= j < ss.len() && fill_between(t, #[trigger] sb[i], #[trigger] ss[j]);
        assert(buys.contains(sb[i]));
        assert(sells.contains(ss[j]));
        let i2 = choose|i2: int| 0 <= i2 < buys.len() && buys[i2] == sb[i];
        let j2 = choose|j2: int| 0 <= j2 < sells.len() && sells[j2] == ss[j];
        assert(fill_between(t, buys[i2], sells[j2]));
    }
}

// ── Conservation of quantity ───────────────────────────────────────────────
/// The remaining quantities of a sequence of orders, added up, in units.
pub open spec fn quantity_total(s: Seq<TradeOrder>) -> int
    decreases s.len(),
{
    if s.len() == 0 {
        0
    } else {
        quantity_total(s.drop_last()) + units(s.last().quantity)
    }
}

/// The traded quantities of a sequence of fills, added up, in units.
pub open spec fn traded_total(ts: Seq<Transaction>) -> int
    decreases ts.len(),
{
    if ts.len() == 0 {
        0
    } else {
        units(ts[0].quantity) + traded_total(ts.drop_first())
    }
}

proof fn lemma_total_prepend(a: TradeOrder, t: Seq<TradeOrder>)
    ensures
        quantity_total(seq![a] + t) == units(a.quantity) + quantity_total(t),
    decreases t.len(),
{
    if t.len() > 0 {
        lemma_total_prepend(a, t.drop_last());
        assert((seq![a] + t).drop_last() =~= seq![a] + t.drop_last());
        assert((seq![a] + t).last() == t.last());
    } else {
        assert(seq![a] + t =~= seq![a]);
        assert(seq![a].drop_last() =~= Seq::<TradeOrder>::empty());
        assert(seq![a].last() == a);
        assert(quantity_total(Seq::<TradeOrder>::empty()) == 0);
    }
}

proof fn lemma_total_insert(r: Seq<TradeOrder>, x: TradeOrder, side: OrderType)
    ensures
        quantity_total(insert_spec(r, x, side)) == quantity_total(r) + units(x.quantity),
    decreases r.len(),
{
    if r.len() == 0 {
        lemma_total_prepend(x, r);
        assert(seq![x] + r =~= seq![x]);
    } else if order_after(side, r[0], x) {
        lemma_total_prepend(x, r);
    } else {
        lemma_total_insert(r.drop_first(), x, side);
        lemma_total_prepend(r[0], insert_spec(r.drop_first(), x, side));
        lemma_total_prepend(r[0], r.drop_first());
        assert(seq![r[0]] + r.drop_first() =~= r);
    }
}

proof fn lemma_total_sort(s: Seq<TradeOrder>, side: OrderType)
    ensures
        quantity_total(sort_spec(s, side)) == quantity_total(s),
    decreases s.len(),
{
    if s.len() > 0 {
        lemma_total_sort(s.drop_last(), side);
        lemma_total_insert(sort_spec(s.drop_last(), side), s.last(), side);
    }
}

proof fn lemma_total_update(s: Seq<TradeOrder>, i: int, o: TradeOrder)
    requires
        0 <= i < s.len(),
    ensures
        quantity_total(s.update(i, o)) == quantity_total(s) - units(s[i].quantity) + units(
            o.quantity,
        ),
    decreases s.len(),
{
    let t = s.update(i, o);
    if i == s.len() - 1 {
        assert(t.drop_last() =~= s.drop_last());
    } else {
        lemma_total_update(s.drop_last(), i, o);
        assert(t.drop_last() =~= s.drop_last().update(i, o));
    }
}

/// Every quantity subtraction of the matching loop from `bi`/`si` is exact:
/// what remains of each order is its quantity less the fill, with no
/// rounding of the decimal difference.
pub open spec fn loop_exact(b: Seq<TradeOrder>, s: Seq<TradeOrder>, bi: nat, si: nat) -> bool
    decreases (b.len() - bi) + (s.len() - si),
{
    if bi >= b.len() || si >= s.len() || units(b[bi as int].price) < units(s[si as int].price) {
        true
    } else if b[bi as int].player_id == s[si as int].player_id {
        loop_exact(b, s, bi, si + 1)
    } else {
        let buy = b[bi as int];
        let sell = s[si as int];
        let f = fill_of(buy, sell).quantity;
        let nb = after_fill(buy, f);
        let ns = after_fill(sell, f);
        &&& units(nb.quantity) == units(buy.quantity) - units(f)
        &&& units(ns.quantity) == units(sell.quantity) - units(f)
        &&& (nb.quantity.mantissa != 0 && ns.quantity.mantissa != 0 || {
            let bi2 = if nb.quantity.mantissa == 0 {
                bi + 1
            } else {
                bi
            };
            let si2 = if ns.quantity.mantissa == 0 {
                si + 1
            } else {
                si
            };
            loop_exact(b.update(bi as int, nb), s.update(si as int, ns), bi2, si2)
        })
    }
}

/// No quantity subtraction of the matching of `buys` and `sells` rounds.
pub open spec fn match_exact(buys: Seq<TradeOrder>, sells: Seq<TradeOrder>) -> bool {
    loop_exact(sort_spec(buys, OrderType::Buy), sort_spec(sells, OrderType::Sell), 0, 0)
}

proof fn lemma_loop_conserves(b: Seq<TradeOrder>, s: Seq<TradeOrder>, bi: nat, si: nat)
    requires
        loop_exact(b, s, bi, si),
    ensures
        ({
            let r = match_loop(b, s, bi, si);
            &&& quantity_total(r.0) + traded_total(r.2) == quantity_total(b)
            &&& quantity_total(r.1) + traded_total(r.2) == quantity_total(s)
        }),
    decreases (b.len() - bi) + (s.len() - si),
{
    if bi >= b.len() || si >= s.len() || units(b[bi as int].price) < units(s[si as int].price) {
    } else if b[bi as int].player_id == s[si as int].player_id {
        lemma_loop_conserves(b, s, bi, si + 1);
    } else {
        let buy = b[bi as int];
        let sell = s[si as int];
        let t = fill_of(buy, sell);
        let f = t.quantity;
        let nb = after_fill(buy, f);
        let ns = after_fill(sell, f);
        let b2 = b.update(bi as int, nb);
        let s2 = s.update(si as int, ns);
        lemma_total_update(b, bi as int, nb);
        lemma_total_update(s, si as int, ns);
        assert(traded_total(seq![t]) == units(f)) by {
            assert(seq![t].drop_first() =~= Seq::<Transaction>::empty());
            assert(seq![t][0] == t);
            assert(traded_total(Seq::<Transaction>::empty()) == 0);
        }
        if nb.quantity.mantissa != 0 && ns.quantity.mantissa != 0 {
        } else {
            let bi2 = if nb.quantity.mantissa == 0 {
                bi + 1
            } else {
                bi
            };
            let si2 = if ns.quantity.mantissa == 0 {
                si + 1
            } else {
                si
            };
            lemma_loop_conserves(b2, s2, bi2, si2);
            let rest = match_loop(b2, s2, bi2, si2);
            assert((seq![t] + rest.2).drop_first() =~= rest.2);
            assert((seq![t] + rest.2)[0] == t);
        }
    }
}

/// Matching conserves quantity: what the fills trade, added up, is exactly
/// what leaves each side of the book, whenever no decimal subtraction of the
/// matching rounds.
pub proof fn law_matching_conserves_quantity(buys: Seq<TradeOrder>, sells: Seq<TradeOrder>)
    requires
        match_exact(buys, sells),
    ensures
        ({
            let m = match_spec(buys, sells);
            &&& quantity_total(m.0) + traded_total(m.2) == quantity_total(buys)
            &&& quantity_total(m.1) + traded_total(m.2) == quantity_total(sells)
        }),
{
    lemma_total_sort(buys, OrderType::Buy);
    lemma_total_sort(sells, OrderType::Sell);
    lemma_loop_conserves(sort_spec(buys, OrderType::Buy), sort_spec(sells, OrderType::Sell), 0, 0);
}

proof fn lemma_loop_last_price(b: Seq<TradeOrder>, s: Seq<TradeOrder>, bi: nat, si: nat)
    ensures
        ({
            let m = match_loop(b, s, bi, si);
            &&& (m.2.len() == 0 <==> m.3 is None)
            &&& m.2.len() > 0 ==> m.3 == Some(m.2[m.2.len() - 1].price)
        }),
    decreases (b.len() - bi) + (s.len() - si),
{
    if bi >= b.len() || si >= s.len() || units(b[bi as int].price) < units(s[si as int].price) {
    } else if b[bi as int].player_id == s[si as int].player_id {
        lemma_loop_last_price(b, s, bi, si + 1);
    } else {
        let buy = b[bi as int];
        let sell = s[si as int];
        let t = fill_of(buy, sell);
        let nb = after_fill(buy, t.quantity);
        let ns = after_fill(sell, t.quantity);
        if nb.quantity.mantissa != 0 && ns.quantity.mantissa != 0 {
        } else {
            let bi2 = if nb.quantity.mantissa == 0 {
                bi + 1
            } else {
                bi
            };
            let si2 = if ns.quantity.mantissa == 0 {
                si + 1
            } else {
                si
            };
            lemma_loop_last_price(b.update(bi as int, nb), s.update(si as int, ns), bi2, si2);
            let rest = match_loop(b.update(bi as int, nb), s.update(si as int, ns), bi2, si2);
            let all = seq![t] + rest.2;
            assert(all[0] == t);
            if rest.2.len() > 0 {
                assert(all[all.len() - 1] == rest.2[rest.2.len() - 1]);
            }
        }
    }
}

/// The last price that matching reports is the price of its last fill, in
/// the order the fills are made; there is none exactly when nothing trades.
pub proof fn law_last_price_is_the_last_fills(buys: Seq<TradeOrder>, sells: Seq<TradeOrder>)
    ensures
        ({
            let m = match_spec(buys, sells);
            &&& (m.2.len() == 0 <==> m.3 is None)
            &&& m.2.len() > 0 ==> m.3 == Some(m.2[m.2.len() - 1].price)
        }),
{
    lemma_loop_last_price(sort_spec(buys, OrderType::Buy), sort_spec(sells, OrderType::Sell), 0, 0);
}

} // verus!
