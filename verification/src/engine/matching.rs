//! Order-book matching engine.
//!
//! Price-time priority:
//!   1. buy orders sorted by price descending, then time ascending (highest bid first);
//!   2. sell orders sorted by price ascending, then time ascending (lowest ask first);
//!   3. a match occurs while the best bid is at least the best ask;
//!   4. the execution price is the older order's price (the maker gets their price).
//!
//! The engine is stateless: it takes the two sides of one resource's book and
//! returns the fills together with the orders whose state changed.
use vstd::prelude::*;

use crate::decimal::{
    abs, lemma_pow10_values, lemma_units_of_zero, max_nat, mul_spec, pow10, product_safe,
    sub_spec, units, within, wf, Comparison, Decimal, MANTISSA_LIMIT,
};
use crate::models::{
    current_time, fresh_id, time_le, time_lt, OrderStatus, OrderType, Timestamp, TradeOrder,
    Transaction,
};

verus! {

pub struct MatchingEngine;

/// Result of running the matching engine on a resource's order book.
pub struct MatchResult {
    /// Newly created transactions (fills).
    pub transactions: Vec<Transaction>,
    /// Orders whose status or quantity changed.
    pub updated_orders: Vec<TradeOrder>,
    /// The last execution price, if any trade occurred.
    pub last_price: Option<Decimal>,
}

// ── Ordering of the book ───────────────────────────────────────────────────
/// `a` sorts strictly after `b` on the given side of the book: on the buy
/// side by price descending, on the sell side by price ascending; equal
/// prices by creation time ascending.
pub open spec fn order_after(side: OrderType, a: TradeOrder, b: TradeOrder) -> bool {
    match side {
        OrderType::Buy => units(a.price) < units(b.price) || (units(a.price) == units(b.price)
            && time_lt(b.created_at, a.created_at)),
        OrderType::Sell => units(a.price) > units(b.price) || (units(a.price) == units(b.price)
            && time_lt(b.created_at, a.created_at)),
    }
}

/// Inserts `x` into the sorted sequence `r` before the first element that
/// sorts after it (so after all elements equal to it).
pub open spec fn insert_spec(r: Seq<TradeOrder>, x: TradeOrder, side: OrderType) -> Seq<
    TradeOrder,
>
    decreases r.len(),
{
    if r.len() == 0 {
        seq![x]
    } else if order_after(side, r[0], x) {
        seq![x] + r
    } else {
        seq![r[0]] + insert_spec(r.drop_first(), x, side)
    }
}

/// The stable sort of a book side: insertion of each order in turn.
pub open spec fn sort_spec(s: Seq<TradeOrder>, side: OrderType) -> Seq<TradeOrder>
    decreases s.len(),
{
    if s.len() == 0 {
        s
    } else {
        insert_spec(sort_spec(s.drop_last(), side), s.last(), side)
    }
}

/// A book side is sorted: no order sorts after a later one.
pub open spec fn is_sorted(s: Seq<TradeOrder>, side: OrderType) -> bool {
    forall|i: int, j: int| 0 <= i < j < s.len() ==> !order_after(side, #[trigger] s[i], #[trigger] s[j])
}

// ── The matching loop ──────────────────────────────────────────────────────
/// The transaction that the fill of `buy` against `sell` records (its
/// identifier and execution time are fresh values, left at zero here).
pub open spec fn fill_of(buy: TradeOrder, sell: TradeOrder) -> Transaction {
    let price = if time_le(buy.created_at, sell.created_at) {
        buy.price
    } else {
        sell.price
    };
    let qty = if units(sell.quantity) < units(buy.quantity) {
        sell.quantity
    } else {
        buy.quantity
    };
    Transaction {
        id: 0,
        buy_order_id: buy.id,
        sell_order_id: sell.id,
        resource_id: buy.resource_id,
        buyer_id: buy.player_id,
        seller_id: sell.player_id,
        price: price,
        quantity: qty,
        total_value: mul_spec(price, qty),
        executed_at: Timestamp { secs: 0, nanos: 0 },
    }
}

/// `o` after `fill` units of it were traded.
pub open spec fn after_fill(o: TradeOrder, fill: Decimal) -> TradeOrder {
    let q = sub_spec(o.quantity, fill);
    TradeOrder {
        quantity: q,
        status: if q.mantissa == 0 {
            OrderStatus::Filled
        } else {
            OrderStatus::PartiallyFilled
        },
        ..o
    }
}

/// Two transactions record the same trade (identifiers and execution times
/// aside).
pub open spec fn same_trade(t: Transaction, u: Transaction) -> bool {
    &&& t.buy_order_id == u.buy_order_id
    &&& t.sell_order_id == u.sell_order_id
    &&& t.resource_id == u.resource_id
    &&& t.buyer_id == u.buyer_id
    &&& t.seller_id == u.seller_id
    &&& t.price == u.price
    &&& t.quantity == u.quantity
    &&& t.total_value == u.total_value
}

/// The last price of a run: the later of the two if any.
pub open spec fn latest(first: Option<Decimal>, then: Option<Decimal>) -> Option<Decimal> {
    if then is Some {
        then
    } else {
        first
    }
}

/// The matching loop from buy position `bi` and sell position `si`: the final
/// books, the fills in order and the last execution price.
pub open spec fn match_loop(b: Seq<TradeOrder>, s: Seq<TradeOrder>, bi: nat, si: nat) -> (
    Seq<TradeOrder>,
    Seq<TradeOrder>,
    Seq<Transaction>,
    Option<Decimal>,
)
    decreases (b.len() - bi) + (s.len() - si),
{
    if bi >= b.len() || si >= s.len() || units(b[bi as int].price) < units(s[si as int].price) {
        (b, s, Seq::empty(), None)
    } else if b[bi as int].player_id == s[si as int].player_id {
        // No self-trading: skip the sell order.
        match_loop(b, s, bi, si + 1)
    } else {
        let buy = b[bi as int];
        let sell = s[si as int];
        let t = fill_of(buy, sell);
        let nb = after_fill(buy, t.quantity);
        let ns = after_fill(sell, t.quantity);
        if nb.quantity.mantissa != 0 && ns.quantity.mantissa != 0 {
            // Unreachable for books in range: the smaller side is always used up.
            (b.update(bi as int, nb), s.update(si as int, ns), seq![t], Some(t.price))
        } else {
            let bi2 = if nb.quantity.mantissa == 0 {
                bi + 1
            } else {
                bi
            };
            let si2 = if ns.quantity.mantissa == 0 {
                si + 1
            } else {
                si
            };
            let rest = match_loop(b.update(bi as int, nb), s.update(si as int, ns), bi2, si2);
            (rest.0, rest.1, seq![t] + rest.2, latest(Some(t.price), rest.3))
        }
    }
}

/// The orders of a sequence that are no longer open, in order.
pub open spec fn changed_orders(s: Seq<TradeOrder>) -> Seq<TradeOrder>
    decreases s.len(),
{
    if s.len() == 0 {
        Seq::empty()
    } else if s.last().status != OrderStatus::Open {
        changed_orders(s.drop_last()).push(s.last())
    } else {
        changed_orders(s.drop_last())
    }
}

/// The full outcome of matching the books `buys` and `sells`.
pub open spec fn match_spec(buys: Seq<TradeOrder>, sells: Seq<TradeOrder>) -> (
    Seq<TradeOrder>,
    Seq<TradeOrder>,
    Seq<Transaction>,
    Option<Decimal>,
) {
    match_loop(sort_spec(buys, OrderType::Buy), sort_spec(sells, OrderType::Sell), 0, 0)
}

// ── When matching cannot overflow ──────────────────────────────────────────
/// Half the decimal range, 2^94: two amounts of at most this magnitude add
/// and subtract without overflow.
pub open spec fn sum_limit() -> int {
    19807040628566084398385987584
}

/// `a + b` and `a - b` stay within the decimal range: both are at most half
/// of it.
pub open spec fn sum_ok(a: Decimal, b: Decimal) -> bool {
    within(a, sum_limit()) && within(b, sum_limit())
}

/// An order's price and quantity are representable decimals.
pub open spec fn order_wf(o: TradeOrder) -> bool {
    wf(o.price) && wf(o.quantity)
}

/// Every order of both sides is representable.
pub open spec fn book_wf(buys: Seq<TradeOrder>, sells: Seq<TradeOrder>) -> bool {
    &&& forall|i: int| 0 <= i < buys.len() ==> order_wf(#[trigger] buys[i])
    &&& forall|i: int| 0 <= i < sells.len() ==> order_wf(#[trigger] sells[i])
}

/// The fill of `buy` against `sell` computes without overflow: its value
/// fits, and both remaining quantities are within half the range.
pub open spec fn step_ok(buy: TradeOrder, sell: TradeOrder) -> bool {
    let t = fill_of(buy, sell);
    &&& product_safe(t.price, t.quantity)
    &&& sum_ok(buy.quantity, sell.quantity)
}

/// Every fill of the matching loop from `bi`/`si` computes without overflow.
pub open spec fn loop_ok(b: Seq<TradeOrder>, s: Seq<TradeOrder>, bi: nat, si: nat) -> bool
    decreases (b.len() - bi) + (s.len() - si),
{
    if bi >= b.len() || si >= s.len() || units(b[bi as int].price) < units(s[si as int].price) {
        true
    } else if b[bi as int].player_id == s[si as int].player_id {
        loop_ok(b, s, bi, si + 1)
    } else {
        let buy = b[bi as int];
        let sell = s[si as int];
        let t = fill_of(buy, sell);
        let nb = after_fill(buy, t.quantity);
        let ns = after_fill(sell, t.quantity);
        &&& step_ok(buy, sell)
        &&& (nb.quantity.mantissa != 0 && ns.quantity.mantissa != 0 || {
            let bi2 = if nb.quantity.mantissa == 0 {
                bi + 1
            } else {
                bi
            };
            let si2 = if ns.quantity.mantissa == 0 {
                si + 1
            } else {
                si
            };
            loop_ok(b.update(bi as int, nb), s.update(si as int, ns), bi2, si2)
        })
    }
}

/// Matching the books `buys` and `sells` computes without overflow: every
/// fill value is at most 2^95 and every quantity that a fill is taken from
/// at most 2^94.  This rules out every book on which a fill value would
/// overflow the decimal range (2^96), and the books that come within a
/// factor of two of it in a fill value or of four in a quantity.
pub open spec fn match_safe(buys: Seq<TradeOrder>, sells: Seq<TradeOrder>) -> bool {
    loop_ok(sort_spec(buys, OrderType::Buy), sort_spec(sells, OrderType::Sell), 0, 0)
}

// ── Lemmas ─────────────────────────────────────────────────────────────────
proof fn lemma_insert_at(r: Seq<TradeOrder>, x: TradeOrder, side: OrderType, pos: int)
    requires
        0 <= pos <= r.len(),
        forall|j: int| 0 <= j < pos ==> !order_after(side, #[trigger] r[j], x),
        pos < r.len() ==> order_after(side, r[pos], x),
    ensures
        insert_spec(r, x, side) == r.insert(pos, x),
    decreases pos,
{
    if pos == 0 {
        if r.len() == 0 {
            assert(r.insert(0, x) =~= seq![x]);
        } else {
            assert(r.insert(0, x) =~= seq![x] + r);
        }
    } else {
        let t = r.drop_first();
        assert forall|j: int| 0 <= j < pos - 1 implies !order_after(side, #[trigger] t[j], x) by {
            assert(t[j] == r[j + 1]);
        }
        lemma_insert_at(t, x, side, pos - 1);
        assert(!order_after(side, r[0], x));
        assert(seq![r[0]] + t.insert(pos - 1, x) =~= r.insert(pos, x));
    }
}

/// Inserting an order adds it and keeps every other order.
pub(crate) proof fn lemma_insert_props(r: Seq<TradeOrder>, x: TradeOrder, side: OrderType)
    ensures
        insert_spec(r, x, side).len() == r.len() + 1,
        forall|k: int|
            0 <= k < r.len() + 1 ==> #[trigger] insert_spec(r, x, side)[k] == x || r.contains(
                insert_spec(r, x, side)[k],
            ),
    decreases r.len(),
{
    let ins = insert_spec(r, x, side);
    if r.len() == 0 {
    } else if order_after(side, r[0], x) {
        assert forall|k: int| 0 <= k < r.len() + 1 implies #[trigger] ins[k] == x || r.contains(
            ins[k],
        ) by {
            if k > 0 {
                assert(ins[k] == r[k - 1]);
            }
        }
    } else {
        let t = r.drop_first();
        lemma_insert_props(t, x, side);
        assert(seq![r[0]] + t =~= r);
        assert forall|k: int| 0 <= k < r.len() + 1 implies #[trigger] ins[k] == x || r.contains(
            ins[k],
        ) by {
            if k > 0 {
                let y = insert_spec(t, x, side)[k - 1];
                assert(ins[k] == y);
                if y != x {
                    let j = choose|j: int| 0 <= j < t.len() && t[j] == y;
                    assert(r[j + 1] == y);
                }
            } else {
                assert(r[0] == r[0]);
            }
        }
    }
}

/// Sorting keeps the length and the orders of a side.
pub(crate) proof fn lemma_sort_props(s: Seq<TradeOrder>, side: OrderType)
    ensures
        sort_spec(s, side).len() == s.len(),
        forall|k: int| 0 <= k < s.len() ==> s.contains(#[trigger] sort_spec(s, side)[k]),
    decreases s.len(),
{
    if s.len() > 0 {
        let p = s.drop_last();
        lemma_sort_props(p, side);
        let sp = sort_spec(p, side);
        lemma_insert_props(sp, s.last(), side);
        assert forall|k: int| 0 <= k < s.len() implies s.contains(
            #[trigger] sort_spec(s, side)[k],
        ) by {
            let y = sort_spec(s, side)[k];
            if y == s.last() {
                assert(s[s.len() - 1] == y);
            } else {
                assert(sp.contains(y));
                let j = choose|j: int| 0 <= j < sp.len() && sp[j] == y;
                assert(p.contains(sp[j]));
                let i = choose|i: int| 0 <= i < p.len() && p[i] == y;
                assert(s[i] == y);
            }
        }
    }
}

// ── Executable engine ──────────────────────────────────────────────────────
/// Whether `a` sorts strictly after `b` on `side`.
fn sorts_after(side: OrderType, a: &TradeOrder, b: &TradeOrder) -> (r: bool)
    requires
        wf(a.price),
        wf(b.price),
    ensures
        r == order_after(side, *a, *b),
{
    let c = a.price.compare(&b.price);
    let later = b.created_at.earlier_than(&a.created_at);
    match side {
        OrderType::Buy => c == Comparison::Less || (c == Comparison::Equal && later),
        OrderType::Sell => c == Comparison::Greater || (c == Comparison::Equal && later),
    }
}

/// The stable sort of one side of the book.
/// A copy of `orders`.
fn copy_orders(orders: &Vec<TradeOrder>) -> (r: Vec<TradeOrder>)
    ensures
        r@ == orders@,
{
    let mut r: Vec<TradeOrder> = Vec::new();
    let mut i: usize = 0;
    while i < orders.len()
        invariant
            i <= orders@.len(),
            r@ == orders@.take(i as int),
        decreases orders@.len() - i,
    {
        r.push(orders[i]);
        i = i + 1;
        proof {
            assert(r@ =~= orders@.take(i as int));
        }
    }
    proof {
        assert(orders@.take(orders@.len() as int) =~= orders@);
    }
    r
}

fn sort_book(orders: &Vec<TradeOrder>, side: OrderType) -> (r: Vec<TradeOrder>)
    requires
        forall|i: int| 0 <= i < orders.len() ==> wf(#[trigger] orders[i].price),
    ensures
        r@ == sort_spec(orders@, side),
{
    let mut r: Vec<TradeOrder> = Vec::new();
    let mut i: usize = 0;
    while i < orders.len()
        invariant
            i <= orders.len(),
            forall|k: int| 0 <= k < orders.len() ==> wf(#[trigger] orders[k].price),
            r@ == sort_spec(orders@.take(i as int), side),
            forall|k: int| 0 <= k < r.len() ==> wf(#[trigger] r[k].price),
        decreases orders.len() - i,
    {
        let x = orders[i];
        let mut pos: usize = 0;
        while pos < r.len() && !sorts_after(side, &r[pos], &x)
            invariant
                pos <= r.len(),
                wf(x.price),
                forall|k: int| 0 <= k < r.len() ==> wf(#[trigger] r[k].price),
                forall|j: int| 0 <= j < pos ==> !order_after(side, #[trigger] r@[j], x),
            decreases r.len() - pos,
        {
            pos = pos + 1;
        }
        proof {
            lemma_insert_at(r@, x, side, pos as int);
            assert(orders@.take(i as int + 1).drop_last() =~= orders@.take(i as int));
        }
        r.insert(pos, x);
        i = i + 1;
        proof {
            assert forall|k: int| 0 <= k < r.len() implies wf(#[trigger] r[k].price) by {
                if k < pos {
                } else if k > pos {
                } else {
                }
            }
        }
    }
    proof {
        assert(orders@.take(orders.len() as int) =~= orders@);
    }
    r
}

/// The orders of `s` that are no longer open, appended to `out`.
fn collect_changed(s: &Vec<TradeOrder>, out: &mut Vec<TradeOrder>)
    ensures
        final(out)@ == old(out)@ + changed_orders(s@),
{
    let mut i: usize = 0;
    while i < s.len()
        invariant
            i <= s.len(),
            out@ == old(out)@ + changed_orders(s@.take(i as int)),
        decreases s.len() - i,
    {
        proof {
            assert(s@.take(i as int + 1).drop_last() =~= s@.take(i as int));
            assert(s@.take(i as int + 1).last() == s@[i as int]);
        }
        if s[i].status != OrderStatus::Open {
            out.push(s[i]);
        }
        i = i + 1;
    }
    proof {
        assert(s@.take(s.len() as int) =~= s@);
    }
}

/// Subtracting a decimal from itself is exact.
proof fn lemma_self_sub_fits(a: Decimal)
    requires
        wf(a),
    ensures
        crate::decimal::aligned_fits(a, a, 0),
{
    let k = pow10((28 - a.scale) as nat);
    assert(max_nat(a.scale as nat, a.scale as nat) == a.scale as nat);
    crate::decimal::lemma_pow10_positive((28 - a.scale) as nat);
    assert(abs(units(a)) <= MANTISSA_LIMIT * k) by (nonlinear_arith)
        requires
            units(a) == a.mantissa * k,
            abs(a.mantissa as int) <= MANTISSA_LIMIT,
            k >= 1,
    ;
    assert(0 <= MANTISSA_LIMIT * k) by (nonlinear_arith)
        requires
            k >= 1,
    ;
}

/// Amounts within half the range add and subtract without overflow.
proof fn lemma_sum_ok_safe(a: Decimal, b: Decimal)
    requires
        sum_ok(a, b),
    ensures
        crate::decimal::sum_safe(a, b),
        crate::decimal::sum_safe(b, b),
{
    lemma_pow10_values();
}

/// Sorting keeps every order of a representable book.
proof fn lemma_sort_wf(b: Seq<TradeOrder>, s: Seq<TradeOrder>)
    requires
        book_wf(b, s),
    ensures
        book_wf(sort_spec(b, OrderType::Buy), sort_spec(s, OrderType::Sell)),
        sort_spec(b, OrderType::Buy).len() == b.len(),
        sort_spec(s, OrderType::Sell).len() == s.len(),
{
    lemma_sort_props(b, OrderType::Buy);
    lemma_sort_props(s, OrderType::Sell);
    let sb = sort_spec(b, OrderType::Buy);
    let ss = sort_spec(s, OrderType::Sell);
    assert forall|i: int| 0 <= i < sb.len() implies order_wf(#[trigger] sb[i]) by {
        assert(b.contains(sb[i]));
    }
    assert forall|i: int| 0 <= i < ss.len() implies order_wf(#[trigger] ss[i]) by {
        assert(s.contains(ss[i]));
    }
}

/// The amounts of a fill are representable.
pub open spec fn fill_wf(t: Transaction) -> bool {
    wf(t.price) && wf(t.quantity) && wf(t.total_value)
}

impl MatchingEngine {
    /// Matches all open orders of one resource, when that computes without
    /// overflow (`match_safe`): both sides are sorted by price-time priority
    /// and the sorted and filled sides are left in `buys` and `sells`.  On
    /// a book where a fill would overflow, `None`, with both sides as they
    /// were.
    pub fn try_match(buys: &mut Vec<TradeOrder>, sells: &mut Vec<TradeOrder>) -> (r: Option<
        MatchResult,
    >)
        requires
            book_wf(old(buys)@, old(sells)@),
        ensures
            r is Some <==> match_safe(old(buys)@, old(sells)@),
            r matches Some(res) ==> {
                let m = match_spec(old(buys)@, old(sells)@);
                &&& final(buys)@ == m.0
                &&& final(sells)@ == m.1
                &&& res.transactions.len() == m.2.len()
                &&& forall|i: int|
                    0 <= i < m.2.len() ==> same_trade(#[trigger] res.transactions@[i], m.2[i])
                &&& res.updated_orders@ == changed_orders(m.0) + changed_orders(m.1)
                &&& res.last_price == m.3
                &&& book_wf(final(buys)@, final(sells)@)
                &&& res.transactions.len() <= old(buys).len() + old(sells).len()
                &&& forall|i: int|
                    0 <= i < res.transactions.len() ==> fill_wf(#[trigger] res.transactions@[i])
                &&& res.last_price matches Some(p) ==> wf(p)
                &&& res.transactions.len() == 0 <==> res.last_price is None
                &&& res.transactions.len() > 0 ==> res.last_price == Some(
                    res.transactions@[res.transactions.len() - 1].price,
                )
            },
            r is None ==> final(buys)@ == old(buys)@ && final(sells)@ == old(sells)@,
    {
        let ghost b0 = buys@;
        let ghost s0 = sells@;
        proof {
            lemma_sort_wf(b0, s0);
            crate::engine::matching_laws::law_last_price_is_the_last_fills(b0, s0);
        }
        let orig_buys = copy_orders(buys);
        let orig_sells = copy_orders(sells);
        let sorted_buys = sort_book(buys, OrderType::Buy);
        let sorted_sells = sort_book(sells, OrderType::Sell);
        *buys = sorted_buys;
        *sells = sorted_sells;
        let ghost target = match_loop(buys@, sells@, 0, 0);
        let ghost safe = loop_ok(buys@, sells@, 0, 0);
        let mut transactions: Vec<Transaction> = Vec::new();
        let mut last_price: Option<Decimal> = None;
        let mut buy_idx: usize = 0;
        let mut sell_idx: usize = 0;
        while buy_idx < buys.len() && sell_idx < sells.len()
            invariant_except_break
                buy_idx <= buys.len(),
                sell_idx <= sells.len(),
                book_wf(buys@, sells@),
                buys.len() == b0.len(),
                sells.len() == s0.len(),
                safe == match_safe(b0, s0),
                b0 == old(buys)@,
                s0 == old(sells)@,
                orig_buys@ == b0,
                orig_sells@ == s0,
                safe == loop_ok(buys@, sells@, buy_idx as nat, sell_idx as nat),
                transactions.len() <= buy_idx + sell_idx,
                forall|i: int| 0 <= i < transactions.len() ==> fill_wf(#[trigger] transactions@[i]),
                last_price matches Some(p) ==> wf(p),
                ({
                    let rest = match_loop(buys@, sells@, buy_idx as nat, sell_idx as nat);
                    &&& rest.0 == target.0
                    &&& rest.1 == target.1
                    &&& transactions.len() + rest.2.len() == target.2.len()
                    &&& forall|i: int|
                        0 <= i < transactions.len() ==> same_trade(
                            #[trigger] transactions@[i],
                            target.2[i],
                        )
                    &&& forall|i: int|
                        0 <= i < rest.2.len() ==> target.2[transactions.len() + i] == rest.2[i]
                    &&& latest(last_price, rest.3) == target.3
                }),
            ensures
                safe,
                buys@ == target.0,
                sells@ == target.1,
                buys.len() == b0.len(),
                sells.len() == s0.len(),
                book_wf(buys@, sells@),
                transactions.len() <= b0.len() + s0.len(),
                forall|i: int| 0 <= i < transactions.len() ==> fill_wf(#[trigger] transactions@[i]),
                last_price matches Some(p) ==> wf(p),
                transactions.len() == target.2.len(),
                forall|i: int|
                    0 <= i < transactions.len() ==> same_trade(
                        #[trigger] transactions@[i],
                        target.2[i],
                    ),
                last_price == target.3,
            decreases (buys.len() - buy_idx) + (sells.len() - sell_idx),
        {
            let buy = buys[buy_idx];
            let sell = sells[sell_idx];
            proof {
                assert(order_wf(buys@[buy_idx as int]));
                assert(order_wf(sells@[sell_idx as int]));
            }
            // No match if the best bid is below the best ask.
            if buy.price.lt(&sell.price) {
                break;
            }
            // No self-trading.
            if buy.player_id == sell.player_id {
                sell_idx = sell_idx + 1;
                continue;
            }
            let ghost bi0 = buy_idx as nat;
            let ghost si0 = sell_idx as nat;
            let ghost tlen0 = transactions.len();
            // Execution price: the older (maker) order's price.
            let exec_price = if buy.created_at.no_later_than(&sell.created_at) {
                buy.price
            } else {
                sell.price
            };
            // Fill quantity: the smaller of the two remaining quantities.
            let fill_qty = buy.quantity.min(&sell.quantity);
            // The fill must compute within the decimal range.
            if !crate::engine::limits::product_within_range(&exec_price, &fill_qty)
                || !crate::engine::limits::is_within(&buy.quantity, 19807040628566084398385987584)
                || !crate::engine::limits::is_within(&sell.quantity, 19807040628566084398385987584) {
                proof {
                    let t = fill_of(buy, sell);
                    assert(t.price == exec_price);
                    assert(t.quantity == fill_qty);
                    assert(!step_ok(buy, sell));
                    assert(buy == buys@[buy_idx as int]);
                    assert(sell == sells@[sell_idx as int]);
                    assert(!loop_ok(buys@, sells@, buy_idx as nat, sell_idx as nat));
                }
                *buys = orig_buys;
                *sells = orig_sells;
                return None;
            }
            proof {
                lemma_sum_ok_safe(buy.quantity, sell.quantity);
                lemma_sum_ok_safe(sell.quantity, buy.quantity);
                lemma_self_sub_fits(buy.quantity);
                lemma_self_sub_fits(sell.quantity);
            }
            let total_value = exec_price.mul(&fill_qty);
            let txn = Transaction {
                id: fresh_id(),
                buy_order_id: buy.id,
                sell_order_id: sell.id,
                resource_id: buy.resource_id,
                buyer_id: buy.player_id,
                seller_id: sell.player_id,
                price: exec_price,
                quantity: fill_qty,
                total_value,
                executed_at: current_time(),
            };
            last_price = Some(exec_price);
            transactions.push(txn);
            // Decrement the remaining quantities and update the statuses.
            let new_buy_qty = buy.quantity.sub(&fill_qty);
            let new_sell_qty = sell.quantity.sub(&fill_qty);
            let ghost old_buys = buys@;
            let ghost old_sells = sells@;
            proof {
                lemma_units_of_zero(new_buy_qty);
                lemma_units_of_zero(new_sell_qty);
                // The smaller side is used up.
                assert(new_buy_qty.mantissa == 0 || new_sell_qty.mantissa == 0);
            }
            let buy_done = new_buy_qty.is_zero();
            let sell_done = new_sell_qty.is_zero();
            let updated_buy = TradeOrder {
                quantity: new_buy_qty,
                status: if buy_done {
                    OrderStatus::Filled
                } else {
                    OrderStatus::PartiallyFilled
                },
                ..buy
            };
            let updated_sell = TradeOrder {
                quantity: new_sell_qty,
                status: if sell_done {
                    OrderStatus::Filled
                } else {
                    OrderStatus::PartiallyFilled
                },
                ..sell
            };
            buys.set(buy_idx, updated_buy);
            sells.set(sell_idx, updated_sell);
            proof {
                assert(updated_buy == after_fill(buy, fill_qty));
                assert(updated_sell == after_fill(sell, fill_qty));
                assert forall|i: int| 0 <= i < buys.len() implies order_wf(#[trigger] buys@[i]) by {
                    if i != buy_idx {
                        assert(buys@[i] == old_buys[i]);
                    }
                }
                assert forall|i: int| 0 <= i < sells.len() implies order_wf(#[trigger] sells@[i]) by {
                    if i != sell_idx {
                        assert(sells@[i] == old_sells[i]);
                    }
                }
            }
            if buy_done {
                buy_idx = buy_idx + 1;
            }
            if sell_done {
                sell_idx = sell_idx + 1;
            }
            proof {
                let t = fill_of(buy, sell);
                assert(t.quantity == fill_qty);
                assert(t.price == exec_price);
                assert(same_trade(txn, t));
                assert(fill_wf(txn));
                let before = match_loop(old_buys, old_sells, bi0, si0);
                let rest = match_loop(buys@, sells@, buy_idx as nat, sell_idx as nat);
                assert(buys@ == old_buys.update(bi0 as int, after_fill(buy, t.quantity)));
                assert(sells@ == old_sells.update(si0 as int, after_fill(sell, t.quantity)));
                assert(before == (rest.0, rest.1, seq![t] + rest.2, latest(Some(t.price), rest.3)));
                assert(loop_ok(old_buys, old_sells, bi0, si0) == loop_ok(
                    buys@,
                    sells@,
                    buy_idx as nat,
                    sell_idx as nat,
                ));
                assert forall|i: int| 0 <= i < transactions.len() implies same_trade(
                    #[trigger] transactions@[i],
                    target.2[i],
                ) by {
                    if i == tlen0 {
                        assert(before.2[0] == t);
                    }
                }
                assert forall|i: int| 0 <= i < transactions.len() implies fill_wf(
                    #[trigger] transactions@[i],
                ) by {
                    if i == tlen0 {
                        assert(transactions@[i] == txn);
                    }
                }
                assert forall|i: int| 0 <= i < rest.2.len() implies target.2[transactions.len() + i]
                    == rest.2[i] by {
                    assert(before.2[i + 1] == rest.2[i]);
                }
            }
        }
        let mut updated_orders: Vec<TradeOrder> = Vec::new();
        collect_changed(buys, &mut updated_orders);
        collect_changed(sells, &mut updated_orders);
        proof {
            assert(Seq::<TradeOrder>::empty() + changed_orders(target.0) =~= changed_orders(
                target.0,
            ));
        }
        Some(MatchResult { transactions, updated_orders, last_price })
    }

    /// Matches all open orders of one resource.  Both sides are first sorted
    /// by price-time priority; the sorted and filled sides are left in
    /// `buys` and `sells`.  The book must be one on which the matching
    /// computes without overflow.
    pub fn match_orders(buys: &mut Vec<TradeOrder>, sells: &mut Vec<TradeOrder>) -> (r:
        MatchResult)
        requires
            book_wf(old(buys)@, old(sells)@),
            match_safe(old(buys)@, old(sells)@),
        ensures
            ({
                let m = match_spec(old(buys)@, old(sells)@);
                &&& final(buys)@ == m.0
                &&& final(sells)@ == m.1
                &&& r.transactions.len() == m.2.len()
                &&& forall|i: int|
                    0 <= i < m.2.len() ==> same_trade(#[trigger] r.transactions@[i], m.2[i])
                &&& r.updated_orders@ == changed_orders(m.0) + changed_orders(m.1)
                &&& r.last_price == m.3
            }),
            book_wf(final(buys)@, final(sells)@),
            final(buys)@.len() == old(buys)@.len(),
            final(sells)@.len() == old(sells)@.len(),
            r.transactions.len() <= old(buys).len() + old(sells).len(),
            forall|i: int| 0 <= i < r.transactions.len() ==> fill_wf(#[trigger] r.transactions@[i]),
            r.last_price matches Some(p) ==> wf(p),
            r.transactions.len() == 0 <==> r.last_price is None,
            r.transactions.len() > 0 ==> r.last_price == Some(
                r.transactions@[r.transactions.len() - 1].price,
            ),
    {
        proof {
            lemma_sort_wf(old(buys)@, old(sells)@);
            crate::engine::matching_laws::law_last_price_is_the_last_fills(old(buys)@, old(sells)@);
            lemma_match_lengths(old(buys)@, old(sells)@);
        }
        match Self::try_match(buys, sells) {
            Some(r) => r,
            None => {
                proof {
                    assert(false);
                }
                MatchResult { transactions: Vec::new(), updated_orders: Vec::new(), last_price: None }
            },
        }
    }
}

/// Matching keeps the length of each side.
proof fn lemma_match_lengths(b: Seq<TradeOrder>, s: Seq<TradeOrder>)
    ensures
        match_spec(b, s).0.len() == b.len(),
        match_spec(b, s).1.len() == s.len(),
{
    lemma_sort_props(b, OrderType::Buy);
    lemma_sort_props(s, OrderType::Sell);
    lemma_loop_lengths(sort_spec(b, OrderType::Buy), sort_spec(s, OrderType::Sell), 0, 0);
}

proof fn lemma_loop_lengths(b: Seq<TradeOrder>, s: Seq<TradeOrder>, bi: nat, si: nat)
    ensures
        match_loop(b, s, bi, si).0.len() == b.len(),
        match_loop(b, s, bi, si).1.len() == s.len(),
    decreases (b.len() - bi) + (s.len() - si),
{
    if bi >= b.len() || si >= s.len() || units(b[bi as int].price) < units(s[si as int].price) {
    } else if b[bi as int].player_id == s[si as int].player_id {
        lemma_loop_lengths(b, s, bi, si + 1);
    } else {
        let buy = b[bi as int];
        let sell = s[si as int];
        let t = fill_of(buy, sell);
        let nb = after_fill(buy, t.quantity);
        let ns = after_fill(sell, t.quantity);
        if !(nb.quantity.mantissa != 0 && ns.quantity.mantissa != 0) {
            let bi2 = if nb.quantity.mantissa == 0 {
                bi + 1
            } else {
                bi
            };
            let si2 = if ns.quantity.mantissa == 0 {
                si + 1
            } else {
                si
            };
            lemma_loop_lengths(b.update(bi as int, nb), s.update(si as int, ns), bi2, si2);
        }
    }
}

} // verus!
