//! What the server publishes about markets: the market listing of the REST
//! API and the per-tick market briefs broadcast to connected clients.
use vstd::prelude::*;

use crate::decimal::{decimal_text, wf};
use crate::models::{Market, Resource};

verus! {

/// A market as the REST API shows it, amounts as text.
#[derive(Debug)]
pub struct MarketView {
    pub slug: String,
    pub name: String,
    pub last_price: String,
    pub ema_price: String,
    pub total_supply: String,
    pub total_demand: String,
    pub total_volume: String,
}

/// A market's prices as broadcast each tick, amounts as text.
#[derive(Debug, Clone)]
pub struct MarketBrief {
    pub slug: String,
    pub price: String,
    pub ema: String,
    pub supply: String,
    pub demand: String,
}

/// The query of a price-history request: how many snapshots, 50 when absent.
#[derive(Debug, Clone, Copy)]
pub struct HistoryParams {
    pub limit: Option<i64>,
}

impl HistoryParams {
    /// The number of snapshots asked for: the given limit, or 50.
    pub fn effective_limit(&self) -> (r: i64)
        ensures
            r == match self.limit {
                Some(n) => n,
                None => 50,
            },
    {
        match self.limit {
            Some(n) => n,
            None => 50,
        }
    }
}

/// The amounts of a market that are shown can be written out.
pub open spec fn market_shown(m: Market) -> bool {
    &&& wf(m.last_price)
    &&& wf(m.ema_price)
    &&& wf(m.total_supply)
    &&& wf(m.total_demand)
    &&& wf(m.total_volume)
}

/// `v` shows market `m` of resource `r`.
pub open spec fn shows(v: MarketView, m: Market, r: Resource) -> bool {
    &&& v.slug@ == r.slug@
    &&& v.name@ == r.name@
    &&& v.last_price@ == decimal_text(m.last_price@)
    &&& v.ema_price@ == decimal_text(m.ema_price@)
    &&& v.total_supply@ == decimal_text(m.total_supply@)
    &&& v.total_demand@ == decimal_text(m.total_demand@)
    &&& v.total_volume@ == decimal_text(m.total_volume@)
}

/// `b` is the brief of market `m` under the slug `slug`.
pub open spec fn briefs(b: MarketBrief, m: Market, slug: Seq<char>) -> bool {
    &&& b.slug@ == slug
    &&& b.price@ == decimal_text(m.last_price@)
    &&& b.ema@ == decimal_text(m.ema_price@)
    &&& b.supply@ == decimal_text(m.total_supply@)
    &&& b.demand@ == decimal_text(m.total_demand@)
}

/// The position of the first resource of identifier `id`, from `from` on.
pub open spec fn first_resource(resources: Seq<Resource>, id: u128, from: int) -> Option<int>
    decreases resources.len() - from,
{
    if from < 0 || from >= resources.len() {
        None
    } else if resources[from].id == id {
        Some(from)
    } else {
        first_resource(resources, id, from + 1)
    }
}

/// The position of the last resource of identifier `id`.
pub open spec fn last_resource(resources: Seq<Resource>, id: u128) -> Option<int>
    decreases resources.len(),
{
    if resources.len() == 0 {
        None
    } else if resources.last().id == id {
        Some(resources.len() - 1)
    } else {
        last_resource(resources.drop_last(), id)
    }
}

/// The markets that have a resource, each with the first resource of its
/// identifier, in the order of the markets.
pub open spec fn listed(markets: Seq<Market>, resources: Seq<Resource>) -> Seq<(Market, Resource)>
    decreases markets.len(),
{
    if markets.len() == 0 {
        Seq::empty()
    } else {
        let prev = listed(markets.drop_last(), resources);
        match first_resource(resources, markets.last().resource_id, 0) {
            Some(k) => prev.push((markets.last(), resources[k])),
            None => prev,
        }
    }
}

/// The markets that have a resource, each with the slug of the last resource
/// of its identifier, in the order of the markets.
pub open spec fn briefed(markets: Seq<Market>, resources: Seq<Resource>) -> Seq<(Market, Seq<char>)>
    decreases markets.len(),
{
    if markets.len() == 0 {
        Seq::empty()
    } else {
        let prev = briefed(markets.drop_last(), resources);
        match last_resource(resources, markets.last().resource_id) {
            Some(k) => prev.push((markets.last(), resources[k].slug@)),
            None => prev,
        }
    }
}

/// The position of the first resource of identifier `id`.
fn first_resource_position(resources: &[Resource], id: u128) -> (r: Option<usize>)
    ensures
        r matches Some(k) ==> first_resource(resources@, id, 0) == Some(k as int) && k < resources@.len(),
        r is None ==> first_resource(resources@, id, 0) is None,
{
    let mut k: usize = 0;
    while k < resources.len()
        invariant
            k <= resources@.len(),
            first_resource(resources@, id, 0) == first_resource(resources@, id, k as int),
        decreases resources@.len() - k,
    {
        if resources[k].id == id {
            return Some(k);
        }
        k = k + 1;
    }
    None
}

proof fn lemma_last_resource(resources: Seq<Resource>, id: u128)
    ensures
        last_resource(resources, id) matches Some(k) ==> 0 <= k < resources.len()
            && resources[k].id == id,
    decreases resources.len(),
{
    if resources.len() > 0 {
        lemma_last_resource(resources.drop_last(), id);
    }
}

/// The position of the last resource of identifier `id`.
fn last_resource_position(resources: &[Resource], id: u128) -> (r: Option<usize>)
    ensures
        r matches Some(k) ==> last_resource(resources@, id) == Some(k as int),
        r is None ==> last_resource(resources@, id) is None,
{
    let mut k: usize = resources.len();
    proof {
        assert(resources@.take(k as int) =~= resources@);
    }
    while k > 0
        invariant
            k <= resources@.len(),
            last_resource(resources@, id) == last_resource(resources@.take(k as int), id),
        decreases k,
    {
        proof {
            assert(resources@.take(k as int).drop_last() =~= resources@.take(k as int - 1));
        }
        if resources[k - 1].id == id {
            return Some(k - 1);
        }
        k = k - 1;
    }
    proof {
        assert(resources@.take(0) =~= Seq::<Resource>::empty());
    }
    None
}

/// The view of market `m` of resource `r`.
pub fn market_view(m: &Market, r: &Resource) -> (v: MarketView)
    requires
        market_shown(*m),
    ensures
        shows(v, *m, *r),
{
    MarketView {
        slug: r.slug.clone(),
        name: r.name.clone(),
        last_price: m.last_price.to_text(),
        ema_price: m.ema_price.to_text(),
        total_supply: m.total_supply.to_text(),
        total_demand: m.total_demand.to_text(),
        total_volume: m.total_volume.to_text(),
    }
}

/// The market listing: each market that has a resource, shown with the first
/// resource of its identifier; markets without one are left out.
pub fn market_views(markets: &[Market], resources: &[Resource]) -> (r: Vec<MarketView>)
    requires
        forall|i: int| 0 <= i < markets@.len() ==> market_shown(#[trigger] markets@[i]),
    ensures
        r@.len() == listed(markets@, resources@).len(),
        forall|k: int|
            0 <= k < r@.len() ==> shows(
                #[trigger] r@[k],
                listed(markets@, resources@)[k].0,
                listed(markets@, resources@)[k].1,
            ),
{
    let mut views: Vec<MarketView> = Vec::new();
    let mut i: usize = 0;
    while i < markets.len()
        invariant
            i <= markets@.len(),
            forall|j: int| 0 <= j < markets@.len() ==> market_shown(#[trigger] markets@[j]),
            views@.len() == listed(markets@.take(i as int), resources@).len(),
            forall|k: int|
                0 <= k < views@.len() ==> shows(
                    #[trigger] views@[k],
                    listed(markets@.take(i as int), resources@)[k].0,
                    listed(markets@.take(i as int), resources@)[k].1,
                ),
        decreases markets@.len() - i,
    {
        proof {
            let p = markets@.take(i as int + 1);
            assert(p.drop_last() =~= markets@.take(i as int));
            assert(p.last() == markets@[i as int]);
        }
        match first_resource_position(resources, markets[i].resource_id) {
            Some(k) => {
                let v = market_view(&markets[i], &resources[k]);
                views.push(v);
            },
            None => {},
        }
        i = i + 1;
    }
    proof {
        assert(markets@.take(markets@.len() as int) =~= markets@);
    }
    views
}

/// The briefs broadcast after a tick: each updated market that has a
/// resource, under the slug of the last resource of its identifier.
pub fn market_briefs(markets: &[Market], resources: &[Resource]) -> (r: Vec<MarketBrief>)
    requires
        forall|i: int| 0 <= i < markets@.len() ==> market_shown(#[trigger] markets@[i]),
    ensures
        r@.len() == briefed(markets@, resources@).len(),
        forall|k: int|
            0 <= k < r@.len() ==> briefs(
                #[trigger] r@[k],
                briefed(markets@, resources@)[k].0,
                briefed(markets@, resources@)[k].1,
            ),
{
    let mut out: Vec<MarketBrief> = Vec::new();
    let mut i: usize = 0;
    while i < markets.len()
        invariant
            i <= markets@.len(),
            forall|j: int| 0 <= j < markets@.len() ==> market_shown(#[trigger] markets@[j]),
            out@.len() == briefed(markets@.take(i as int), resources@).len(),
            forall|k: int|
                0 <= k < out@.len() ==> briefs(
                    #[trigger] out@[k],
                    briefed(markets@.take(i as int), resources@)[k].0,
                    briefed(markets@.take(i as int), resources@)[k].1,
                ),
        decreases markets@.len() - i,
    {
        proof {
            let p = markets@.take(i as int + 1);
            assert(p.drop_last() =~= markets@.take(i as int));
            assert(p.last() == markets@[i as int]);
        }
        match last_resource_position(resources, markets[i].resource_id) {
            Some(k) => {
                proof {
                    lemma_last_resource(resources@, markets@[i as int].resource_id);
                }
                let m = &markets[i];
                out.push(
                    MarketBrief {
                        slug: resources[k].slug.clone(),
                        price: m.last_price.to_text(),
                        ema: m.ema_price.to_text(),
                        supply: m.total_supply.to_text(),
                        demand: m.total_demand.to_text(),
                    },
                );
            },
            None => {},
        }
        i = i + 1;
    }
    proof {
        assert(markets@.take(markets@.len() as int) =~= markets@);
    }
    out
}

// ── Laws ───────────────────────────────────────────────────────────────────
proof fn lemma_first_resource(resources: Seq<Resource>, id: u128, from: int)
    requires
        0 <= from,
    ensures
        match first_resource(resources, id, from) {
            Some(k) => from <= k < resources.len() && resources[k].id == id && forall|j: int|
                from <= j < k ==> resources[j].id != id,
            None => forall|j: int| from <= j < resources.len() ==> resources[j].id != id,
        },
    decreases resources.len() - from,
{
    if from < resources.len() && resources[from].id != id {
        lemma_first_resource(resources, id, from + 1);
    }
}

proof fn lemma_last_resource_exact(resources: Seq<Resource>, id: u128)
    ensures
        match last_resource(resources, id) {
            Some(k) => 0 <= k < resources.len() && resources[k].id == id && forall|j: int|
                k < j < resources.len() ==> resources[j].id != id,
            None => forall|j: int| 0 <= j < resources.len() ==> resources[j].id != id,
        },
    decreases resources.len(),
{
    if resources.len() > 0 && resources.last().id != id {
        lemma_last_resource_exact(resources.drop_last(), id);
        assert forall|j: int| 0 <= j < resources.len() - 1 implies resources[j]
            == resources.drop_last()[j] by {}
    }
}

/// A market is listed with the first resource of its identifier and briefed
/// under the slug of the last one; with no resource of its identifier it is
/// neither listed nor briefed.
pub proof fn law_markets_name_the_first_and_last_resource(resources: Seq<Resource>, id: u128)
    ensures
        first_resource(resources, id, 0) is None <==> forall|j: int|
            0 <= j < resources.len() ==> (#[trigger] resources[j]).id != id,
        last_resource(resources, id) is None <==> forall|j: int|
            0 <= j < resources.len() ==> (#[trigger] resources[j]).id != id,
        first_resource(resources, id, 0) matches Some(k) ==> 0 <= k < resources.len()
            && resources[k].id == id && forall|j: int|
            0 <= j < k ==> (#[trigger] resources[j]).id != id,
        last_resource(resources, id) matches Some(k) ==> 0 <= k < resources.len()
            && resources[k].id == id && forall|j: int|
            k < j < resources.len() ==> (#[trigger] resources[j]).id != id,
{
    lemma_first_resource(resources, id, 0);
    lemma_last_resource_exact(resources, id);
}

/// Whether some resource has identifier `id`.
pub open spec fn has_resource(resources: Seq<Resource>, id: u128) -> bool {
    exists|j: int| 0 <= j < resources.len() && (#[trigger] resources[j]).id == id
}

/// The market list holds the markets that have a resource, in order, and
/// no other.
pub proof fn law_listed_markets_are_those_with_a_resource(
    markets: Seq<Market>,
    resources: Seq<Resource>,
)
    ensures
        listed(markets, resources).map_values(|p: (Market, Resource)| p.0) == markets.filter(
            |m: Market| has_resource(resources, m.resource_id),
        ),
        forall|k: int|
            0 <= k < listed(markets, resources).len() ==> (#[trigger] listed(
                markets,
                resources,
            )[k]).1.id == listed(markets, resources)[k].0.resource_id,
    decreases markets.len(),
{
    reveal_with_fuel(Seq::filter, 1);
    if markets.len() > 0 {
        let p = markets.drop_last();
        law_listed_markets_are_those_with_a_resource(p, resources);
        let m = markets.last();
        lemma_first_resource(resources, m.resource_id, 0);
        let lp = listed(p, resources);
        match first_resource(resources, m.resource_id, 0) {
            Some(k) => {
                assert(has_resource(resources, m.resource_id));
                let e = (m, resources[k]);
                assert(lp.push(e).map_values(|q: (Market, Resource)| q.0) =~= lp.map_values(
                    |q: (Market, Resource)| q.0,
                ).push(m));
                assert forall|j: int| 0 <= j < lp.push(e).len() implies (#[trigger] lp.push(
                    e,
                )[j]).1.id == lp.push(e)[j].0.resource_id by {
                    if j < lp.len() {
                        assert(lp.push(e)[j] == lp[j]);
                    }
                }
            },
            None => {
                assert(!has_resource(resources, m.resource_id));
            },
        }
    }
}

} // verus!
