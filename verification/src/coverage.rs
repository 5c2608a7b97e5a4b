//! The coverage optimizer: given, for each requested item, the per-store
//! offers the catalog search returned, it picks the best single store.
//!
//! A store that offers something for every distinct requested item (full
//! coverage) beats every store that does not; among full-coverage stores
//! the lowest summed price wins; when no store covers everything, the store
//! matching the most items wins, price breaking ties. All remaining ties go
//! to the store encountered first, and every sequence here is walked in its
//! given order, so the outcome is a pure function of the inputs.
//!
//! The ghost model below mirrors each step: [`required_keys`] collapses the
//! requested items to distinct normalized keys, [`offers_of`] flattens the
//! per-item candidate lists to per-store offers, [`best_for`] picks the
//! cheapest offer per store and key, and [`optimize_model`] names the exact
//! result the executable [`optimize`] must return.

use vstd::prelude::*;

use crate::model::AnnotatedMatch;
use crate::model::AnnotatedMatchV;
use crate::model::CoverageResult;
use crate::model::CoverageResultV;
use crate::model::ShopOffer;
use crate::model::ShopOfferV;
use crate::normalize::norm_key;
use crate::normalize::normalize;

verus! {

/// Prices are capped so that any total over at most `KEY_LIMIT` distinct
/// requested items fits in a `u64`.
pub const PRICE_LIMIT: u64 = 0xFFFF_FFFF;

/// The most distinct requested items a single call handles.
pub const KEY_LIMIT: u64 = 0xFFFF_FFFF;

/// The views of a sequence of strings.
pub open spec fn str_views(s: Seq<String>) -> Seq<Seq<char>> {
    s.map_values(|x: String| x@)
}

/// The views of the per-item candidate lists.
pub open spec fn per_views(p: Seq<Vec<AnnotatedMatch>>) -> Seq<Seq<AnnotatedMatchV>> {
    p.map_values(|v: Vec<AnnotatedMatch>| v@.map_values(|m: AnnotatedMatch| m@))
}

/// The views of a sequence of offers.
pub open spec fn offer_views(s: Seq<ShopOffer>) -> Seq<ShopOfferV> {
    s.map_values(|o: ShopOffer| o@)
}

/// The offer built from one candidate answering the requested item with
/// normalized key `key`.
pub open spec fn offer_of(key: Seq<char>, m: AnnotatedMatchV) -> ShopOfferV {
    ShopOfferV {
        store: m.item.location.store_name,
        key: key,
        name: m.item.name,
        description: m.item.description,
        price: m.item.price,
        discount: m.item.discount,
        distance_m: m.distance_m.unwrap(),
    }
}

/// All offers answering one requested item.
pub open spec fn item_offers(key: Seq<char>, ms: Seq<AnnotatedMatchV>) -> Seq<ShopOfferV> {
    ms.map_values(|m: AnnotatedMatchV| offer_of(key, m))
}

/// Every (requested item, candidate) pair flattened to one offer sequence,
/// in input order.
pub open spec fn offers_of(items: Seq<Seq<char>>, per: Seq<Seq<AnnotatedMatchV>>) -> Seq<
    ShopOfferV,
>
    decreases items.len(),
{
    if items.len() == 0 {
        Seq::empty()
    } else {
        offers_of(items.drop_last(), per.drop_last()) + item_offers(
            norm_key(items.last()),
            per.last(),
        )
    }
}

/// The distinct normalized keys of the requested items, in order of first
/// appearance; their number is the required count.
pub open spec fn required_keys(items: Seq<Seq<char>>) -> Seq<Seq<char>>
    decreases items.len(),
{
    if items.len() == 0 {
        Seq::empty()
    } else {
        let prev = required_keys(items.drop_last());
        if prev.contains(norm_key(items.last())) {
            prev
        } else {
            prev.push(norm_key(items.last()))
        }
    }
}

/// The distinct store names of an offer sequence, in order of first
/// appearance.
pub open spec fn stores_of(offers: Seq<ShopOfferV>) -> Seq<Seq<char>>
    decreases offers.len(),
{
    if offers.len() == 0 {
        Seq::empty()
    } else {
        let prev = stores_of(offers.drop_last());
        if prev.contains(offers.last().store) {
            prev
        } else {
            prev.push(offers.last().store)
        }
    }
}

/// The cheapest offer of `store` answering `key`: a later offer displaces
/// the incumbent only when its price is strictly lower, so equal prices
/// keep the offer seen first.
pub open spec fn best_for(offers: Seq<ShopOfferV>, store: Seq<char>, key: Seq<char>) -> Option<
    ShopOfferV,
>
    decreases offers.len(),
{
    if offers.len() == 0 {
        None
    } else {
        let prev = best_for(offers.drop_last(), store, key);
        let o = offers.last();
        if o.store == store && o.key == key {
            match prev {
                None => Some(o),
                Some(p) => if o.price < p.price {
                    Some(o)
                } else {
                    Some(p)
                },
            }
        } else {
            prev
        }
    }
}

/// The selected offers of a store: for each required key in order, its
/// cheapest offer, when the store has one.
pub open spec fn matched_of(offers: Seq<ShopOfferV>, store: Seq<char>, keys: Seq<Seq<char>>) -> Seq<
    ShopOfferV,
>
    decreases keys.len(),
{
    if keys.len() == 0 {
        Seq::empty()
    } else {
        let prev = matched_of(offers, store, keys.drop_last());
        match best_for(offers, store, keys.last()) {
            Some(o) => prev.push(o),
            None => prev,
        }
    }
}

/// The required keys a store has no offer for, in required-key order.
pub open spec fn missing_of(offers: Seq<ShopOfferV>, store: Seq<char>, keys: Seq<Seq<char>>) -> Seq<
    Seq<char>,
>
    decreases keys.len(),
{
    if keys.len() == 0 {
        Seq::empty()
    } else {
        let prev = missing_of(offers, store, keys.drop_last());
        match best_for(offers, store, keys.last()) {
            Some(o) => prev,
            None => prev.push(keys.last()),
        }
    }
}

/// The summed price of a store's selected offers.
pub open spec fn total_of(offers: Seq<ShopOfferV>, store: Seq<char>, keys: Seq<Seq<char>>) -> int
    decreases keys.len(),
{
    if keys.len() == 0 {
        0
    } else {
        total_of(offers, store, keys.drop_last()) + (match best_for(offers, store, keys.last()) {
            Some(o) => o.price as int,
            None => 0,
        })
    }
}

/// How many required keys a store covers.
pub open spec fn matched_count(offers: Seq<ShopOfferV>, store: Seq<char>, keys: Seq<Seq<char>>) -> int {
    matched_of(offers, store, keys).len() as int
}

/// Full coverage: the store offers something for every required key.
pub open spec fn is_full(offers: Seq<ShopOfferV>, store: Seq<char>, keys: Seq<Seq<char>>) -> bool {
    matched_count(offers, store, keys) == keys.len()
}

/// The partial-coverage order: `a` beats `b` when it matches more items,
/// or as many at a strictly lower total price.
pub open spec fn better_partial(
    offers: Seq<ShopOfferV>,
    keys: Seq<Seq<char>>,
    a: Seq<char>,
    b: Seq<char>,
) -> bool {
    matched_count(offers, a, keys) > matched_count(offers, b, keys) || (matched_count(offers, a, keys)
        == matched_count(offers, b, keys) && total_of(offers, a, keys) < total_of(offers, b, keys))
}

/// The full-coverage winner among `stores`, walked in order: the first
/// store with the lowest total price, or `None` when no store covers
/// everything.
pub open spec fn best_full(offers: Seq<ShopOfferV>, keys: Seq<Seq<char>>, stores: Seq<Seq<char>>) -> Option<
    Seq<char>,
>
    decreases stores.len(),
{
    if stores.len() == 0 {
        None
    } else {
        let prev = best_full(offers, keys, stores.drop_last());
        let s = stores.last();
        if is_full(offers, s, keys) {
            match prev {
                None => Some(s),
                Some(p) => if total_of(offers, s, keys) < total_of(offers, p, keys) {
                    Some(s)
                } else {
                    Some(p)
                },
            }
        } else {
            prev
        }
    }
}

/// The partial-coverage winner among `stores`, walked in order: the first
/// store with the most matched items, lowest total price among those.
pub open spec fn best_partial(
    offers: Seq<ShopOfferV>,
    keys: Seq<Seq<char>>,
    stores: Seq<Seq<char>>,
) -> Option<Seq<char>>
    decreases stores.len(),
{
    if stores.len() == 0 {
        None
    } else {
        let prev = best_partial(offers, keys, stores.drop_last());
        let s = stores.last();
        match prev {
            None => Some(s),
            Some(p) => if better_partial(offers, keys, s, p) {
                Some(s)
            } else {
                Some(p)
            },
        }
    }
}

/// The coverage outcome reported for one store.
pub open spec fn result_of(offers: Seq<ShopOfferV>, keys: Seq<Seq<char>>, store: Seq<char>) -> CoverageResultV {
    CoverageResultV {
        store: store,
        total_price: total_of(offers, store, keys),
        matched_products: matched_of(offers, store, keys),
        missing_item_keys: missing_of(offers, store, keys),
    }
}

/// What the optimizer returns: nothing when there are no offers at all;
/// otherwise the outcome of the full-coverage winner when one exists, else
/// of the partial-coverage winner.
pub open spec fn optimize_model(offers: Seq<ShopOfferV>, keys: Seq<Seq<char>>) -> Option<
    CoverageResultV,
> {
    let stores = stores_of(offers);
    if stores.len() == 0 {
        None
    } else {
        match best_full(offers, keys, stores) {
            Some(w) => Some(result_of(offers, keys, w)),
            None => match best_partial(offers, keys, stores) {
                Some(w) => Some(result_of(offers, keys, w)),
                None => None,
            },
        }
    }
}

/// The view of an optimizer result.
pub open spec fn opt_view(r: Option<CoverageResult>) -> Option<CoverageResultV> {
    match r {
        Some(c) => Some(c@),
        None => None,
    }
}

/// The cheapest offer per store and key is one of the offers, carries that
/// store and key, and undercuts or ties every offer with them; it is absent
/// exactly when no offer has them.
pub proof fn lemma_best_for(offers: Seq<ShopOfferV>, store: Seq<char>, key: Seq<char>)
    ensures
        match best_for(offers, store, key) {
            Some(o) => (exists|i: int| 0 <= i < offers.len() && offers[i] == o) && o.store == store
                && o.key == key && (forall|i: int|
                0 <= i < offers.len() && (#[trigger] offers[i]).store == store && offers[i].key
                    == key ==> o.price <= offers[i].price),
            None => forall|i: int|
                0 <= i < offers.len() ==> !((#[trigger] offers[i]).store == store && offers[i].key
                    == key),
        },
    decreases offers.len(),
{
    if offers.len() > 0 {
        lemma_best_for(offers.drop_last(), store, key);
        assert(forall|i: int| 0 <= i < offers.len() - 1 ==> offers.drop_last()[i] == offers[i]);
        assert(offers.last() == offers[offers.len() - 1]);
        match best_for(offers.drop_last(), store, key) {
            Some(p) => {
                assert(exists|i: int| 0 <= i < offers.len() - 1 && offers.drop_last()[i] == p);
                let i = choose|i: int| 0 <= i < offers.len() - 1 && offers.drop_last()[i] == p;
                assert(offers[i] == p);
            },
            None => {},
        }
    }
}


/// Each required key contributes exactly one entry: either a selected offer
/// or a missing key.
pub proof fn lemma_counts(offers: Seq<ShopOfferV>, store: Seq<char>, keys: Seq<Seq<char>>)
    ensures
        matched_of(offers, store, keys).len() + missing_of(offers, store, keys).len()
            == keys.len(),
    decreases keys.len(),
{
    if keys.len() > 0 {
        lemma_counts(offers, store, keys.drop_last());
    }
}

/// Every selected offer answers a distinct required key of this store, so
/// no two selected offers share a key, and there are at most as many as
/// there are required keys.
pub proof fn lemma_matched_distinct(offers: Seq<ShopOfferV>, store: Seq<char>, keys: Seq<Seq<char>>)
    requires
        keys.no_duplicates(),
    ensures
        matched_of(offers, store, keys).len() <= keys.len(),
        forall|i: int|
            0 <= i < matched_of(offers, store, keys).len() ==> (#[trigger] matched_of(
                offers,
                store,
                keys,
            )[i]).store == store && keys.contains(matched_of(offers, store, keys)[i].key),
        forall|i: int, j: int|
            0 <= i < j < matched_of(offers, store, keys).len() ==> (#[trigger] matched_of(
                offers,
                store,
                keys,
            )[i]).key != (#[trigger] matched_of(offers, store, keys)[j]).key,
    decreases keys.len(),
{
    if keys.len() > 0 {
        let prev_keys = keys.drop_last();
        assert(prev_keys.no_duplicates());
        lemma_matched_distinct(offers, store, prev_keys);
        lemma_best_for(offers, store, keys.last());
        let m = matched_of(offers, store, keys);
        let pm = matched_of(offers, store, prev_keys);
        assert(forall|k: Seq<char>| prev_keys.contains(k) ==> keys.contains(k)) by {
            assert(forall|i: int| 0 <= i < prev_keys.len() ==> prev_keys[i] == keys[i]);
        }
        match best_for(offers, store, keys.last()) {
            Some(o) => {
                assert(m == pm.push(o));
                assert(o.key == keys.last());
                assert(!prev_keys.contains(keys.last()));
                assert(forall|i: int|
                    0 <= i < pm.len() ==> (#[trigger] pm[i]).key != keys.last());
                assert(keys.contains(keys.last())) by {
                    assert(keys[keys.len() - 1] == keys.last());
                }
            },
            None => {
                assert(m == pm);
            },
        }
    }
}

/// The distinct required keys are pairwise distinct and no more numerous
/// than the requested items.
pub proof fn lemma_required_keys(items: Seq<Seq<char>>)
    ensures
        required_keys(items).no_duplicates(),
        required_keys(items).len() <= items.len(),
    decreases items.len(),
{
    if items.len() > 0 {
        lemma_required_keys(items.drop_last());
    }
}

/// There is a store exactly when there is an offer, every offer's store is
/// listed, and no store is listed twice.
pub proof fn lemma_stores_of(offers: Seq<ShopOfferV>)
    ensures
        stores_of(offers).len() > 0 <==> offers.len() > 0,
        forall|i: int|
            0 <= i < offers.len() ==> stores_of(offers).contains(
                (#[trigger] offers[i]).store,
            ),
        stores_of(offers).no_duplicates(),
    decreases offers.len(),
{
    if offers.len() > 0 {
        lemma_stores_of(offers.drop_last());
        let prev = stores_of(offers.drop_last());
        let cur = stores_of(offers);
        assert(forall|i: int| 0 <= i < offers.len() - 1 ==> offers.drop_last()[i] == offers[i]);
        assert(offers.last() == offers[offers.len() - 1]);
        assert(forall|k: Seq<char>| prev.contains(k) ==> cur.contains(k)) by {
            if prev.contains(offers.last().store) {
                assert(cur == prev);
            } else {
                assert(cur == prev.push(offers.last().store));
                assert(forall|i: int| 0 <= i < prev.len() ==> prev[i] == cur[i]);
            }
        }
        assert(cur.contains(offers.last().store)) by {
            if !prev.contains(offers.last().store) {
                assert(cur == prev.push(offers.last().store));
                assert(cur[cur.len() - 1] == offers.last().store);
            }
        }
    }
}

/// The full-coverage winner, when there is one, is a listed full-coverage
/// store with a total price no higher than any other full-coverage store's;
/// there is none exactly when no listed store covers everything.
pub proof fn lemma_best_full(offers: Seq<ShopOfferV>, keys: Seq<Seq<char>>, stores: Seq<Seq<char>>)
    ensures
        match best_full(offers, keys, stores) {
            Some(w) => stores.contains(w) && is_full(offers, w, keys) && (forall|s: Seq<char>|
                stores.contains(s) && is_full(offers, s, keys) ==> total_of(offers, w, keys)
                    <= total_of(offers, s, keys)),
            None => forall|s: Seq<char>| stores.contains(s) ==> !is_full(offers, s, keys),
        },
    decreases stores.len(),
{
    if stores.len() > 0 {
        lemma_best_full(offers, keys, stores.drop_last());
        let prev = stores.drop_last();
        assert(forall|i: int| 0 <= i < prev.len() ==> prev[i] == stores[i]);
        assert(stores.last() == stores[stores.len() - 1]);
        assert(forall|s: Seq<char>| #[trigger] stores.contains(s) ==> prev.contains(s) || s == stores.last());
        assert(forall|s: Seq<char>| #[trigger] prev.contains(s) ==> stores.contains(s));
        assert(stores.contains(stores.last()));
    }
}

/// The partial-coverage winner is a listed store that no other listed store
/// beats on (matched count, then total price); it is absent exactly when no
/// store is listed.
pub proof fn lemma_best_partial(
    offers: Seq<ShopOfferV>,
    keys: Seq<Seq<char>>,
    stores: Seq<Seq<char>>,
)
    ensures
        match best_partial(offers, keys, stores) {
            Some(w) => stores.contains(w) && (forall|s: Seq<char>|
                stores.contains(s) ==> !better_partial(offers, keys, s, w)),
            None => stores.len() == 0,
        },
    decreases stores.len(),
{
    if stores.len() > 0 {
        lemma_best_partial(offers, keys, stores.drop_last());
        let prev = stores.drop_last();
        assert(forall|i: int| 0 <= i < prev.len() ==> prev[i] == stores[i]);
        assert(stores.last() == stores[stores.len() - 1]);
        assert(forall|s: Seq<char>| #[trigger] stores.contains(s) ==> prev.contains(s) || s == stores.last());
        assert(forall|s: Seq<char>| #[trigger] prev.contains(s) ==> stores.contains(s));
        assert(stores.contains(stores.last()));
    }
}


/// The view of an optional offer.
pub open spec fn opt_offer_view(r: Option<ShopOffer>) -> Option<ShopOfferV> {
    match r {
        Some(o) => Some(o@),
        None => None,
    }
}

/// Whether one of the strings reads `k`.
fn contains_string(v: &Vec<String>, k: &String) -> (r: bool)
    ensures
        r == str_views(v@).contains(k@),
{
    let mut i: usize = 0;
    while i < v.len()
        invariant
            i <= v@.len(),
            forall|j: int| 0 <= j < i ==> str_views(v@)[j] != k@,
        decreases v@.len() - i,
    {
        proof {
            assert(str_views(v@)[i as int] == v@[i as int]@);
        }
        if v[i].eq(k) {
            proof {
                assert(str_views(v@).contains(k@)) by {
                    assert(str_views(v@)[i as int] == k@);
                }
            }
            return true;
        }
        i = i + 1;
    }
    proof {
        assert(forall|j: int| 0 <= j < v@.len() ==> str_views(v@)[j] != k@);
    }
    false
}

/// The distinct normalized keys of the requested items, in order of first
/// appearance: the shopping list a store must cover.
pub fn required_item_keys(requested: &Vec<String>) -> (r: Vec<String>)
    ensures
        str_views(r@) == required_keys(str_views(requested@)),
        r@.len() <= requested@.len(),
{
    let ghost items = str_views(requested@);
    let mut keys: Vec<String> = Vec::new();
    let mut i: usize = 0;
    while i < requested.len()
        invariant
            i <= requested@.len(),
            items == str_views(requested@),
            items.len() == requested@.len(),
            str_views(keys@) == required_keys(items.take(i as int)),
            keys@.len() <= i,
        decreases requested@.len() - i,
    {
        proof {
            assert(items.take(i as int + 1).drop_last() =~= items.take(i as int));
            assert(items.take(i as int + 1).last() == items[i as int]);
            assert(items[i as int] == requested@[i as int]@);
        }
        let k = normalize(requested[i].as_str());
        if !contains_string(&keys, &k) {
            keys.push(k);
            proof {
                assert(str_views(keys@) =~= required_keys(items.take(i as int + 1)));
            }
        } else {
            proof {
                assert(str_views(keys@) =~= required_keys(items.take(i as int + 1)));
            }
        }
        i = i + 1;
    }
    proof {
        assert(items.take(requested@.len() as int) =~= items);
    }
    keys
}

/// The distinct store names of an offer sequence, in order of first
/// appearance: the candidate stores, walked in this order when winners are
/// chosen.
pub fn store_names(offers: &Vec<ShopOffer>) -> (r: Vec<String>)
    ensures
        str_views(r@) == stores_of(offer_views(offers@)),
{
    let ghost ov = offer_views(offers@);
    let mut names: Vec<String> = Vec::new();
    let mut i: usize = 0;
    while i < offers.len()
        invariant
            i <= offers@.len(),
            ov == offer_views(offers@),
            ov.len() == offers@.len(),
            str_views(names@) == stores_of(ov.take(i as int)),
        decreases offers@.len() - i,
    {
        proof {
            assert(ov.take(i as int + 1).drop_last() =~= ov.take(i as int));
            assert(ov.take(i as int + 1).last() == ov[i as int]);
            assert(ov[i as int] == offers@[i as int]@);
        }
        let nm = &offers[i].store;
        if !contains_string(&names, nm) {
            names.push(nm.clone());
            proof {
                assert(str_views(names@) =~= stores_of(ov.take(i as int + 1)));
            }
        } else {
            proof {
                assert(str_views(names@) =~= stores_of(ov.take(i as int + 1)));
            }
        }
        i = i + 1;
    }
    proof {
        assert(ov.take(offers@.len() as int) =~= ov);
    }
    names
}

/// The cheapest offer of `store` answering `key`; a strictly lower price
/// displaces the incumbent, so the offer seen first wins price ties.
pub fn best_offer_for(offers: &Vec<ShopOffer>, store: &String, key: &String) -> (r: Option<
    ShopOffer,
>)
    ensures
        opt_offer_view(r) == best_for(offer_views(offers@), store@, key@),
{
    let ghost ov = offer_views(offers@);
    let mut inc: Option<ShopOffer> = None;
    let mut i: usize = 0;
    while i < offers.len()
        invariant
            i <= offers@.len(),
            ov == offer_views(offers@),
            ov.len() == offers@.len(),
            opt_offer_view(inc) == best_for(ov.take(i as int), store@, key@),
        decreases offers@.len() - i,
    {
        proof {
            assert(ov.take(i as int + 1).drop_last() =~= ov.take(i as int));
            assert(ov.take(i as int + 1).last() == ov[i as int]);
            assert(ov[i as int] == offers@[i as int]@);
        }
        let o = &offers[i];
        if o.store.eq(store) && o.key.eq(key) {
            let replace = match &inc {
                None => true,
                Some(b) => o.price < b.price,
            };
            if replace {
                inc = Some(o.clone());
            }
        }
        i = i + 1;
    }
    proof {
        assert(ov.take(offers@.len() as int) =~= ov);
    }
    inc
}

/// What one store makes of the shopping list: its selected offers (one
/// cheapest offer per covered key), their summed price, and the keys it
/// does not cover.
pub fn store_outcome(offers: &Vec<ShopOffer>, store: &String, keys: &Vec<String>) -> (r: (
    Vec<ShopOffer>,
    u64,
    Vec<String>,
))
    requires
        forall|i: int| 0 <= i < offers@.len() ==> (#[trigger] offers@[i]).price <= PRICE_LIMIT,
        keys@.len() <= KEY_LIMIT,
    ensures
        offer_views(r.0@) == matched_of(offer_views(offers@), store@, str_views(keys@)),
        r.1 as int == total_of(offer_views(offers@), store@, str_views(keys@)),
        str_views(r.2@) == missing_of(offer_views(offers@), store@, str_views(keys@)),
{
    let ghost ov = offer_views(offers@);
    let ghost kv = str_views(keys@);
    proof {
        assert(forall|j: int| 0 <= j < ov.len() ==> (#[trigger] ov[j]).price == offers@[j].price);
    }
    let mut matched: Vec<ShopOffer> = Vec::new();
    let mut missing: Vec<String> = Vec::new();
    let mut total: u64 = 0;
    let mut i: usize = 0;
    while i < keys.len()
        invariant
            i <= keys@.len(),
            keys@.len() <= KEY_LIMIT,
            ov == offer_views(offers@),
            kv == str_views(keys@),
            kv.len() == keys@.len(),
            forall|j: int| 0 <= j < ov.len() ==> (#[trigger] ov[j]).price <= PRICE_LIMIT,
            offer_views(matched@) == matched_of(ov, store@, kv.take(i as int)),
            str_views(missing@) == missing_of(ov, store@, kv.take(i as int)),
            total as int == total_of(ov, store@, kv.take(i as int)),
            total as int <= i as int * (PRICE_LIMIT as int),
        decreases keys@.len() - i,
    {
        proof {
            assert(kv.take(i as int + 1).drop_last() =~= kv.take(i as int));
            assert(kv.take(i as int + 1).last() == kv[i as int]);
            assert(kv[i as int] == keys@[i as int]@);
        }
        let found = best_offer_for(offers, store, &keys[i]);
        match found {
            Some(o) => {
                proof {
                    lemma_best_for(ov, store@, kv[i as int]);
                    let w = choose|j: int| 0 <= j < ov.len() && ov[j] == o@;
                    assert(o.price <= PRICE_LIMIT);
                    assert(total as int + o.price as int <= (i as int + 1) * (
                    PRICE_LIMIT as int));
                    assert((i as int + 1) * (PRICE_LIMIT as int) <= 0xFFFF_FFFFint
                        * 0xFFFF_FFFFint) by (nonlinear_arith)
                        requires
                            i as int + 1 <= 0xFFFF_FFFFint,
                    ;
                }
                total = total + o.price;
                matched.push(o);
                proof {
                    assert(offer_views(matched@) =~= matched_of(ov, store@, kv.take(
                        i as int + 1,
                    )));
                    assert(str_views(missing@) =~= missing_of(ov, store@, kv.take(i as int + 1)));
                }
            },
            None => {
                missing.push(keys[i].clone());
                proof {
                    assert(offer_views(matched@) =~= matched_of(ov, store@, kv.take(
                        i as int + 1,
                    )));
                    assert(str_views(missing@) =~= missing_of(ov, store@, kv.take(i as int + 1)));
                }
            },
        }
        i = i + 1;
    }
    proof {
        assert(kv.take(keys@.len() as int) =~= kv);
    }
    (matched, total, missing)
}


/// The per-store offers of a request: the flattened views of the per-item
/// candidate lists.
pub open spec fn in_offers(requested: Seq<String>, per_item: Seq<Vec<AnnotatedMatch>>) -> Seq<
    ShopOfferV,
> {
    offers_of(str_views(requested), per_views(per_item))
}

/// The distinct normalized keys of a request.
pub open spec fn in_keys(requested: Seq<String>) -> Seq<Seq<char>> {
    required_keys(str_views(requested))
}

/// Builds one offer from every (requested item, candidate) pair, keying
/// each candidate by its item's normalized name and recording the store,
/// the product data and the distance.
pub fn build_offers(requested: &Vec<String>, per_item: &Vec<Vec<AnnotatedMatch>>) -> (r: Vec<
    ShopOffer,
>)
    requires
        per_item@.len() == requested@.len(),
        forall|i: int, j: int|
            0 <= i < per_item@.len() && 0 <= j < per_item@[i]@.len() ==> ((#[trigger] per_item@[i]@[j]).distance_m is Some
                && per_item@[i]@[j].item.price <= PRICE_LIMIT),
    ensures
        offer_views(r@) == in_offers(requested@, per_item@),
        forall|k: int| 0 <= k < r@.len() ==> (#[trigger] r@[k]).price <= PRICE_LIMIT,
{
    let ghost items = str_views(requested@);
    let ghost per = per_views(per_item@);
    let mut out: Vec<ShopOffer> = Vec::new();
    let mut i: usize = 0;
    while i < requested.len()
        invariant
            per_item@.len() == requested@.len(),
            i <= requested@.len(),
            items == str_views(requested@),
            per == per_views(per_item@),
            items.len() == requested@.len(),
            per.len() == requested@.len(),
            forall|a: int, b: int|
                0 <= a < per_item@.len() && 0 <= b < per_item@[a]@.len() ==> ((
                #[trigger] per_item@[a]@[b]).distance_m is Some && per_item@[a]@[b].item.price
                    <= PRICE_LIMIT),
            offer_views(out@) == offers_of(items.take(i as int), per.take(i as int)),
            forall|k: int| 0 <= k < out@.len() ==> (#[trigger] out@[k]).price <= PRICE_LIMIT,
        decreases requested@.len() - i,
    {
        proof {
            assert(items[i as int] == requested@[i as int]@);
            assert(per[i as int] == per_item@[i as int]@.map_values(|m: AnnotatedMatch| m@));
        }
        let key = normalize(requested[i].as_str());
        let ghost keyv = norm_key(items[i as int]);
        let row = &per_item[i];
        let mut j: usize = 0;
        while j < row.len()
            invariant
                per_item@.len() == requested@.len(),
                i < requested@.len(),
                j <= row@.len(),
                row == &per_item@[i as int],
                items == str_views(requested@),
                per == per_views(per_item@),
                items.len() == requested@.len(),
                per.len() == requested@.len(),
                per[i as int].len() == row@.len(),
                key@ == keyv,
                keyv == norm_key(items[i as int]),
                forall|a: int, b: int|
                    0 <= a < per_item@.len() && 0 <= b < per_item@[a]@.len() ==> ((
                    #[trigger] per_item@[a]@[b]).distance_m is Some && per_item@[a]@[b].item.price
                        <= PRICE_LIMIT),
                offer_views(out@) == offers_of(items.take(i as int), per.take(i as int))
                    + item_offers(keyv, per[i as int].take(j as int)),
                forall|k: int| 0 <= k < out@.len() ==> (#[trigger] out@[k]).price <= PRICE_LIMIT,
            decreases row@.len() - j,
        {
            proof {
                assert(per[i as int][j as int] == per_item@[i as int]@[j as int]@);
            }
            let m = &row[j];
            let off = ShopOffer {
                store: m.item.location.store_name.clone(),
                key: key.clone(),
                name: m.item.name.clone(),
                description: m.item.description.clone(),
                price: m.item.price,
                discount: m.item.discount,
                distance_m: m.distance_m.unwrap(),
            };
            proof {
                assert(off@ == offer_of(keyv, per[i as int][j as int]));
            }
            let ghost pre = out@;
            out.push(off);
            proof {
                assert(item_offers(keyv, per[i as int].take(j as int + 1)) =~= item_offers(
                    keyv,
                    per[i as int].take(j as int),
                ).push(offer_of(keyv, per[i as int][j as int])));
                assert(offer_views(pre.push(off)) =~= offer_views(pre).push(off@));
                assert(offers_of(items.take(i as int), per.take(i as int)) + item_offers(
                    keyv,
                    per[i as int].take(j as int + 1),
                ) =~= (offers_of(items.take(i as int), per.take(i as int)) + item_offers(
                    keyv,
                    per[i as int].take(j as int),
                )).push(offer_of(keyv, per[i as int][j as int])));
                assert(offer_views(out@) =~= offers_of(items.take(i as int), per.take(i as int))
                    + item_offers(keyv, per[i as int].take(j as int + 1)));
            }
            j = j + 1;
        }
        proof {
            assert(per[i as int].take(row@.len() as int) =~= per[i as int]);
            assert(items.take(i as int + 1).drop_last() =~= items.take(i as int));
            assert(per.take(i as int + 1).drop_last() =~= per.take(i as int));
            assert(items.take(i as int + 1).last() == items[i as int]);
            assert(per.take(i as int + 1).last() == per[i as int]);
            assert(offer_views(out@) =~= offers_of(items.take(i as int + 1), per.take(
                i as int + 1,
            )));
        }
        i = i + 1;
    }
    proof {
        assert(items.take(requested@.len() as int) =~= items);
        assert(per.take(requested@.len() as int) =~= per);
    }
    out
}


/// Picks the best single store for a shopping list.
///
/// `per_item` holds, for each requested item (same index), the catalog
/// candidates the per-item price search returned, already annotated with
/// their distance from the shopper. A full-coverage store — one offering
/// something for every distinct normalized requested-item key — always
/// beats a partial one; among full-coverage stores the lowest summed price
/// wins; with no full coverage, the most covered keys win and price breaks
/// ties. All remaining ties go to the store whose offer appears first, so
/// the outcome is a pure function of the inputs. `None` comes back exactly
/// when there are no offers at all.
pub fn optimize(requested: &Vec<String>, per_item: &Vec<Vec<AnnotatedMatch>>) -> (r: Option<
    CoverageResult,
>)
    requires
        per_item@.len() == requested@.len(),
        requested@.len() <= KEY_LIMIT,
        forall|i: int, j: int|
            0 <= i < per_item@.len() && 0 <= j < per_item@[i]@.len() ==> ((#[trigger] per_item@[i]@[j]).distance_m is Some
                && per_item@[i]@[j].item.price <= PRICE_LIMIT),
    ensures
        opt_view(r) == optimize_model(in_offers(requested@, per_item@), in_keys(requested@)),
        r is Some <==> in_offers(requested@, per_item@).len() > 0,
        (match r {
            Some(cr) => ({
                let offs = in_offers(requested@, per_item@);
                let keys = in_keys(requested@);
                &&& cr@.matched_products.len() <= keys.len()
                &&& (forall|i: int, j: int|
                    0 <= i < j < cr@.matched_products.len() ==> (#[trigger] cr@.matched_products[i]).key
                        != (#[trigger] cr@.matched_products[j]).key)
                &&& (cr@.missing_item_keys.len() == 0 <==> is_full(offs, cr@.store, keys))
                &&& (forall|s: Seq<char>|
                    #[trigger] stores_of(offs).contains(s) && is_full(offs, s, keys) ==> is_full(
                        offs,
                        cr@.store,
                        keys,
                    ) && total_of(offs, cr@.store, keys) <= total_of(offs, s, keys))
                &&& ((forall|s: Seq<char>|
                    #[trigger] stores_of(offs).contains(s) ==> !is_full(offs, s, keys)) ==> (
                forall|s: Seq<char>|
                    #[trigger] stores_of(offs).contains(s) ==> !better_partial(
                        offs,
                        keys,
                        s,
                        cr@.store,
                    )))
            }),
            None => true,
        }),
        (exists|s: Seq<char>|
            #[trigger] stores_of(in_offers(requested@, per_item@)).contains(s) && is_full(
                in_offers(requested@, per_item@),
                s,
                in_keys(requested@),
            )) ==> r is Some,
{
    let keys = required_item_keys(requested);
    let offers = build_offers(requested, per_item);
    let stores = store_names(&offers);
    let ghost offs = offer_views(offers@);
    let ghost kv = str_views(keys@);
    let ghost sv = str_views(stores@);
    proof {
        assert(kv == in_keys(requested@));
        assert(offs == in_offers(requested@, per_item@));
        assert(sv == stores_of(offs));
        assert(kv.len() <= KEY_LIMIT);
    }
    let mut best_f: Option<CoverageResult> = None;
    let mut best_p: Option<CoverageResult> = None;
    let mut i: usize = 0;
    while i < stores.len()
        invariant
            i <= stores@.len(),
            offs == offer_views(offers@),
            kv == str_views(keys@),
            sv == str_views(stores@),
            sv.len() == stores@.len(),
            kv.len() == keys@.len(),
            keys@.len() <= KEY_LIMIT,
            forall|k: int| 0 <= k < offers@.len() ==> (#[trigger] offers@[k]).price <= PRICE_LIMIT,
            (match best_full(offs, kv, sv.take(i as int)) {
                Some(w) => best_f matches Some(c) && c@ == result_of(offs, kv, w),
                None => best_f is None,
            }),
            best_full(offs, kv, sv.take(i as int)) is None ==> (match best_partial(
                offs,
                kv,
                sv.take(i as int),
            ) {
                Some(w) => best_p matches Some(c) && c@ == result_of(offs, kv, w),
                None => best_p is None,
            }),
        decreases stores@.len() - i,
    {
        proof {
            assert(sv.take(i as int + 1).drop_last() =~= sv.take(i as int));
            assert(sv.take(i as int + 1).last() == sv[i as int]);
            assert(sv[i as int] == stores@[i as int]@);
        }
        let (matched, total, missing) = store_outcome(&offers, &stores[i], &keys);
        proof {
            lemma_counts(offs, sv[i as int], kv);
        }
        if missing.len() == 0 {
            proof {
                assert(is_full(offs, sv[i as int], kv));
            }
            let replace = match &best_f {
                None => true,
                Some(b) => total < b.total_price,
            };
            if replace {
                best_f = Some(
                    CoverageResult {
                        store: stores[i].clone(),
                        total_price: total,
                        matched_products: matched,
                        missing_item_keys: missing,
                    },
                );
            }
        } else {
            proof {
                assert(str_views(missing@).len() > 0);
                assert(!is_full(offs, sv[i as int], kv));
            }
            let replace = match &best_p {
                None => true,
                Some(b) => matched.len() > b.matched_products.len() || (matched.len()
                    == b.matched_products.len() && total < b.total_price),
            };
            if replace {
                best_p = Some(
                    CoverageResult {
                        store: stores[i].clone(),
                        total_price: total,
                        matched_products: matched,
                        missing_item_keys: missing,
                    },
                );
            }
        }
        i = i + 1;
    }
    proof {
        assert(sv.take(stores@.len() as int) =~= sv);
        lemma_stores_of(offs);
        lemma_required_keys(str_views(requested@));
        lemma_best_full(offs, kv, sv);
        lemma_best_partial(offs, kv, sv);
        match best_full(offs, kv, sv) {
            Some(w) => {
                lemma_matched_distinct(offs, w, kv);
                lemma_counts(offs, w, kv);
            },
            None => {
                match best_partial(offs, kv, sv) {
                    Some(w) => {
                        lemma_matched_distinct(offs, w, kv);
                        lemma_counts(offs, w, kv);
                    },
                    None => {},
                }
            },
        }
    }
    if best_f.is_some() {
        best_f
    } else {
        best_p
    }
}

/// Law: optimization is deterministic — on equal offer sequences and equal
/// key sequences the model names equal outcomes, so re-running the
/// optimizer on an identical request returns an identical result.
pub proof fn lemma_optimize_deterministic(
    offers_a: Seq<ShopOfferV>,
    keys_a: Seq<Seq<char>>,
    offers_b: Seq<ShopOfferV>,
    keys_b: Seq<Seq<char>>,
)
    requires
        offers_a == offers_b,
        keys_a == keys_b,
    ensures
        optimize_model(offers_a, keys_a) == optimize_model(offers_b, keys_b),
{
}

} // verus!
