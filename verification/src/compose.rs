//! The search-result composer: merges the fuzzy-match candidate set with
//! the lowest-price candidate set into one response.
//!
//! The caller fetches both sets and computes each candidate's distance from
//! the shopper (floating-point geometry stays outside the verified core);
//! this module applies the empty-result fallback rule — when the price
//! search returned nothing and more than one fuzzy match exists, the
//! cheapest fuzzy match is copied into the price list — and annotates every
//! element of both output lists with its distance.

use vstd::prelude::*;

use crate::model::AnnotatedMatch;
use crate::model::AnnotatedMatchV;
use crate::model::CatalogMatch;
use crate::model::CatalogMatchV;
use crate::model::SearchResponse;

verus! {

/// The views of a sequence of catalog candidates.
pub open spec fn cm_views(s: Seq<CatalogMatch>) -> Seq<CatalogMatchV> {
    s.map_values(|m: CatalogMatch| m@)
}

/// The views of a sequence of annotated candidates.
pub open spec fn am_views(s: Seq<AnnotatedMatch>) -> Seq<AnnotatedMatchV> {
    s.map_values(|m: AnnotatedMatch| m@)
}

/// The index of the first minimum-price element: a later element displaces
/// the incumbent only when its price is strictly lower, so equal prices
/// keep the earliest candidate.
pub open spec fn first_min_index(s: Seq<CatalogMatchV>) -> int
    decreases s.len(),
{
    if s.len() <= 1 {
        0
    } else {
        let p = first_min_index(s.drop_last());
        if s.last().price < s[p].price {
            s.len() - 1
        } else {
            p
        }
    }
}

/// Every candidate paired with its distance, annotated.
pub open spec fn annotated_seq(ms: Seq<CatalogMatchV>, ds: Seq<u64>) -> Seq<AnnotatedMatchV> {
    ms.map(|i: int, m: CatalogMatchV| AnnotatedMatchV { item: m, distance_m: Some(ds[i]) })
}

/// What composition returns: the fuzzy matches annotated, and either the
/// price matches annotated or — when the price search came back empty and
/// more than one fuzzy match exists — the single cheapest fuzzy match.
pub open spec fn compose_model(
    fuzzy: Seq<CatalogMatchV>,
    fuzzy_dists: Seq<u64>,
    price: Seq<CatalogMatchV>,
    price_dists: Seq<u64>,
) -> (Seq<AnnotatedMatchV>, Seq<AnnotatedMatchV>) {
    let most = annotated_seq(fuzzy, fuzzy_dists);
    let low = if price.len() == 0 && fuzzy.len() > 1 {
        let i = first_min_index(fuzzy);
        seq![AnnotatedMatchV { item: fuzzy[i], distance_m: Some(fuzzy_dists[i]) }]
    } else {
        annotated_seq(price, price_dists)
    };
    (most, low)
}

/// The first minimum-price index lies in range, holds a minimal price, and
/// every earlier element is strictly more expensive.
pub proof fn lemma_first_min_index(s: Seq<CatalogMatchV>)
    requires
        s.len() > 0,
    ensures
        0 <= first_min_index(s) < s.len(),
        forall|j: int| 0 <= j < s.len() ==> s[first_min_index(s)].price <= (#[trigger] s[j]).price,
        forall|j: int| 0 <= j < first_min_index(s) ==> (#[trigger] s[j]).price > s[first_min_index(s)].price,
    decreases s.len(),
{
    if s.len() > 1 {
        lemma_first_min_index(s.drop_last());
        let p = first_min_index(s.drop_last());
        assert(forall|j: int| 0 <= j < s.len() - 1 ==> s[j] == s.drop_last()[j]);
        assert(s.last() == s[s.len() - 1]);
    }
}

/// Attaches a distance to each candidate, in place: the `i`-th candidate
/// receives the `i`-th distance; the products themselves do not change.
/// A candidate is annotated once per request, so any earlier value is
/// overwritten.
pub fn annotate(matches: &mut Vec<AnnotatedMatch>, dists: &Vec<u64>)
    requires
        old(matches)@.len() == dists@.len(),
    ensures
        final(matches)@.len() == old(matches)@.len(),
        forall|i: int|
            0 <= i < old(matches)@.len() ==> (#[trigger] final(matches)@[i]).item == old(
                matches,
            )@[i].item && final(matches)@[i].distance_m == Some(dists@[i]),
{
    let n = matches.len();
    let mut i: usize = 0;
    while i < n
        invariant
            n == old(matches)@.len(),
            matches@.len() == n,
            dists@.len() == n,
            i <= n,
            forall|j: int| i <= j < n ==> (#[trigger] matches@[j]) == old(matches)@[j],
            forall|j: int|
                0 <= j < i ==> (#[trigger] matches@[j]).item == old(matches)@[j].item
                    && matches@[j].distance_m == Some(dists@[j]),
        decreases n - i,
    {
        let item = matches[i].item.clone();
        assert(item == old(matches)@[i as int].item);
        matches.set(i, AnnotatedMatch { item, distance_m: Some(dists[i]) });
        assert(matches@[i as int].item == old(matches)@[i as int].item);
        assert(matches@[i as int].distance_m == Some(dists@[i as int]));
        i = i + 1;
    }
}

/// The index of the cheapest candidate, ties won by the earliest.
pub fn first_min(items: &Vec<CatalogMatch>) -> (idx: usize)
    requires
        items@.len() > 0,
    ensures
        idx as int == first_min_index(cm_views(items@)),
        idx < items@.len(),
{
    let ghost views = cm_views(items@);
    let mut best: usize = 0;
    let mut j: usize = 1;
    while j < items.len()
        invariant
            1 <= j <= items@.len(),
            best < j,
            views == cm_views(items@),
            views.len() == items@.len(),
            best as int == first_min_index(views.take(j as int)),
        decreases items@.len() - j,
    {
        proof {
            assert(views.take(j as int + 1).drop_last() =~= views.take(j as int));
            assert(views.take(j as int + 1).last() == views[j as int]);
        }
        if items[j].price < items[best].price {
            best = j;
        }
        j = j + 1;
    }
    proof {
        assert(views.take(items@.len() as int) =~= views);
    }
    best
}

/// The ids of a candidate set, in order; the caller hands them to the
/// lowest-price search as its exclusion set.
pub fn collect_ids(matches: &Vec<CatalogMatch>) -> (r: Vec<String>)
    ensures
        r@.len() == matches@.len(),
        forall|i: int| 0 <= i < matches@.len() ==> r@[i]@ == matches@[i].id@,
{
    let mut r: Vec<String> = Vec::new();
    let mut i: usize = 0;
    while i < matches.len()
        invariant
            i <= matches@.len(),
            r@.len() == i,
            forall|j: int| 0 <= j < i ==> r@[j]@ == matches@[j].id@,
        decreases matches@.len() - i,
    {
        r.push(matches[i].id.clone());
        i = i + 1;
    }
    r
}

/// The first candidate of a set, annotated with its distance; `None` when
/// the set is empty. This is the whole decision behind the "does this
/// product exist near me" and "does this shop sell it" answers.
pub fn first_annotated(matches: &Vec<CatalogMatch>, dists: &Vec<u64>) -> (r: Option<
    AnnotatedMatch,
>)
    requires
        matches@.len() == dists@.len(),
    ensures
        matches@.len() == 0 ==> r is None,
        matches@.len() > 0 ==> (r matches Some(m) && m.item == matches@[0]
            && m.distance_m == Some(dists@[0])),
{
    if matches.len() == 0 {
        None
    } else {
        Some(AnnotatedMatch { item: matches[0].clone(), distance_m: Some(dists[0]) })
    }
}

/// Merges the two candidate sets into the final response.
///
/// `fuzzy_dists` and `price_dists` hold each candidate's distance from the
/// shopper in metres, computed by the caller. Every element of both output
/// lists is annotated; when the price set is empty and more than one fuzzy
/// match exists, the returned price list is exactly one copy of the
/// cheapest fuzzy match (earliest on price ties), which also remains in the
/// similarity list.
pub fn compose(
    fuzzy: &Vec<CatalogMatch>,
    fuzzy_dists: &Vec<u64>,
    price: &Vec<CatalogMatch>,
    price_dists: &Vec<u64>,
) -> (r: SearchResponse)
    requires
        fuzzy@.len() == fuzzy_dists@.len(),
        price@.len() == price_dists@.len(),
    ensures
        (am_views(r.most_similar@), am_views(r.lowest_price@)) == compose_model(
            cm_views(fuzzy@),
            fuzzy_dists@,
            cm_views(price@),
            price_dists@,
        ),
        forall|i: int|
            0 <= i < r.most_similar@.len() ==> (#[trigger] r.most_similar@[i]).distance_m is Some,
        forall|i: int|
            0 <= i < r.lowest_price@.len() ==> (#[trigger] r.lowest_price@[i]).distance_m is Some,
        price@.len() == 0 && fuzzy@.len() > 1 ==> r.lowest_price@.len() == 1 && (forall|j: int|
            0 <= j < fuzzy@.len() ==> r.lowest_price@[0].item.price <= (#[trigger] fuzzy@[j]).price),
{
    let mut most: Vec<AnnotatedMatch> = Vec::new();
    let mut i: usize = 0;
    while i < fuzzy.len()
        invariant
            fuzzy@.len() == fuzzy_dists@.len(),
            i <= fuzzy@.len(),
            most@.len() == i,
            forall|j: int|
                0 <= j < i ==> (#[trigger] most@[j]).item == fuzzy@[j] && most@[j].distance_m
                    == Some(fuzzy_dists@[j]),
        decreases fuzzy@.len() - i,
    {
        let it = fuzzy[i].clone();
        assert(it == fuzzy@[i as int]);
        most.push(AnnotatedMatch { item: it, distance_m: Some(fuzzy_dists[i]) });
        assert(most@[i as int].item == fuzzy@[i as int]);
        assert(most@[i as int].distance_m == Some(fuzzy_dists@[i as int]));
        i = i + 1;
    }
    let mut low: Vec<AnnotatedMatch> = Vec::new();
    if price.len() == 0 && fuzzy.len() > 1 {
        let idx = first_min(fuzzy);
        proof {
            lemma_first_min_index(cm_views(fuzzy@));
        }
        low.push(AnnotatedMatch { item: fuzzy[idx].clone(), distance_m: Some(fuzzy_dists[idx]) });
        proof {
            assert(low@[0].item == fuzzy@[idx as int]);
            assert(forall|j: int|
                0 <= j < fuzzy@.len() ==> cm_views(fuzzy@)[j] == (#[trigger] fuzzy@[j])@);
            assert(forall|j: int|
                0 <= j < fuzzy@.len() ==> low@[0].item.price <= (#[trigger] fuzzy@[j]).price);
        }
    } else {
        let mut k: usize = 0;
        while k < price.len()
            invariant
                price@.len() == price_dists@.len(),
                k <= price@.len(),
                low@.len() == k,
                forall|j: int|
                    0 <= j < k ==> (#[trigger] low@[j]).item == price@[j] && low@[j].distance_m
                        == Some(price_dists@[j]),
            decreases price@.len() - k,
        {
            let it = price[k].clone();
            assert(it == price@[k as int]);
            low.push(AnnotatedMatch { item: it, distance_m: Some(price_dists[k]) });
            assert(low@[k as int].item == price@[k as int]);
            assert(low@[k as int].distance_m == Some(price_dists@[k as int]));
            k = k + 1;
        }
    }
    let r = SearchResponse { most_similar: most, lowest_price: low };
    proof {
        assert(am_views(r.most_similar@) =~= compose_model(
            cm_views(fuzzy@),
            fuzzy_dists@,
            cm_views(price@),
            price_dists@,
        ).0);
        assert(am_views(r.lowest_price@) =~= compose_model(
            cm_views(fuzzy@),
            fuzzy_dists@,
            cm_views(price@),
            price_dists@,
        ).1);
    }
    r
}

/// Law: composition is deterministic — equal inputs give equal outputs, so
/// re-running it on identical candidate sets yields an identical response.
pub proof fn lemma_compose_deterministic(
    fuzzy_a: Seq<CatalogMatchV>,
    fuzzy_dists_a: Seq<u64>,
    price_a: Seq<CatalogMatchV>,
    price_dists_a: Seq<u64>,
    fuzzy_b: Seq<CatalogMatchV>,
    fuzzy_dists_b: Seq<u64>,
    price_b: Seq<CatalogMatchV>,
    price_dists_b: Seq<u64>,
)
    requires
        fuzzy_a == fuzzy_b,
        fuzzy_dists_a == fuzzy_dists_b,
        price_a == price_b,
        price_dists_a == price_dists_b,
    ensures
        compose_model(fuzzy_a, fuzzy_dists_a, price_a, price_dists_a) == compose_model(
            fuzzy_b,
            fuzzy_dists_b,
            price_b,
            price_dists_b,
        ),
{
}

} // verus!
