//! The request-scoped data model: catalog candidates, annotated candidates,
//! per-store offers and the coverage outcome.
//!
//! Monetary amounts are minor currency units (`u64`), distances are whole
//! metres (`u64`) and coordinates are microdegrees (`i64`): plain integers
//! that the contracts can speak about exactly. Each type has a ghost view
//! (`...V`) over `Seq<char>` and integers; all contracts are stated over
//! those views.

use vstd::prelude::*;

verus! {

/// Where an offer is sold: the store's name and its coordinates in
/// microdegrees (degree * 1_000_000).
#[derive(Debug, PartialEq, Eq)]
pub struct StoreLocation {
    pub lat_micro: i64,
    pub lon_micro: i64,
    pub store_name: String,
}

/// Ghost view of [`StoreLocation`].
pub struct StoreLocationV {
    pub lat_micro: i64,
    pub lon_micro: i64,
    pub store_name: Seq<char>,
}

impl View for StoreLocation {
    type V = StoreLocationV;

    open spec fn view(&self) -> StoreLocationV {
        StoreLocationV {
            lat_micro: self.lat_micro,
            lon_micro: self.lon_micro,
            store_name: self.store_name@,
        }
    }
}

impl Clone for StoreLocation {
    fn clone(&self) -> (r: Self)
        ensures
            r == *self,
    {
        StoreLocation {
            lat_micro: self.lat_micro,
            lon_micro: self.lon_micro,
            store_name: self.store_name.clone(),
        }
    }
}

/// One product offer as the external catalog search returns it:
/// identity, descriptive text, a price in minor units, a discount in minor
/// units and the store it is sold at.
#[derive(Debug, PartialEq, Eq)]
pub struct CatalogMatch {
    pub id: String,
    pub name: String,
    pub description: String,
    pub price: u64,
    pub discount: u64,
    pub location: StoreLocation,
}

/// Ghost view of [`CatalogMatch`].
pub struct CatalogMatchV {
    pub id: Seq<char>,
    pub name: Seq<char>,
    pub description: Seq<char>,
    pub price: u64,
    pub discount: u64,
    pub location: StoreLocationV,
}

impl View for CatalogMatch {
    type V = CatalogMatchV;

    open spec fn view(&self) -> CatalogMatchV {
        CatalogMatchV {
            id: self.id@,
            name: self.name@,
            description: self.description@,
            price: self.price,
            discount: self.discount,
            location: self.location@,
        }
    }
}

impl Clone for CatalogMatch {
    fn clone(&self) -> (r: Self)
        ensures
            r == *self,
    {
        CatalogMatch {
            id: self.id.clone(),
            name: self.name.clone(),
            description: self.description.clone(),
            price: self.price,
            discount: self.discount,
            location: self.location.clone(),
        }
    }
}

/// A catalog candidate together with its distance from the shopper in
/// metres; `None` until the annotation step has run.
#[derive(Debug, PartialEq, Eq)]
pub struct AnnotatedMatch {
    pub item: CatalogMatch,
    pub distance_m: Option<u64>,
}

/// Ghost view of [`AnnotatedMatch`].
pub struct AnnotatedMatchV {
    pub item: CatalogMatchV,
    pub distance_m: Option<u64>,
}

impl View for AnnotatedMatch {
    type V = AnnotatedMatchV;

    open spec fn view(&self) -> AnnotatedMatchV {
        AnnotatedMatchV { item: self.item@, distance_m: self.distance_m }
    }
}

impl Clone for AnnotatedMatch {
    fn clone(&self) -> (r: Self)
        ensures
            r == *self,
    {
        AnnotatedMatch { item: self.item.clone(), distance_m: self.distance_m }
    }
}

/// The merged answer to a single free-text query: candidates ranked by text
/// similarity and candidates ranked by price, both distance-annotated.
#[derive(Debug, PartialEq, Eq)]
pub struct SearchResponse {
    pub most_similar: Vec<AnnotatedMatch>,
    pub lowest_price: Vec<AnnotatedMatch>,
}

/// A per-store, per-requested-item candidate used during coverage
/// computation: the store, the normalized key of the requested item the
/// offer answers, the product data and the distance from the shopper.
#[derive(Debug, PartialEq, Eq)]
pub struct ShopOffer {
    pub store: String,
    pub key: String,
    pub name: String,
    pub description: String,
    pub price: u64,
    pub discount: u64,
    pub distance_m: u64,
}

/// Ghost view of [`ShopOffer`].
pub struct ShopOfferV {
    pub store: Seq<char>,
    pub key: Seq<char>,
    pub name: Seq<char>,
    pub description: Seq<char>,
    pub price: u64,
    pub discount: u64,
    pub distance_m: u64,
}

impl View for ShopOffer {
    type V = ShopOfferV;

    open spec fn view(&self) -> ShopOfferV {
        ShopOfferV {
            store: self.store@,
            key: self.key@,
            name: self.name@,
            description: self.description@,
            price: self.price,
            discount: self.discount,
            distance_m: self.distance_m,
        }
    }
}

impl Clone for ShopOffer {
    fn clone(&self) -> (r: Self)
        ensures
            r == *self,
    {
        ShopOffer {
            store: self.store.clone(),
            key: self.key.clone(),
            name: self.name.clone(),
            description: self.description.clone(),
            price: self.price,
            discount: self.discount,
            distance_m: self.distance_m,
        }
    }
}

/// The optimizer's answer: the chosen store, the summed price of its
/// selected offers, one best offer per covered requested item, and the
/// normalized keys of the requested items the store does not cover.
#[derive(Debug, PartialEq, Eq)]
pub struct CoverageResult {
    pub store: String,
    pub total_price: u64,
    pub matched_products: Vec<ShopOffer>,
    pub missing_item_keys: Vec<String>,
}

/// Ghost view of [`CoverageResult`]; the total is an unbounded integer.
pub struct CoverageResultV {
    pub store: Seq<char>,
    pub total_price: int,
    pub matched_products: Seq<ShopOfferV>,
    pub missing_item_keys: Seq<Seq<char>>,
}

impl View for CoverageResult {
    type V = CoverageResultV;

    open spec fn view(&self) -> CoverageResultV {
        CoverageResultV {
            store: self.store@,
            total_price: self.total_price as int,
            matched_products: self.matched_products@.map_values(|o: ShopOffer| o@),
            missing_item_keys: self.missing_item_keys@.map_values(|k: String| k@),
        }
    }
}

} // verus!
