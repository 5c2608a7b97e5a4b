//! Result composition and coverage optimization for a grocery search service.
//!
//! The library merges fuzzy-match and lowest-price candidate sets into one
//! ranked response, and solves the "best single store for a multi-item
//! shopping list" problem with a partial-coverage fallback. Prices are held
//! in minor currency units and distances in whole metres, so that every rule
//! is stated and proved over plain integers; the surrounding service owns
//! the floating-point geometry and all I/O.

pub mod compose;
pub mod coverage;
pub mod model;
pub mod normalize;

pub use model::AnnotatedMatch;
pub use model::CatalogMatch;
pub use model::CoverageResult;
pub use model::SearchResponse;
pub use model::ShopOffer;
pub use model::StoreLocation;
