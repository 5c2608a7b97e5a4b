use search_core::compose::annotate;
use search_core::compose::collect_ids;
use search_core::compose::compose;
use search_core::compose::first_annotated;
use search_core::compose::first_min;
use search_core::AnnotatedMatch;
use search_core::CatalogMatch;
use search_core::StoreLocation;

fn candidate(id: &str, name: &str, price: u64, store: &str) -> CatalogMatch {
    CatalogMatch {
        id: id.to_string(),
        name: name.to_string(),
        description: format!("{} from {}", name, store),
        price,
        discount: 0,
        location: StoreLocation {
            lat_micro: 45_000_000,
            lon_micro: 9_000_000,
            store_name: store.to_string(),
        },
    }
}

#[test]
fn fallback_copies_cheapest_fuzzy_match() {
    // Query "appl": two fuzzy matches, nothing from the price search.
    let fuzzy = vec![
        candidate("1", "AppleRed", 300, "A"),
        candidate("2", "AppleGreen", 200, "A"),
    ];
    let fuzzy_dists = vec![10, 20];
    let price: Vec<CatalogMatch> = vec![];
    let price_dists: Vec<u64> = vec![];
    let r = compose(&fuzzy, &fuzzy_dists, &price, &price_dists);
    assert_eq!(r.lowest_price.len(), 1);
    assert_eq!(r.lowest_price[0].item.name, "AppleGreen");
    assert_eq!(r.lowest_price[0].item.price, 200);
    assert_eq!(r.lowest_price[0].distance_m, Some(20));
    // The similarity list is unchanged in content and order, and annotated.
    assert_eq!(r.most_similar.len(), 2);
    assert_eq!(r.most_similar[0].item.name, "AppleRed");
    assert_eq!(r.most_similar[1].item.name, "AppleGreen");
    for m in &r.most_similar {
        assert!(m.distance_m.is_some());
    }
    // The copied element also remains in the similarity list.
    assert_eq!(r.most_similar[1].item, r.lowest_price[0].item);
}

#[test]
fn fallback_tie_keeps_first_seen() {
    let fuzzy = vec![
        candidate("1", "First", 200, "A"),
        candidate("2", "Second", 200, "A"),
        candidate("3", "Third", 400, "A"),
    ];
    let dists = vec![1, 2, 3];
    let r = compose(&fuzzy, &dists, &vec![], &vec![]);
    assert_eq!(r.lowest_price.len(), 1);
    assert_eq!(r.lowest_price[0].item.name, "First");
}

#[test]
fn no_fallback_for_single_fuzzy_match() {
    let fuzzy = vec![candidate("1", "Only", 100, "A")];
    let r = compose(&fuzzy, &vec![5], &vec![], &vec![]);
    assert_eq!(r.lowest_price.len(), 0);
    assert_eq!(r.most_similar.len(), 1);
    assert_eq!(r.most_similar[0].distance_m, Some(5));
}

#[test]
fn no_fallback_when_price_results_exist() {
    let fuzzy = vec![
        candidate("1", "Dear", 900, "A"),
        candidate("2", "Cheap", 100, "A"),
    ];
    let price = vec![candidate("3", "Bargain", 50, "B")];
    let r = compose(&fuzzy, &vec![1, 2], &price, &vec![7]);
    assert_eq!(r.lowest_price.len(), 1);
    assert_eq!(r.lowest_price[0].item.name, "Bargain");
    assert_eq!(r.lowest_price[0].distance_m, Some(7));
}

#[test]
fn empty_query_results_stay_empty() {
    let r = compose(&vec![], &vec![], &vec![], &vec![]);
    assert_eq!(r.most_similar.len(), 0);
    assert_eq!(r.lowest_price.len(), 0);
}

#[test]
fn compose_is_deterministic() {
    let fuzzy = vec![
        candidate("1", "AppleRed", 300, "A"),
        candidate("2", "AppleGreen", 200, "A"),
    ];
    let dists = vec![10, 20];
    let a = compose(&fuzzy, &dists, &vec![], &vec![]);
    let b = compose(&fuzzy, &dists, &vec![], &vec![]);
    assert_eq!(a.most_similar, b.most_similar);
    assert_eq!(a.lowest_price, b.lowest_price);
}

#[test]
fn annotate_sets_every_distance_in_place() {
    let mut ms = vec![
        AnnotatedMatch { item: candidate("1", "Milk", 200, "A"), distance_m: None },
        AnnotatedMatch { item: candidate("2", "Bread", 300, "B"), distance_m: None },
    ];
    annotate(&mut ms, &vec![111, 222]);
    assert_eq!(ms[0].distance_m, Some(111));
    assert_eq!(ms[1].distance_m, Some(222));
    assert_eq!(ms[0].item.name, "Milk");
    assert_eq!(ms[1].item.name, "Bread");
}

#[test]
fn first_min_prefers_earliest_on_tie() {
    let items = vec![
        candidate("1", "a", 5, "A"),
        candidate("2", "b", 3, "A"),
        candidate("3", "c", 3, "A"),
    ];
    assert_eq!(first_min(&items), 1);
}

#[test]
fn collect_ids_keeps_order() {
    let items = vec![
        candidate("x1", "a", 1, "A"),
        candidate("x2", "b", 2, "A"),
    ];
    let ids = collect_ids(&items);
    assert_eq!(ids, vec!["x1".to_string(), "x2".to_string()]);
}

#[test]
fn first_annotated_answers_existence() {
    let found = vec![candidate("1", "Milk", 200, "A")];
    let some = first_annotated(&found, &vec![42]);
    match some {
        Some(m) => {
            assert_eq!(m.item.name, "Milk");
            assert_eq!(m.distance_m, Some(42));
        },
        None => panic!("expected a match"),
    }
    let none = first_annotated(&vec![], &vec![]);
    assert!(none.is_none());
}
