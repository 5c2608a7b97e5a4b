use search_core::coverage::best_offer_for;
use search_core::coverage::build_offers;
use search_core::coverage::optimize;
use search_core::coverage::required_item_keys;
use search_core::coverage::store_names;
use search_core::AnnotatedMatch;
use search_core::CatalogMatch;
use search_core::StoreLocation;

fn offer(name: &str, price: u64, store: &str) -> AnnotatedMatch {
    AnnotatedMatch {
        item: CatalogMatch {
            id: format!("{}-{}", store, name),
            name: name.to_string(),
            description: String::new(),
            price,
            discount: 0,
            location: StoreLocation {
                lat_micro: 45_000_000,
                lon_micro: 9_000_000,
                store_name: store.to_string(),
            },
        },
        distance_m: Some(1_000),
    }
}

fn items(names: &[&str]) -> Vec<String> {
    names.iter().map(|n| n.to_string()).collect()
}

#[test]
fn full_coverage_store_wins_with_its_total() {
    // milk and bread: store A covers both for 500; store B has only milk.
    let requested = items(&["milk", "bread"]);
    let per_item = vec![
        vec![offer("Milk", 200, "A"), offer("Milk", 150, "B")],
        vec![offer("Bread", 300, "A")],
    ];
    let r = optimize(&requested, &per_item).expect("a store should be chosen");
    assert_eq!(r.store, "A");
    assert_eq!(r.total_price, 500);
    assert!(r.missing_item_keys.is_empty());
    assert_eq!(r.matched_products.len(), 2);
}

#[test]
fn partial_store_reports_missing_keys() {
    // milk and eggs: only store B offers milk; nobody offers eggs.
    let requested = items(&["milk", "eggs"]);
    let per_item = vec![vec![offer("Milk", 150, "B")], vec![]];
    let r = optimize(&requested, &per_item).expect("a store should be chosen");
    assert_eq!(r.store, "B");
    assert_eq!(r.missing_item_keys, vec!["eggs".to_string()]);
    assert_eq!(r.matched_products.len(), 1);
    assert_eq!(r.total_price, 150);
}

#[test]
fn full_coverage_beats_cheaper_partial() {
    let requested = items(&["milk", "bread"]);
    let per_item = vec![
        vec![offer("Milk", 900, "Full"), offer("Milk", 10, "Partial")],
        vec![offer("Bread", 900, "Full")],
    ];
    let r = optimize(&requested, &per_item).expect("a store should be chosen");
    assert_eq!(r.store, "Full");
    assert!(r.missing_item_keys.is_empty());
}

#[test]
fn cheapest_full_coverage_store_wins() {
    let requested = items(&["milk", "bread"]);
    let per_item = vec![
        vec![offer("Milk", 200, "A"), offer("Milk", 100, "B")],
        vec![offer("Bread", 300, "A"), offer("Bread", 250, "B")],
    ];
    let r = optimize(&requested, &per_item).expect("a store should be chosen");
    assert_eq!(r.store, "B");
    assert_eq!(r.total_price, 350);
}

#[test]
fn full_coverage_total_tie_keeps_first_seen_store() {
    let requested = items(&["milk"]);
    let per_item = vec![vec![offer("Milk", 200, "A"), offer("Milk", 200, "B")]];
    let r = optimize(&requested, &per_item).expect("a store should be chosen");
    assert_eq!(r.store, "A");
}

#[test]
fn partial_winner_maximizes_matched_count() {
    let requested = items(&["milk", "bread", "eggs"]);
    let per_item = vec![
        vec![offer("Milk", 500, "Two"), offer("Milk", 1, "One")],
        vec![offer("Bread", 500, "Two")],
        vec![],
    ];
    let r = optimize(&requested, &per_item).expect("a store should be chosen");
    assert_eq!(r.store, "Two");
    assert_eq!(r.matched_products.len(), 2);
    assert_eq!(r.missing_item_keys, vec!["eggs".to_string()]);
}

#[test]
fn partial_count_tie_broken_by_total_price() {
    let requested = items(&["milk", "eggs"]);
    let per_item = vec![
        vec![offer("Milk", 300, "Dear"), offer("Milk", 100, "Cheap")],
        vec![],
    ];
    let r = optimize(&requested, &per_item).expect("a store should be chosen");
    assert_eq!(r.store, "Cheap");
    assert_eq!(r.total_price, 100);
}

#[test]
fn per_key_selection_takes_cheapest_and_keeps_first_on_tie() {
    let requested = items(&["milk"]);
    let per_item = vec![vec![
        offer("MilkDear", 300, "A"),
        offer("MilkCheapFirst", 100, "A"),
        offer("MilkCheapSecond", 100, "A"),
    ]];
    let r = optimize(&requested, &per_item).expect("a store should be chosen");
    assert_eq!(r.matched_products.len(), 1);
    assert_eq!(r.matched_products[0].name, "MilkCheapFirst");
    assert_eq!(r.total_price, 100);
}

#[test]
fn duplicate_requested_items_collapse_to_one_key() {
    let requested = items(&["Milk", "  milk "]);
    let per_item = vec![vec![offer("Milk", 200, "A")], vec![offer("Milk", 150, "B")]];
    let r = optimize(&requested, &per_item).expect("a store should be chosen");
    // One distinct key, so either store fully covers; B is cheaper.
    assert_eq!(r.store, "B");
    assert!(r.missing_item_keys.is_empty());
    assert_eq!(r.matched_products.len(), 1);
}

#[test]
fn matched_keys_are_distinct_and_bounded() {
    let requested = items(&["milk", "milk", "bread"]);
    let per_item = vec![
        vec![offer("Milk", 200, "A")],
        vec![offer("MilkAgain", 180, "A")],
        vec![offer("Bread", 300, "A")],
    ];
    let r = optimize(&requested, &per_item).expect("a store should be chosen");
    assert!(r.matched_products.len() <= 2);
    for i in 0..r.matched_products.len() {
        for j in (i + 1)..r.matched_products.len() {
            assert_ne!(r.matched_products[i].key, r.matched_products[j].key);
        }
    }
}

#[test]
fn no_offers_means_no_result() {
    let requested = items(&["milk", "eggs"]);
    let per_item: Vec<Vec<AnnotatedMatch>> = vec![vec![], vec![]];
    assert!(optimize(&requested, &per_item).is_none());
}

#[test]
fn empty_request_means_no_result() {
    let requested: Vec<String> = vec![];
    let per_item: Vec<Vec<AnnotatedMatch>> = vec![];
    assert!(optimize(&requested, &per_item).is_none());
}

#[test]
fn optimize_is_deterministic() {
    let requested = items(&["milk", "bread"]);
    let per_item = vec![
        vec![offer("Milk", 200, "A"), offer("Milk", 150, "B")],
        vec![offer("Bread", 300, "A"), offer("Bread", 350, "B")],
    ];
    let a = optimize(&requested, &per_item);
    let b = optimize(&requested, &per_item);
    assert_eq!(a, b);
}

#[test]
fn required_item_keys_collapse_duplicates_in_order() {
    let keys = required_item_keys(&items(&["Milk ", "BREAD", "milk"]));
    assert_eq!(keys, vec!["milk".to_string(), "bread".to_string()]);
}

#[test]
fn store_names_keep_first_appearance_order() {
    let requested = items(&["milk"]);
    let per_item = vec![vec![
        offer("Milk", 1, "B"),
        offer("Milk", 2, "A"),
        offer("Milk", 3, "B"),
    ]];
    let offers = build_offers(&requested, &per_item);
    let names = store_names(&offers);
    assert_eq!(names, vec!["B".to_string(), "A".to_string()]);
}

#[test]
fn best_offer_for_filters_by_store_and_key() {
    let requested = items(&["milk", "bread"]);
    let per_item = vec![
        vec![offer("Milk", 200, "A"), offer("Milk", 100, "B")],
        vec![offer("Bread", 300, "A")],
    ];
    let offers = build_offers(&requested, &per_item);
    let b = best_offer_for(&offers, &"B".to_string(), &"milk".to_string())
        .expect("store B offers milk");
    assert_eq!(b.price, 100);
    assert!(best_offer_for(&offers, &"B".to_string(), &"bread".to_string()).is_none());
}
