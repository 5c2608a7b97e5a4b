use search_core::normalize::normalize;

#[test]
fn lowercases_and_trims() {
    assert_eq!(normalize("  MiLk  "), "milk");
}

#[test]
fn collapses_inner_whitespace() {
    assert_eq!(normalize("whole \t wheat\nbread"), "whole wheat bread");
}

#[test]
fn strips_punctuation() {
    assert_eq!(normalize("semi-skimmed milk, 1L!"), "semiskimmed milk 1l");
}

#[test]
fn keeps_digits() {
    assert_eq!(normalize("Eggs 12"), "eggs 12");
}

#[test]
fn empty_input_gives_empty_key() {
    assert_eq!(normalize(""), "");
}

#[test]
fn punctuation_only_gives_empty_key() {
    assert_eq!(normalize("?!,. --"), "");
}

#[test]
fn non_ascii_is_stripped() {
    assert_eq!(normalize("caffè"), "caff");
}

#[test]
fn same_input_same_key() {
    let a = normalize("  Fresh   Bread ");
    let b = normalize("  Fresh   Bread ");
    assert_eq!(a, b);
    assert_eq!(a, "fresh bread");
}
