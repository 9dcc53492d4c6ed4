use distri_core::pricing::{non_cached_input, select_pricing_key};

fn keys(k: &[&str]) -> Vec<String> {
    k.iter().map(|s| s.to_string()).collect()
}

#[test]
fn exact_key_wins() {
    let k = keys(&["gpt-4o", "gpt-5.1", "gpt-5"]);
    assert_eq!(select_pricing_key("gpt-5.1", &k), Some(1));
}

#[test]
fn longest_contained_key_wins() {
    let k = keys(&["gpt-4o", "gpt-4o-mini", "mistral-large"]);
    assert_eq!(select_pricing_key("gpt-4o-mini-2024-07-18", &k), Some(1));
    assert_eq!(select_pricing_key("totally-unknown-model", &k), None);
}

#[test]
fn ties_go_to_the_last_key_walked() {
    let k = keys(&["abc", "xyz"]);
    assert_eq!(select_pricing_key("abc-xyz", &k), Some(1));
}

#[test]
fn cached_tokens_are_not_charged_twice() {
    assert_eq!(non_cached_input(1_000_000, 500_000), 500_000);
    assert_eq!(non_cached_input(10, 20), 0);
}
