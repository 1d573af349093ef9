use cargo_raze::sort::sort_stable;
use cargo_raze::text::{
    chars_lt, chars_of, copy_strings, find_chars, join_strings, owned, replace_dashes, sort_strings,
    str_equal, str_less, string_from_chars,
};

fn strings(items: &[&str]) -> Vec<String> {
    items.iter().map(|s| s.to_string()).collect()
}

#[test]
fn replace_dashes_turns_dashes_into_underscores() {
    assert_eq!(replace_dashes("x86_64-unknown-linux-gnu"), "x86_64_unknown_linux_gnu");
    assert_eq!(replace_dashes("test-library"), "test_library");
    assert_eq!(replace_dashes(""), "");
}

#[test]
fn replace_dashes_twice_changes_nothing_more() {
    let once = replace_dashes("a-b--c-");
    assert_eq!(once, "a_b__c_");
    assert_eq!(replace_dashes(&once), once);
}

#[test]
fn join_strings_separates_items() {
    assert_eq!(join_strings(&strings(&["a", "b", "c"]), ", "), "a, b, c");
    assert_eq!(join_strings(&strings(&["only"]), ", "), "only");
    assert_eq!(join_strings(&Vec::new(), ", "), "");
}

#[test]
fn sort_strings_orders_lexicographically() {
    let sorted = sort_strings(strings(&["use_std", "default", "Zed", "abc", "ab"]));
    assert_eq!(sorted, strings(&["Zed", "ab", "abc", "default", "use_std"]));
}

#[test]
fn sort_stable_keeps_equal_keys_in_order() {
    let sorted = sort_stable(strings(&["b", "a", "b", "a"]));
    assert_eq!(sorted, strings(&["a", "a", "b", "b"]));
}

#[test]
fn string_comparisons_match_rust() {
    assert!(str_less("abc", "abd"));
    assert!(str_less("ab", "abc"));
    assert!(!str_less("abc", "abc"));
    assert!(!str_less("b", "abc"));
    assert!(str_equal("same", "same"));
    assert!(!str_equal("same", "Same"));
    assert!(chars_lt(&chars_of("a"), &chars_of("b")));
}

#[test]
fn find_chars_finds_the_first_occurrence() {
    let hay = chars_of("/ws/vendor/log-0.3.9/src/log-0.3.9/x.rs");
    let needle = chars_of("log-0.3.9/");
    assert_eq!(find_chars(&hay, &needle), Some(11));
    assert_eq!(find_chars(&hay, &chars_of("missing")), None);
    assert_eq!(find_chars(&hay, &chars_of("")), Some(0));
}

#[test]
fn string_from_chars_takes_a_suffix() {
    let cs = chars_of("vendor/src/lib.rs");
    assert_eq!(string_from_chars(&cs, 7), "src/lib.rs");
    assert_eq!(string_from_chars(&cs, cs.len()), "");
}

#[test]
fn copies_are_equal() {
    assert_eq!(owned("abc"), "abc");
    let v = strings(&["x", "y"]);
    assert_eq!(copy_strings(&v), v);
}
