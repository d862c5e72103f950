use cnc_remedy::order::{sorted_texts, text_le_chars};

#[test]
fn texts_sort_like_strings() {
    let items: Vec<String> = ["b", "a", "ab", "", "B", "я", "a"].iter().map(|s| s.to_string()).collect();
    let mut expected = items.clone();
    expected.sort();
    assert_eq!(sorted_texts(&items), expected);
}

#[test]
fn order_of_two_texts() {
    let a: Vec<char> = "abc".chars().collect();
    let b: Vec<char> = "abd".chars().collect();
    let p: Vec<char> = "ab".chars().collect();
    assert!(text_le_chars(&a, &b));
    assert!(!text_le_chars(&b, &a));
    assert!(text_le_chars(&p, &a));
    assert!(!text_le_chars(&a, &p));
    assert!(text_le_chars(&a, &a));
}
