use tachyon::filter::{concat_parts, substring_filter};

#[test]
fn concat_rebuilds_the_query() {
    let parts = vec!["ab".to_string(), "cd".to_string(), "".to_string(), "e".to_string()];
    assert_eq!(concat_parts(&parts), "abcde".to_string());
}

#[test]
fn concat_of_nothing_is_empty() {
    assert_eq!(concat_parts(&Vec::new()), String::new());
}

#[test]
fn filter_keeps_only_containing_texts() {
    let pairs = vec![
        (1i64, "hello".to_string()),
        (2i64, "world".to_string()),
        (3i64, "hell".to_string()),
    ];
    assert_eq!(substring_filter(&pairs, "ell"), vec![1, 3]);
    assert_eq!(substring_filter(&pairs, "xyz"), Vec::<i64>::new());
}

#[test]
fn filter_with_empty_needle_passes_everything() {
    let pairs = vec![
        (4i64, "alpha".to_string()),
        (2i64, "".to_string()),
        (4i64, "beta".to_string()),
    ];
    assert_eq!(substring_filter(&pairs, ""), vec![4, 2, 4]);
}

#[test]
fn filter_is_not_a_passthrough() {
    let pairs = vec![(7i64, "help".to_string())];
    assert_eq!(substring_filter(&pairs, "lo"), Vec::<i64>::new());
    let pairs = vec![(7i64, "hello".to_string())];
    assert_eq!(substring_filter(&pairs, "lo"), vec![7]);
}
