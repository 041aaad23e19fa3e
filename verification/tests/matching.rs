use tachyon::session::Tachyon;

fn corpus(items: &[&str]) -> Vec<String> {
    items.iter().map(|s| s.to_string()).collect()
}

#[test]
fn empty_query_passthrough() {
    let mut t = Tachyon::new(corpus(&["main.rs", "lib.rs"]), true, false);
    let idxs = vec![2usize, 1, 2, 99];
    let out = t.match_idx(idxs.clone(), String::new(), Some(1));
    assert_eq!(out, idxs);
}

#[test]
fn empty_query_highlight_is_present_and_empty() {
    let mut t = Tachyon::new(corpus(&["main.rs"]), true, false);
    let out = t.match_indices(1, String::new());
    assert_eq!(out, Some(Vec::new()));
}

#[test]
fn out_of_range_candidates_are_filtered() {
    let mut t = Tachyon::new(corpus(&["alpha", "banana"]), true, false);
    let out = t.match_idx(vec![0, 1, 1000000], "a".to_string(), None);
    assert!(!out.contains(&0));
    assert!(!out.contains(&1000000));
    assert_eq!(out, vec![1]);
}

#[test]
fn equal_scores_keep_ascending_index_order() {
    let mut t = Tachyon::new(corpus(&["abc", "abc"]), true, false);
    let out = t.match_idx(vec![2, 1], "abc".to_string(), None);
    assert_eq!(out, vec![1, 2]);
}

#[test]
fn limit_truncates_to_a_prefix() {
    let mut t = Tachyon::new(corpus(&["abc", "xaxbxc", "ab", "abcd"]), true, false);
    let idxs = vec![1usize, 2, 3, 4];
    let full = t.match_idx(idxs.clone(), "abc".to_string(), None);
    let limited = t.match_idx(idxs, "abc".to_string(), Some(2));
    assert!(limited.len() <= 2);
    assert_eq!(limited[..], full[..limited.len()]);
}

#[test]
fn repeated_calls_return_identical_results() {
    let mut t = Tachyon::new(corpus(&["main.rs", "lib.rs", "README.md"]), true, false);
    let a = t.match_idx(vec![1, 2, 3], "mrs".to_string(), None);
    let b = t.match_idx(vec![1, 2, 3], "mrs".to_string(), None);
    assert_eq!(a, b);
    let ha = t.match_indices(1, "mrs".to_string());
    let hb = t.match_indices(1, "mrs".to_string());
    assert_eq!(ha, hb);
}

#[test]
fn round_trip_scenario() {
    let mut t = Tachyon::new(corpus(&["main.rs", "lib.rs", "README.md"]), true, false);
    let out = t.match_idx(vec![1, 2, 3], "mrs".to_string(), None);
    assert_eq!(out.first(), Some(&1));
    let offsets = t.match_indices(1, "mrs".to_string()).expect("main.rs matches mrs");
    // m, r, s within "main.rs"
    assert_eq!(offsets, vec![0, 5, 6]);
}

#[test]
fn no_match_scenario() {
    let mut t = Tachyon::new(corpus(&["main.rs"]), true, false);
    let out = t.match_idx(vec![1], "zzz".to_string(), None);
    assert_eq!(out, Vec::<usize>::new());
    assert_eq!(t.match_indices(1, "zzz".to_string()), None);
}

#[test]
fn highlight_out_of_range_is_absent() {
    let mut t = Tachyon::new(corpus(&["main.rs"]), true, false);
    assert_eq!(t.match_indices(2, "m".to_string()), None);
}

#[test]
fn highlight_index_zero_is_absent() {
    let mut t = Tachyon::new(corpus(&["main.rs"]), true, false);
    // 0 underflows the 1-based index range, so it is out of range.
    assert_eq!(t.match_indices(0, "m".to_string()), None);
    assert_eq!(t.match_indices(0, String::new()), None);
}

#[test]
fn offsets_are_sorted_and_deduplicated() {
    let mut t = Tachyon::new(corpus(&["abcabc"]), true, false);
    // Two identical atoms: each appends its own offsets, so the raw buffer
    // holds duplicates before clean-up.
    let offsets = t.match_indices(1, "abc abc".to_string()).expect("both atoms match");
    for w in offsets.windows(2) {
        assert!(w[0] < w[1]);
    }
    assert_eq!(offsets, vec![0, 1, 2]);
}

#[test]
fn offsets_lie_within_item_bounds() {
    let mut t = Tachyon::new(corpus(&["main.rs"]), true, false);
    let offsets = t.match_indices(1, "mrs".to_string()).expect("main.rs matches mrs");
    for o in offsets {
        assert!((o as usize) < "main.rs".len());
    }
}

#[test]
fn literal_mode_takes_syntax_characters_verbatim() {
    let mut literal = Tachyon::new(corpus(&["main.rs"]), true, true);
    let mut parsed = Tachyon::new(corpus(&["main.rs"]), true, false);
    // In parsed mode "^main" is a prefix atom; in literal mode the caret is an
    // ordinary character that main.rs does not contain.
    assert_eq!(literal.match_idx(vec![1], "^main".to_string(), None), Vec::<usize>::new());
    assert_eq!(parsed.match_idx(vec![1], "^main".to_string(), None), vec![1]);
}

#[test]
fn better_match_ranks_first() {
    let mut t = Tachyon::new(corpus(&["xaxbxcx", "abc"]), true, false);
    let out = t.match_idx(vec![1, 2], "abc".to_string(), None);
    assert_eq!(out, vec![2, 1]);
}

#[test]
fn empty_candidate_set_yields_empty_result() {
    let mut t = Tachyon::new(corpus(&["main.rs"]), true, false);
    assert_eq!(t.match_idx(Vec::new(), "m".to_string(), None), Vec::<usize>::new());
}

#[test]
fn empty_corpus_matches_nothing() {
    let mut t = Tachyon::new(Vec::new(), true, false);
    assert_eq!(t.match_idx(vec![1], "m".to_string(), None), Vec::<usize>::new());
    assert_eq!(t.match_indices(1, "m".to_string()), None);
}

#[test]
fn duplicate_candidates_stay_duplicated() {
    let mut t = Tachyon::new(corpus(&["abc"]), true, false);
    let out = t.match_idx(vec![1, 1], "abc".to_string(), None);
    assert_eq!(out, vec![1, 1]);
}
