use icepick::renderer::Renderer;
use icepick::score::score;
use icepick::search::Search;
use icepick::sorted_result_set::SortedResultSet;
use icepick::text::Text;

fn one_two_three() -> Vec<String> {
    vec!["one".to_string(), "two".to_string(), "three".to_string()]
}

#[test]
fn append_t_selects_the_tighter_short_choice() {
    let choices = one_two_three();
    let search = Search::blank(&choices, None, 20).append_to_search("t");

    assert_eq!(search.num_matches(), 2);
    assert_eq!(search.selection(), Some("two".to_string()));
}

#[test]
fn growing_query_only_narrows_matches() {
    let choice = "banana".to_string();
    assert!(score(&choice, &"bnn".to_string()).is_some());
    assert!(score(&choice, &"bn".to_string()).is_some());
    assert!(score(&choice, &"b".to_string()).is_some());
}

#[test]
fn match_window_covers_the_query() {
    let choice = "ana.gemspec".to_string();
    let m = score(&choice, &"asp".to_string()).unwrap();
    assert!(m.end - m.start >= 3);
    assert!(m.end <= choice.len());
    assert_eq!(&choice[m.start..m.end], "a.gemsp");
}

#[test]
fn matching_is_case_insensitive_on_the_choice() {
    let choice = "README".to_string();
    let m = score(&choice, &"read".to_string()).unwrap();
    assert_eq!(m.start, 0);
    assert_eq!(m.end, 4);
}

#[test]
fn ranked_result_is_sorted_descending() {
    let choices = vec![
        "a long string with x".to_string(),
        "x".to_string(),
        "ax".to_string(),
        "no match".to_string(),
        "xylophone".to_string(),
    ];
    let search = Search::blank(&choices, None, 20).append_to_search("x");

    assert_eq!(search.num_matches(), 4);
    for pair in search.result.windows(2) {
        let a = &pair[0].quality;
        let b = &pair[1].quality;
        let lhs = a.query_len as u128 * (b.window_len as u128 * b.choice_len as u128);
        let rhs = b.query_len as u128 * (a.window_len as u128 * a.choice_len as u128);
        assert!(lhs >= rhs);
    }
    assert_eq!(search.selection(), Some("x".to_string()));
}

#[test]
fn selector_keeps_only_the_best() {
    let mut heap = SortedResultSet::new(2);
    let better = score(&"ab".to_string(), &"a".to_string()).unwrap();
    let middle = score(&"abc".to_string(), &"a".to_string()).unwrap();
    let worse = score(&"abcd".to_string(), &"a".to_string()).unwrap();
    heap.push(worse);
    heap.push(better);
    heap.push(middle);
    let ranked = heap.sorted_vec();
    assert_eq!(ranked.len(), 2);
    assert_eq!(ranked[0].original, "ab");
    assert_eq!(ranked[1].original, "abc");
}

#[test]
fn backspace_undoes_an_append_exactly() {
    let choices = one_two_three();
    let before = Search::blank(&choices, None, 20).append_to_search("t");
    let after = Search::blank(&choices, None, 20)
        .append_to_search("t")
        .append_to_search("w")
        .backspace();

    assert_eq!(after.query, before.query);
    assert_eq!(after.num_matches(), before.num_matches());
    assert_eq!(after.result, before.result);
    assert_eq!(after.current, 0);
}

#[test]
fn down_cycles_back_to_the_start() {
    let choices = one_two_three();
    let search = Search::blank(&choices, None, 20);
    assert_eq!(search.current, 0);
    let search = search.down().down().down();
    assert_eq!(search.current, 0);
}

#[test]
fn up_and_down_stay_put_with_no_matches() {
    let choices = one_two_three();
    let search = Search::blank(&choices, None, 20).append_to_search("x");
    let search = search.down().up();
    assert_eq!(search.current, 0);
    assert_eq!(search.selection(), None);
}

#[test]
fn empty_corpus_has_no_selection() {
    let choices: Vec<String> = Vec::new();
    let search = Search::blank(&choices, None, 20);
    assert_eq!(search.num_matches(), 0);
    assert_eq!(search.down().up().selection(), None);
}

#[test]
fn colored_cell_paints_the_matched_window_blue() {
    let choice = "one".to_string();
    let m = score(&choice, &"n".to_string()).unwrap();
    let painted = Text::Colored(m).printable();
    assert_eq!(painted, "o\x1b[34mn\x1b[0me");
}

#[test]
fn header_counts_matches_in_decimal() {
    let mut choices: Vec<String> = Vec::new();
    for i in 0..12 {
        choices.push(format!("line {}", i));
    }
    let renderer = Renderer;
    let search = Search::blank(&choices, None, 5).append_to_search("line");
    assert_eq!(renderer.header(&search), "12 > line");
}

#[test]
fn initial_query_is_stored_but_not_applied() {
    let choices = one_two_three();
    let search = Search::blank(&choices, Some("t".to_string()), 20);
    assert_eq!(search.query, "t");
    assert_eq!(search.num_matches(), 3);
    assert_eq!(search.selection(), Some("one".to_string()));
}

#[test]
fn quality_prefers_exact_short_matches() {
    let m = score(&"one".to_string(), &"t".to_string());
    assert!(m.is_none());
    let two = score(&"two".to_string(), &"t".to_string()).unwrap();
    let three = score(&"three".to_string(), &"t".to_string()).unwrap();
    assert_eq!((two.quality.query_len, two.quality.window_len, two.quality.choice_len), (1, 1, 3));
    assert_eq!(
        (three.quality.query_len, three.quality.window_len, three.quality.choice_len),
        (1, 1, 5),
    );
}
