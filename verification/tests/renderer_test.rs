use icepick::search::Search;
use icepick::text::Text;
use icepick::renderer::Renderer;
use icepick::score::Match;

#[test]
fn renders_selected_matches_with_a_highlight() {
    let choices = vec!["one".to_string(), "one".to_string(), "one".to_string()];

    let renderer = Renderer;

    let search = Search::blank(&choices, None, 2).down();
    let output = renderer.render(&search);
    let ref text = choices[1];

    assert_eq!(vec![Text::Normal("3 > ".to_string()),
        Text::Colored(Match::with_empty_range(text)),
        Text::Highlight("one".to_string())], output);
}

#[test]
fn renders_a_mismatch() {
    let choices = vec!["one".to_string(), "one".to_string(), "one".to_string()];

    let renderer = Renderer;

    let search = Search::blank(&choices, None, 2).append_to_search("z");
    let output = renderer.render(&search);

    assert_eq!(vec![Text::Normal("0 > z".to_string()), Text::Blank, Text::Blank], output);
}
