use icepick::configuration::Configuration;

#[test]
fn can_specify_initial_search() {
    let input = vec!["foo".to_string()];
    let config = Configuration::from_inputs(&input, Some("some search".to_string()), None);

    assert_eq!(config.initial_search, "some search");
}

#[test]
fn initial_search_is_optional() {
    let input = vec!["foo".to_string()];
    let config = Configuration::from_inputs(&input, None, None);

    assert_eq!(config.initial_search, "");
}
