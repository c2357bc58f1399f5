use gitjournal::config::Config;

#[test]
fn default_config_is_recognized() {
    assert_eq!(Config::new().is_default_config(), true);
    assert!(Config::new().is_valid());
}

#[test]
fn default_values() {
    let config = Config::new();
    assert_eq!(
        config.categories,
        vec!["Added", "Changed", "Fixed", "Improved", "Removed"]
    );
    assert_eq!(config.categories, Config::get_default_categories());
    assert_eq!(config.category_delimiters, vec!["[", "]"]);
    assert_eq!(config.colored_output, true);
    assert_eq!(config.default_template, None);
    assert_eq!(config.enable_debug, true);
    assert_eq!(config.excluded_commit_tags.len(), 0);
    assert_eq!(config.enable_footers, false);
    assert_eq!(config.show_commit_hash, false);
    assert_eq!(config.show_prefix, false);
    assert_eq!(config.sort_by, "date");
    assert_eq!(config.template_prefix, "JIRA-1234");
}

#[test]
fn changed_config_is_not_the_default() {
    let mut config = Config::new();
    config.show_prefix = true;
    assert_eq!(config.is_default_config(), false);
    let mut config = Config::new();
    config.categories.push("Deprecated".to_owned());
    assert_eq!(config.is_default_config(), false);
    let mut config = Config::new();
    config.default_template = Some("CHANGELOG.toml".to_owned());
    assert_eq!(config.is_default_config(), false);
    let mut config = Config::new();
    config.sort_by = "name".to_owned();
    assert_eq!(config.is_default_config(), false);
    let mut config = Config::new();
    config.category_delimiters = vec!["]".to_owned(), "[".to_owned()];
    assert_eq!(config.is_default_config(), false);
}

#[test]
fn empty_categories_are_replaced() {
    let mut config = Config::new();
    config.categories = vec![];
    assert!(!config.is_valid());
    config.ensure_categories();
    assert_eq!(config.is_default_config(), true);
    config.categories = vec!["Only".to_owned()];
    config.ensure_categories();
    assert_eq!(config.categories, vec!["Only"]);
}

#[test]
fn validity_asks_for_two_delimiters() {
    let mut config = Config::new();
    config.category_delimiters = vec!["[".to_owned()];
    assert!(!config.is_valid());
    config.category_delimiters = vec!["[".to_owned(), "]".to_owned(), "!".to_owned()];
    assert!(!config.is_valid());
    config.category_delimiters = vec!["".to_owned(), "".to_owned()];
    assert!(config.is_valid());
}

#[test]
fn the_default_sets_nothing() {
    let config = Config::default();
    assert_eq!(config.categories.len(), 0);
    assert_eq!(config.category_delimiters.len(), 0);
    assert_eq!(config.colored_output, false);
    assert_eq!(config.default_template, None);
    assert_eq!(config.enable_debug, false);
    assert_eq!(config.excluded_commit_tags.len(), 0);
    assert_eq!(config.enable_footers, false);
    assert_eq!(config.show_commit_hash, false);
    assert_eq!(config.show_prefix, false);
    assert_eq!(config.sort_by, "");
    assert_eq!(config.template_prefix, "");
    assert!(!config.is_valid());
    assert!(!config.is_default_config());
}
