use autopkg::Preferences;

#[test]
fn new_preferences_have_expected_defaults() {
    let prefs = Preferences::new();
    assert_eq!(prefs.recipe_search_dirs, vec![".".to_string()]);
    assert!(!prefs.disable_code_signature_verification);
    assert_eq!(prefs.munki_repo, None);
    assert_eq!(prefs.extras, None);
    assert!(prefs.cache_dir.ends_with("/AutoPkg/Cache"));
    assert!(prefs.recipe_override_dir.ends_with("/AutoPkg/RecipeOverrides"));
    assert!(prefs.recipe_repo_dir.ends_with("/AutoPkg/RecipeRepos"));
    assert!(prefs.github_token_path.ends_with("/AutoPkg/gh_token"));
    assert!(prefs.recipe_map_path.ends_with("/AutoPkg/recipe_map.json"));
    assert!(prefs.prefs_path.ends_with("/AutoPkg/autopkg_prefs.json"));
}

#[test]
fn search_dirs_can_be_added_and_removed() {
    let mut prefs = Preferences::new();
    prefs.add_to_search_dirs("/repos/extra");
    assert_eq!(
        prefs.recipe_search_dirs,
        vec![".".to_string(), "/repos/extra".to_string()]
    );
    prefs.remove_from_search_dirs("/repos/extra");
    assert_eq!(prefs.recipe_search_dirs, vec![".".to_string()]);
}

#[test]
fn remove_drops_every_matching_entry_and_tolerates_absence() {
    let mut prefs = Preferences::new();
    prefs.add_to_search_dirs("/a");
    prefs.add_to_search_dirs("/b");
    prefs.add_to_search_dirs("/a");
    prefs.remove_from_search_dirs("/a");
    assert_eq!(prefs.recipe_search_dirs, vec![".".to_string(), "/b".to_string()]);
    // Removing a path that is not there changes nothing
    prefs.remove_from_search_dirs("/absent");
    assert_eq!(prefs.recipe_search_dirs, vec![".".to_string(), "/b".to_string()]);
}

#[test]
fn key_value_arguments_split_at_the_first_equals() {
    assert_eq!(
        autopkg::parse_key_value("NAME=Firefox"),
        Some(("NAME".to_string(), "Firefox".to_string()))
    );
    assert_eq!(
        autopkg::parse_key_value("a=b=c"),
        Some(("a".to_string(), "b=c".to_string()))
    );
    assert_eq!(
        autopkg::parse_key_value("=x"),
        Some(("".to_string(), "x".to_string()))
    );
    assert_eq!(autopkg::parse_key_value("novalue"), None);
}
