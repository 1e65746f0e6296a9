use autopkg::{calculate_short_name, get_string_key_from_recipe_value, DocValue, Recipe};

/// Create a default recipe structure with test data only.
fn create_default_test_recipe() -> Recipe {
    Recipe::new(
        "test".to_string(),
        "com.github.autopkg.test".to_string(),
        "3.0".to_string(),
        Some("com.github.autopkg.test.parent".to_string()),
    )
}

#[test]
fn test_recipe_has_parent() {
    // The default recipe has a prepopulated parent recipe
    let mut test_recipe: Recipe = create_default_test_recipe();
    assert!(test_recipe.has_parent());
    // An empty string does not qualify as a parent
    test_recipe.parent_recipe = Some("".to_string());
    assert!(!test_recipe.has_parent());
    // A None value does not qualify as a parent
    test_recipe.parent_recipe = None;
    assert!(!test_recipe.has_parent());
}

#[test]
fn test_recipe_is_valid() {
    // The default recipe should always be valid
    let mut test_recipe: Recipe = create_default_test_recipe();
    assert!(test_recipe.is_valid_recipe());
    // To be valid, static strings must all be defined,
    // so an empty string in any of them should be invalid
    test_recipe.description = "".to_string();
    assert!(!test_recipe.is_valid_recipe());
    // set Description back, empty identifier
    test_recipe.description = "stuff".to_string();
    test_recipe.identifier = "".to_string();
    assert!(!test_recipe.is_valid_recipe());
    // set Identifier back, empty minimum version
    test_recipe.identifier = "stuff".to_string();
    test_recipe.minimum_version = "".to_string();
    assert!(!test_recipe.is_valid_recipe());
    // Input must contain "NAME" key, if we delete it, invalid recipe
    test_recipe.input.retain(|e| e.0 != "NAME");
    assert!(!test_recipe.is_valid_recipe());
}

#[test]
fn test_calculate_short_name() {
    assert_eq!(
        "MyRecipe.download",
        calculate_short_name("/Path/test/MyRecipe.download.recipe")
    )
}

#[test]
fn test_short_name_strips_only_last_extension() {
    assert_eq!("Firefox.download", calculate_short_name("Firefox.download.recipe"));
    assert_eq!("Simple", calculate_short_name("Simple.recipe"));
}

/// A document tree shaped like a typical download recipe.
fn chrome_recipe_doc() -> DocValue {
    let input = DocValue::Dict(vec![
        (
            DocValue::Str("NAME".to_string()),
            DocValue::Str("GoogleChrome".to_string()),
        ),
        (
            DocValue::Str("DOWNLOAD_URL".to_string()),
            DocValue::Str("https://dl.google.com/chrome/googlechrome.pkg".to_string()),
        ),
    ]);
    let process = DocValue::Arr(vec![
        DocValue::Dict(vec![
            (
                DocValue::Str("Processor".to_string()),
                DocValue::Str("URLDownloader".to_string()),
            ),
            (
                DocValue::Str("Arguments".to_string()),
                DocValue::Dict(vec![(
                    DocValue::Str("url".to_string()),
                    DocValue::Str("%DOWNLOAD_URL%".to_string()),
                )]),
            ),
        ]),
        DocValue::Dict(vec![(
            DocValue::Str("Processor".to_string()),
            DocValue::Str("EndOfCheckPhase".to_string()),
        )]),
    ]);
    DocValue::Dict(vec![
        (
            DocValue::Str("Description".to_string()),
            DocValue::Str("Downloads latest Google Chrome enterprise package.".to_string()),
        ),
        (
            DocValue::Str("Identifier".to_string()),
            DocValue::Str("com.github.autopkg.download.googlechromepkg".to_string()),
        ),
        (DocValue::Str("Input".to_string()), input),
        (
            DocValue::Str("MinimumVersion".to_string()),
            DocValue::Str("1.4.1".to_string()),
        ),
        (DocValue::Str("Process".to_string()), process),
    ])
}

#[test]
fn test_get_string_key_from_recipe_value() {
    let recipe_data = chrome_recipe_doc();
    // We should be able to extract the specific strings we want
    assert_eq!(
        get_string_key_from_recipe_value(&recipe_data, "Identifier"),
        Some("com.github.autopkg.download.googlechromepkg".to_string())
    );
    assert_eq!(
        get_string_key_from_recipe_value(&recipe_data, "MinimumVersion"),
        Some("1.4.1".to_string())
    );
}

#[test]
fn test_get_string_key_from_recipe_value_non_string() {
    // Asking for a key whose value is not a string yields nothing
    let recipe_data = chrome_recipe_doc();
    assert_eq!(get_string_key_from_recipe_value(&recipe_data, "Process"), None);
    // So does a key that is absent altogether
    assert_eq!(get_string_key_from_recipe_value(&recipe_data, "Absent"), None);
}
