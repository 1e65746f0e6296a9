use autopkg::{
    build_recipe_map, find_recipe_in_map, get_recipe_path_by_identifier, read_recipe_map,
    serialize_recipe_map, RecipeError, ScanEntry,
};

fn plist_with_identifier(identifier: &str) -> Vec<u8> {
    format!(
        r#"<?xml version="1.0" encoding="UTF-8"?>
<!DOCTYPE plist PUBLIC "-//Apple//DTD PLIST 1.0//EN" "http://www.apple.com/DTDs/PropertyList-1.0.dtd">
<plist version="1.0">
<dict>
    <key>Identifier</key>
    <string>{}</string>
</dict>
</plist>"#,
        identifier
    )
    .into_bytes()
}

fn candidate(path: &str, identifier: &str) -> ScanEntry {
    ScanEntry {
        path: path.to_string(),
        data: plist_with_identifier(identifier),
    }
}

#[test]
fn index_build_is_idempotent() {
    // Building twice over one unchanged scan yields byte-identical text
    let candidates = vec![
        candidate("/repos/a/Firefox.download.recipe", "com.example.firefox"),
        candidate("/repos/b/Chrome.download.recipe", "com.example.chrome"),
    ];
    let first = serialize_recipe_map(&build_recipe_map(&candidates));
    let second = serialize_recipe_map(&build_recipe_map(&candidates));
    assert_eq!(first, second);
}

#[test]
fn index_collision_last_directory_wins() {
    // Two directories hold a recipe with the same identifier: the entry
    // scanned last decides the recorded path
    let candidates = vec![
        candidate("/search/one/Thing.download.recipe", "com.example.thing"),
        candidate("/search/two/Thing.download.recipe", "com.example.thing"),
    ];
    let index = build_recipe_map(&candidates);
    assert_eq!(
        get_recipe_path_by_identifier("com.example.thing", &index),
        Ok("/search/two/Thing.download.recipe".to_string())
    );
}

#[test]
fn index_serialization_matches_expected_document() {
    let candidates = vec![candidate(
        "/repos/a/Firefox.download.recipe",
        "com.example.firefox",
    )];
    let text = serialize_recipe_map(&build_recipe_map(&candidates));
    let expected = "{\n  \"identifiers\": {\n    \"com.example.firefox\": \"/repos/a/Firefox.download.recipe\"\n  },\n  \"shortnames\": {\n    \"Firefox.download\": \"/repos/a/Firefox.download.recipe\"\n  }\n}";
    assert_eq!(text, expected);
}

#[test]
fn index_keys_are_sorted_in_output() {
    // Entries arrive unsorted; the serialized tables are key-sorted
    let candidates = vec![
        candidate("/r/Zulu.download.recipe", "com.z.zulu"),
        candidate("/r/Alpha.download.recipe", "com.a.alpha"),
    ];
    let text = serialize_recipe_map(&build_recipe_map(&candidates));
    let alpha = text.find("com.a.alpha").expect("alpha expected");
    let zulu = text.find("com.z.zulu").expect("zulu expected");
    assert!(alpha < zulu);
}

#[test]
fn index_round_trips_through_its_document() {
    let candidates = vec![
        candidate("/repos/a/Firefox.download.recipe", "com.example.firefox"),
        candidate("/repos/b/Chrome.download.recipe", "com.example.chrome"),
    ];
    let index = build_recipe_map(&candidates);
    let text = serialize_recipe_map(&index);
    let reread = read_recipe_map(&text).expect("serialized index should read back");
    assert_eq!(
        find_recipe_in_map(&reread, "com.example.chrome"),
        Some("/repos/b/Chrome.download.recipe".to_string())
    );
    assert_eq!(
        find_recipe_in_map(&reread, "Firefox.download"),
        Some("/repos/a/Firefox.download.recipe".to_string())
    );
    assert_eq!(serialize_recipe_map(&reread), text);
}

#[test]
fn unreadable_candidates_are_skipped() {
    // A candidate whose document yields no identifier string does not
    // fail the build; it is simply left out
    let candidates = vec![
        candidate("/repos/a/Good.download.recipe", "com.example.good"),
        ScanEntry {
            path: "/repos/a/Broken.download.recipe".to_string(),
            data: b"\x00not a document".to_vec(),
        },
    ];
    let index = build_recipe_map(&candidates);
    assert!(find_recipe_in_map(&index, "com.example.good").is_some());
    assert!(find_recipe_in_map(&index, "Broken.download").is_none());
}

#[test]
fn lookup_falls_back_to_short_names() {
    // A request missing among identifiers but present among short
    // names still resolves, to the same recipe file
    let candidates = vec![candidate(
        "/repos/a/Firefox.download.recipe",
        "com.example.firefox",
    )];
    let index = build_recipe_map(&candidates);
    let by_identifier = find_recipe_in_map(&index, "com.example.firefox");
    let by_short_name = find_recipe_in_map(&index, "Firefox.download");
    assert_eq!(by_identifier, Some("/repos/a/Firefox.download.recipe".to_string()));
    assert_eq!(by_short_name, by_identifier);
    assert_eq!(find_recipe_in_map(&index, "nowhere"), None);
}

#[test]
fn missing_identifier_is_a_recoverable_error() {
    let index = build_recipe_map(&vec![]);
    assert_eq!(
        get_recipe_path_by_identifier("com.absent", &index),
        Err(RecipeError::RecipeNotFound("com.absent".to_string()))
    );
}

#[test]
fn malformed_index_documents_are_refused() {
    match read_recipe_map("not json at all") {
        Err(RecipeError::IndexIoError(_)) => {}
        other => panic!("expected an index error, got {:?}", other),
    }
    // A JSON document without the two tables is refused too
    match read_recipe_map("{\"overrides\": {}}") {
        Err(RecipeError::IndexIoError(_)) => {}
        other => panic!("expected an index error, got {:?}", other),
    }
}

#[test]
fn candidate_and_prune_filters_go_by_names() {
    assert!(autopkg::is_recipe_file("Firefox.download.recipe"));
    assert!(!autopkg::is_recipe_file("Firefox.download.recipe.bak"));
    assert!(!autopkg::is_recipe_file("README.md"));
    assert!(autopkg::is_git_folder(".git"));
    assert!(autopkg::is_git_folder(".gitignore"));
    assert!(!autopkg::is_git_folder("git"));
}
