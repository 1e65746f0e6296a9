use autopkg::{read_plist_recipe, read_recipe, read_yaml_recipe, PlistDataType};

const CHROME_PLIST: &str = r#"<?xml version="1.0" encoding="UTF-8"?>
<!DOCTYPE plist PUBLIC "-//Apple//DTD PLIST 1.0//EN" "http://www.apple.com/DTDs/PropertyList-1.0.dtd">
<plist version="1.0">
<dict>
    <key>Description</key>
    <string>Downloads latest Google Chrome enterprise package.</string>
    <key>Identifier</key>
    <string>com.github.autopkg.download.googlechromepkg</string>
    <key>Input</key>
    <dict>
        <key>NAME</key>
        <string>GoogleChrome</string>
        <key>DOWNLOAD_URL</key>
        <string>https://dl.google.com/chrome/googlechrome.pkg</string>
    </dict>
    <key>MinimumVersion</key>
    <string>1.4.1</string>
    <key>Process</key>
    <array>
        <dict>
            <key>Processor</key>
            <string>URLDownloader</string>
            <key>Arguments</key>
            <dict>
                <key>url</key>
                <string>%DOWNLOAD_URL%</string>
                <key>filename</key>
                <string>GoogleChrome.pkg</string>
            </dict>
        </dict>
        <dict>
            <key>Processor</key>
            <string>EndOfCheckPhase</string>
        </dict>
        <dict>
            <key>Arguments</key>
            <dict>
                <key>expected_authority_names</key>
                <array>
                    <string>Developer ID Installer: Google LLC (EQHXZ8M8AV)</string>
                    <string>Apple Root CA</string>
                </array>
                <key>input_path</key>
                <string>%pathname%</string>
            </dict>
            <key>Processor</key>
            <string>CodeSignatureVerifier</string>
        </dict>
    </array>
</dict>
</plist>"#;

const FIREFOX_YAML: &str = r#"Description: Downloads the latest Firefox release.
Identifier: com.example.download.firefox
MinimumVersion: "1.0"
ParentRecipe: com.example.download.base
Input:
  NAME: Firefox
Process:
  - Processor: URLDownloader
    Arguments:
      url: https://example.invalid/firefox.dmg
  - Processor: EndOfCheckPhase
"#;

fn value_for<'a>(table: &'a [(String, PlistDataType)], key: &str) -> Option<&'a PlistDataType> {
    table.iter().find(|e| e.0 == key).map(|e| &e.1)
}

#[test]
fn plist_recipe_parses_into_typed_form() {
    let rec = read_plist_recipe(CHROME_PLIST.as_bytes()).expect("plist recipe should parse");
    assert_eq!(rec.identifier, "com.github.autopkg.download.googlechromepkg");
    assert_eq!(rec.description, "Downloads latest Google Chrome enterprise package.");
    assert_eq!(rec.minimum_version, "1.4.1");
    assert_eq!(rec.parent_recipe, None);
    assert_eq!(
        value_for(&rec.input, "NAME"),
        Some(&PlistDataType::Str("GoogleChrome".to_string()))
    );
    assert_eq!(
        value_for(&rec.input, "DOWNLOAD_URL"),
        Some(&PlistDataType::Str(
            "https://dl.google.com/chrome/googlechrome.pkg".to_string()
        ))
    );
    assert_eq!(rec.process.len(), 3);
    assert_eq!(rec.process[0].processor, "URLDownloader");
    assert_eq!(rec.process[1].processor, "EndOfCheckPhase");
    assert_eq!(rec.process[2].processor, "CodeSignatureVerifier");
    assert_eq!(rec.process[1].arguments, None);
    // The third step's arguments hold an array of strings
    let args = rec.process[2].arguments.as_ref().expect("arguments expected");
    assert_eq!(
        value_for(args, "expected_authority_names"),
        Some(&PlistDataType::ArrayOfStrs(vec![
            "Developer ID Installer: Google LLC (EQHXZ8M8AV)".to_string(),
            "Apple Root CA".to_string(),
        ]))
    );
    assert!(rec.is_valid_recipe());
}

#[test]
fn yaml_recipe_parses_into_typed_form() {
    let rec = read_yaml_recipe(FIREFOX_YAML.as_bytes()).expect("yaml recipe should parse");
    assert_eq!(rec.identifier, "com.example.download.firefox");
    assert_eq!(rec.parent_recipe, Some("com.example.download.base".to_string()));
    assert_eq!(
        value_for(&rec.input, "NAME"),
        Some(&PlistDataType::Str("Firefox".to_string()))
    );
    assert_eq!(rec.process.len(), 2);
    assert!(rec.has_parent());
}

#[test]
fn read_recipe_tries_plist_then_yaml() {
    // A plist document goes through the first attempt
    let rec = read_recipe(CHROME_PLIST.as_bytes()).expect("plist route should succeed");
    assert_eq!(rec.identifier, "com.github.autopkg.download.googlechromepkg");
    // A yaml document fails the plist attempt and succeeds on the second
    let rec = read_recipe(FIREFOX_YAML.as_bytes()).expect("yaml route should succeed");
    assert_eq!(rec.identifier, "com.example.download.firefox");
}

#[test]
fn unreadable_document_fails_both_routes() {
    // Bytes that neither decoder accepts
    let garbage: &[u8] = b"\x00\x01{{{ not a document";
    assert!(read_recipe(garbage).is_err());
}

#[test]
fn structurally_wrong_document_is_a_parse_failure() {
    // Well-formed YAML, but the recipe shape demands an Identifier string
    let missing_identifier = b"Description: d\nMinimumVersion: '1'\nInput:\n  NAME: x\nProcess: []\n";
    assert!(read_recipe(missing_identifier).is_err());
    // A numeric input value lies outside the closed value space
    let numeric_value =
        b"Description: d\nIdentifier: i\nMinimumVersion: '1'\nInput:\n  NAME: 3\nProcess: []\n";
    assert!(read_recipe(numeric_value).is_err());
}

#[test]
fn override_trust_info_parses() {
    let override_yaml = br#"Description: An override.
Identifier: local.download.firefox
MinimumVersion: "1.0"
ParentRecipe: com.example.download.firefox
Input:
  NAME: Firefox
Process: []
ParentRecipeTrustInfo:
  non_core_processors: {}
  parent_recipes:
    com.example.download.firefox:
      git_hash: abc123
      path: Firefox/Firefox.download.recipe
      sha256_hash: feedbeef
"#;
    let rec = read_yaml_recipe(override_yaml).expect("override should parse");
    let trust = rec.parent_recipe_trust_info.expect("trust info expected");
    assert_eq!(trust.non_core_processors.len(), 0);
    assert_eq!(trust.parent_recipes.len(), 1);
    assert_eq!(trust.parent_recipes[0].0, "com.example.download.firefox");
    assert_eq!(trust.parent_recipes[0].1.git_hash, "abc123");
    assert_eq!(trust.parent_recipes[0].1.path, "Firefox/Firefox.download.recipe");
    assert_eq!(trust.parent_recipes[0].1.sha256_hash, "feedbeef");
}

#[test]
fn duplicate_input_keys_keep_last_value() {
    // The typed input table keeps one entry per key, the last one read
    let doc = autopkg::DocValue::Dict(vec![
        (
            autopkg::DocValue::Str("Description".to_string()),
            autopkg::DocValue::Str("d".to_string()),
        ),
        (
            autopkg::DocValue::Str("Identifier".to_string()),
            autopkg::DocValue::Str("i".to_string()),
        ),
        (
            autopkg::DocValue::Str("MinimumVersion".to_string()),
            autopkg::DocValue::Str("1".to_string()),
        ),
        (
            autopkg::DocValue::Str("Input".to_string()),
            autopkg::DocValue::Dict(vec![
                (
                    autopkg::DocValue::Str("NAME".to_string()),
                    autopkg::DocValue::Str("first".to_string()),
                ),
                (
                    autopkg::DocValue::Str("NAME".to_string()),
                    autopkg::DocValue::Str("second".to_string()),
                ),
            ]),
        ),
        (
            autopkg::DocValue::Str("Process".to_string()),
            autopkg::DocValue::Arr(vec![]),
        ),
    ]);
    let rec = autopkg::recipe_of_doc(&doc).expect("doc should convert");
    assert_eq!(
        rec.input,
        vec![("NAME".to_string(), PlistDataType::Str("second".to_string()))]
    );
}

#[test]
fn ambiguous_shapes_follow_the_trial_order() {
    // An empty array satisfies the array-of-dictionaries shape, which
    // is tried first; a dictionary of strings satisfies the
    // dictionary-of-values shape, which is tried before the plainer one
    let yaml = br#"Description: d
Identifier: i
MinimumVersion: "1"
Input:
  NAME: x
  EMPTY: []
  TABLE:
    color: red
Process: []
"#;
    let rec = read_yaml_recipe(yaml).expect("recipe should parse");
    assert_eq!(
        value_for(&rec.input, "EMPTY"),
        Some(&PlistDataType::ArrayOfDicts(vec![]))
    );
    assert_eq!(
        value_for(&rec.input, "TABLE"),
        Some(&PlistDataType::DictOfDicts(vec![(
            "color".to_string(),
            PlistDataType::Str("red".to_string())
        )]))
    );
}
