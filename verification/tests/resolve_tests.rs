use autopkg::{
    collect_chain_fingerprints, load_recipe, ChainLoader, PlistDataType, Processor, Recipe,
    RecipeError,
};

fn recipe(identifier: &str, parent: Option<&str>, input: Vec<(&str, &str)>, steps: Vec<&str>) -> Recipe {
    Recipe {
        description: format!("{} description", identifier),
        identifier: identifier.to_string(),
        minimum_version: "1.0".to_string(),
        parent_recipe: parent.map(|p| p.to_string()),
        input: input
            .into_iter()
            .map(|(k, v)| (k.to_string(), PlistDataType::Str(v.to_string())))
            .collect(),
        process: steps
            .into_iter()
            .map(|p| Processor {
                processor: p.to_string(),
                arguments: None,
            })
            .collect(),
        parent_recipe_trust_info: None,
    }
}

#[test]
fn merge_inherits_parent_inputs() {
    // Root defines NAME and URL; the child adds PKG and inherits both
    let store = vec![
        recipe("com.example.root", None, vec![("NAME", "Foo"), ("URL", "http://x")], vec!["A"]),
        recipe("com.example.child", Some("com.example.root"), vec![("PKG", "y")], vec!["B"]),
    ];
    let eff = load_recipe("com.example.child", store).expect("resolution should succeed");
    assert_eq!(
        eff.input,
        vec![
            ("NAME".to_string(), PlistDataType::Str("Foo".to_string())),
            ("URL".to_string(), PlistDataType::Str("http://x".to_string())),
            ("PKG".to_string(), PlistDataType::Str("y".to_string())),
        ]
    );
    assert_eq!(eff.identifier, "com.example.child");
    assert_eq!(eff.description, "com.example.child description");
}

#[test]
fn merge_child_redefinition_wins() {
    // The child redefines NAME: the effective NAME is the child's
    let store = vec![
        recipe("com.example.root", None, vec![("NAME", "Foo"), ("URL", "http://x")], vec!["A"]),
        recipe("com.example.child", Some("com.example.root"), vec![("NAME", "Bar")], vec!["B"]),
    ];
    let eff = load_recipe("com.example.child", store).expect("resolution should succeed");
    assert_eq!(
        eff.input,
        vec![
            ("NAME".to_string(), PlistDataType::Str("Bar".to_string())),
            ("URL".to_string(), PlistDataType::Str("http://x".to_string())),
        ]
    );
}

#[test]
fn process_concatenates_root_to_leaf() {
    // A three-level chain: the effective process is root's steps, then
    // the middle's, then the leaf's, with length the sum of the three
    let store = vec![
        recipe("com.example.leaf", Some("com.example.mid"), vec![("NAME", "n")], vec!["L1"]),
        recipe("com.example.mid", Some("com.example.root"), vec![], vec!["M1", "M2"]),
        recipe("com.example.root", None, vec![("NAME", "n")], vec!["R1"]),
    ];
    let eff = load_recipe("com.example.leaf", store).expect("resolution should succeed");
    let names: Vec<&str> = eff.process.iter().map(|p| p.processor.as_str()).collect();
    assert_eq!(names, vec!["R1", "M1", "M2", "L1"]);
    assert_eq!(eff.process.len(), 1 + 2 + 1);
}

#[test]
fn cyclic_parent_chain_is_refused() {
    // a -> b -> a: resolution must fail with the revisited identifier
    let store = vec![
        recipe("com.example.a", Some("com.example.b"), vec![("NAME", "n")], vec![]),
        recipe("com.example.b", Some("com.example.a"), vec![], vec![]),
    ];
    assert_eq!(
        load_recipe("com.example.a", store),
        Err(RecipeError::CyclicParentChain("com.example.a".to_string()))
    );
    // A recipe naming itself cycles at once
    let store = vec![recipe("com.example.own", Some("com.example.own"), vec![], vec![])];
    assert_eq!(
        load_recipe("com.example.own", store),
        Err(RecipeError::CyclicParentChain("com.example.own".to_string()))
    );
}

#[test]
fn missing_recipes_are_named() {
    // The requested name itself is absent
    assert_eq!(
        load_recipe("com.example.absent", vec![]),
        Err(RecipeError::RecipeNotFound("com.example.absent".to_string()))
    );
    // An ancestor named by the chain is absent
    let store = vec![recipe("com.example.a", Some("com.example.gone"), vec![], vec![])];
    assert_eq!(
        load_recipe("com.example.a", store),
        Err(RecipeError::RecipeNotFound("com.example.gone".to_string()))
    );
}

#[test]
fn invalid_effective_recipe_names_the_field() {
    // No level defines NAME: validation refuses the merged recipe
    let store = vec![
        recipe("com.example.root", None, vec![("URL", "u")], vec!["A"]),
        recipe("com.example.child", Some("com.example.root"), vec![], vec![]),
    ];
    assert_eq!(
        load_recipe("com.example.child", store),
        Err(RecipeError::InvalidRecipe("NAME".to_string()))
    );
    // An empty description on the requested recipe is refused too
    let mut bad = recipe("com.example.solo", None, vec![("NAME", "n")], vec![]);
    bad.description = String::new();
    assert_eq!(
        load_recipe("com.example.solo", vec![bad]),
        Err(RecipeError::InvalidRecipe("Description".to_string()))
    );
}

#[test]
fn single_recipe_resolves_to_itself() {
    let store = vec![recipe("com.example.solo", None, vec![("NAME", "n")], vec!["Only"])];
    let eff = load_recipe("com.example.solo", store).expect("resolution should succeed");
    assert_eq!(eff.identifier, "com.example.solo");
    assert_eq!(eff.process.len(), 1);
    assert_eq!(
        eff.input,
        vec![("NAME".to_string(), PlistDataType::Str("n".to_string()))]
    );
}

#[test]
fn chain_loader_walks_and_merges() {
    let mut loader = ChainLoader::new();
    // The requested recipe names a parent to load next
    let child = recipe("com.example.child", Some("com.example.root"), vec![("PKG", "y")], vec!["B"]);
    let next = loader
        .push_recipe(child, "/r/Child.download.recipe".to_string())
        .expect("push should succeed");
    assert_eq!(next, Some("com.example.root".to_string()));
    // The root ends the chain
    let root = recipe("com.example.root", None, vec![("NAME", "Foo")], vec!["A"]);
    let next = loader
        .push_recipe(root, "/r/Root.download.recipe".to_string())
        .expect("push should succeed");
    assert_eq!(next, None);
    // Fingerprints run root to child
    let prints = loader.fingerprints();
    assert_eq!(
        prints,
        vec![
            ("com.example.root".to_string(), "/r/Root.download.recipe".to_string()),
            ("com.example.child".to_string(), "/r/Child.download.recipe".to_string()),
        ]
    );
    let eff = loader.finish().expect("merge should succeed");
    assert_eq!(eff.identifier, "com.example.child");
    let steps: Vec<&str> = eff.process.iter().map(|p| p.processor.as_str()).collect();
    assert_eq!(steps, vec!["A", "B"]);
}

#[test]
fn chain_loader_refuses_a_revisit() {
    let mut loader = ChainLoader::new();
    let a = recipe("com.example.a", Some("com.example.b"), vec![], vec![]);
    loader.push_recipe(a, "/r/a".to_string()).expect("first push should succeed");
    let again = recipe("com.example.a", Some("com.example.b"), vec![], vec![]);
    assert_eq!(
        loader.push_recipe(again, "/r/a2".to_string()),
        Err(RecipeError::CyclicParentChain("com.example.a".to_string()))
    );
}

#[test]
fn fingerprints_pair_identifiers_with_paths() {
    let chain = vec![
        recipe("com.example.root", None, vec![], vec![]),
        recipe("com.example.child", Some("com.example.root"), vec![], vec![]),
    ];
    let paths = vec!["/r/root.recipe".to_string(), "/r/child.recipe".to_string()];
    assert_eq!(
        collect_chain_fingerprints(&chain, &paths),
        vec![
            ("com.example.root".to_string(), "/r/root.recipe".to_string()),
            ("com.example.child".to_string(), "/r/child.recipe".to_string()),
        ]
    );
}
