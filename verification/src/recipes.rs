//! The recipe data model and its validity rules.

use vstd::prelude::*;
use vstd::string::*;

use crate::trust::ParentRecipeTrust;
use crate::values::{has_key, table_has_key, PlistDataType};

verus! {

/// One step of a recipe's processing sequence: a processor name and its
/// optional arguments.
#[derive(Debug, PartialEq, Eq)]
pub struct Processor {
    pub processor: String,
    pub arguments: Option<Vec<(String, PlistDataType)>>,
}

/// One recipe document in typed form.
#[derive(Debug, PartialEq, Eq)]
pub struct Recipe {
    /// Human-readable description of the recipe.
    pub description: String,
    /// Globally unique, reverse-DNS-style identifier.
    pub identifier: String,
    /// Minimum tool version needed to run the recipe.
    pub minimum_version: String,
    /// Identifier of the ancestor recipe; absent on a root recipe.
    pub parent_recipe: Option<String>,
    /// Input variables; keys are unique and must include `NAME` for the
    /// recipe to be valid.
    pub input: Vec<(String, PlistDataType)>,
    /// Ordered processing steps.
    pub process: Vec<Processor>,
    /// Trust fingerprints of the ancestor chain; present only on
    /// override documents.
    pub parent_recipe_trust_info: Option<ParentRecipeTrust>,
}

/// A recipe names a parent when `parent_recipe` is present and non-empty.
pub open spec fn spec_has_parent(r: Recipe) -> bool {
    r.parent_recipe matches Some(p) && p@.len() > 0
}

/// A recipe is valid when its three descriptive strings are non-empty and
/// its input table binds the key `NAME`.
pub open spec fn spec_is_valid(r: Recipe) -> bool {
    &&& r.description@.len() > 0
    &&& r.identifier@.len() > 0
    &&& r.minimum_version@.len() > 0
    &&& has_key(r.input@, "NAME"@)
}

impl Recipe {
    /// Build a recipe from its descriptive strings alone, with a
    /// single-step process and a placeholder `NAME` input entry.
    pub fn new(
        description: String,
        identifier: String,
        minimum_version: String,
        parent_recipe: Option<String>,
    ) -> (r: Recipe)
        ensures
            r.description == description,
            r.identifier == identifier,
            r.minimum_version == minimum_version,
            r.parent_recipe == parent_recipe,
            r.parent_recipe_trust_info is None,
            r.input@.len() == 1,
            r.input@[0].0@ == "NAME"@,
            r.input@[0].1 matches PlistDataType::Str(s) && s@ == "test_recipe"@,
            r.process@.len() == 1,
            r.process@[0].processor@ == "EndOfCheckPhase"@,
            r.process@[0].arguments is None,
    {
        let initial_processor = Processor {
            processor: String::from_str("EndOfCheckPhase"),
            arguments: None,
        };
        let mut input: Vec<(String, PlistDataType)> = Vec::new();
        input.push((
            String::from_str("NAME"),
            PlistDataType::Str(String::from_str("test_recipe")),
        ));
        let mut process: Vec<Processor> = Vec::new();
        process.push(initial_processor);
        Recipe {
            description,
            identifier,
            minimum_version,
            parent_recipe,
            input,
            process,
            parent_recipe_trust_info: None,
        }
    }

    /// Whether this recipe names a parent; an empty string does not count.
    pub fn has_parent(&self) -> (r: bool)
        ensures
            r == spec_has_parent(*self),
    {
        match &self.parent_recipe {
            Some(p) => p.as_str().unicode_len() > 0,
            None => false,
        }
    }

    /// Whether the recipe satisfies the validity invariant: description,
    /// identifier and minimum version non-empty, and an input entry `NAME`.
    pub fn is_valid_recipe(&self) -> (r: bool)
        ensures
            r == spec_is_valid(*self),
    {
        let statics_filled = self.description.as_str().unicode_len() > 0
            && self.identifier.as_str().unicode_len() > 0
            && self.minimum_version.as_str().unicode_len() > 0;
        let input_contains_name = table_has_key(&self.input, "NAME");
        statics_filled && input_contains_name
    }
}

} // verus!
