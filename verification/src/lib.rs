//! Verified core of a recipe automation library.

pub mod errors;
pub mod index;
pub mod merge;
pub mod order;
pub mod parse;
pub mod prefs;
pub mod recipes;
pub mod resolve;
pub mod trust;
pub mod values;

pub use errors::{RecipeError, UnreadableFileError};
pub use index::{
    build_recipe_map, calculate_short_name, find_recipe_in_map, get_recipe_path_by_identifier,
    is_git_folder, is_recipe_file, read_recipe_map, scan_candidate, serialize_recipe_map,
    IndexEntry, RecipeIndex, ScanEntry,
};
pub use merge::merge_recipe_chain;
pub use parse::{read_plist_recipe, read_recipe, read_yaml_recipe, recipe_of_doc};
pub use prefs::{parse_key_value, Preferences};
pub use recipes::{Processor, Recipe};
pub use resolve::{load_recipe, ChainLoader, MAX_CHAIN_LEN};
pub use trust::{collect_chain_fingerprints, ParentRecipeTrust, TrustBlock};
pub use values::{get_string_key_from_recipe_value, DocValue, PlistDataType};
