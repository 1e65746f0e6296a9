//! The preferences context handed to the index builder and resolver:
//! an ordered list of recipe search directories, the repository parent
//! directory, and the file paths the tool works with.  Paths are plain
//! strings here; reading and writing the preferences file itself is the
//! caller's business.

use vstd::prelude::*;
use vstd::string::*;

use crate::order::str_eq;

verus! {

/// Relies on dirs::config_dir, which asks the operating system for the
/// user's configuration directory.  What comes back depends on the
/// environment, so nothing more is promised of it.
#[verifier::external_body]
fn config_dir_path() -> (r: Option<String>) {
    dirs::config_dir().map(|p| p.to_string_lossy().into_owned())
}

/// A base path with a suffix appended.
fn append_str(base: &str, suffix: &str) -> (r: String)
    ensures
        r@ == base@ + suffix@,
{
    let mut s = String::from_str(base);
    s.append(suffix);
    s
}

/// The tool's own directory under the platform's configuration
/// directory, or under the working directory when the platform names
/// none.
fn default_library_dir() -> (r: String)
    ensures
        exists|base: Seq<char>| r@ == base + "/AutoPkg"@,
{
    let base = match config_dir_path() {
        Some(b) => b,
        None => String::from_str("."),
    };
    let r = append_str(base.as_str(), "/AutoPkg");
    proof {
        assert(r@ == base@ + "/AutoPkg"@);
    }
    r
}

/// Default parent folder for newly added recipe repositories.
fn default_recipe_repo_dir(base: &str) -> (r: String)
    ensures
        r@ == base@ + "/RecipeRepos"@,
{
    append_str(base, "/RecipeRepos")
}

/// Default parent folder for recipe overrides.
fn default_recipe_override_dir(base: &str) -> (r: String)
    ensures
        r@ == base@ + "/RecipeOverrides"@,
{
    append_str(base, "/RecipeOverrides")
}

/// Default path of the API token file.
fn default_github_token_path(base: &str) -> (r: String)
    ensures
        r@ == base@ + "/gh_token"@,
{
    append_str(base, "/gh_token")
}

/// Default parent folder for cached downloads.
fn default_cache_dir(base: &str) -> (r: String)
    ensures
        r@ == base@ + "/Cache"@,
{
    append_str(base, "/Cache")
}

/// Default path of the serialized recipe index.
fn default_recipe_map_path(base: &str) -> (r: String)
    ensures
        r@ == base@ + "/recipe_map.json"@,
{
    append_str(base, "/recipe_map.json")
}

/// Default path of the preferences file.
fn default_prefs_path(base: &str) -> (r: String)
    ensures
        r@ == base@ + "/autopkg_prefs.json"@,
{
    append_str(base, "/autopkg_prefs.json")
}

/// Code signature verification is on unless asked off.
fn default_disable_code_signature_verification() -> (r: bool)
    ensures
        r == false,
{
    false
}

/// The preferences of one run.
#[derive(Debug)]
pub struct Preferences {
    /// Directories searched, in order, when building the recipe index.
    pub recipe_search_dirs: Vec<String>,
    /// Parent folder for cached downloads.
    pub cache_dir: String,
    /// Parent folder for all overrides.
    pub recipe_override_dir: String,
    /// Parent folder that new recipe repositories are added to; scanned
    /// after the search directories when building the index.
    pub recipe_repo_dir: String,
    /// Path to a text file holding an API access token.
    pub github_token_path: String,
    /// Path the serialized recipe index is written to and read from.
    pub recipe_map_path: String,
    /// Optional path to a software repository.
    pub munki_repo: Option<String>,
    /// Whether code signature verification should be disabled.
    pub disable_code_signature_verification: bool,
    /// Path of the preferences file itself; never written back into it.
    pub prefs_path: String,
    /// Extra keys for recipes and processors; unused by the core.
    pub extras: Option<Vec<(String, String)>>,
}

/// The search directories a preferences value would keep after removing
/// every entry equal to `p`.
pub open spec fn dirs_without(s: Seq<String>, p: Seq<char>) -> Seq<String>
    decreases s.len(),
{
    if s.len() == 0 {
        Seq::empty()
    } else if s.last()@ == p {
        dirs_without(s.drop_last(), p)
    } else {
        dirs_without(s.drop_last(), p).push(s.last())
    }
}

impl Preferences {
    /// Fresh preferences: the working directory as the only search
    /// directory, every path at its default under the library
    /// directory, and signature verification on.
    pub fn new() -> (r: Preferences)
        ensures
            r.recipe_search_dirs@.len() == 1,
            r.recipe_search_dirs@[0]@ == "."@,
            r.disable_code_signature_verification == false,
            r.munki_repo is None,
            r.extras is None,
            exists|base: Seq<char>|
                {
                    &&& r.cache_dir@ == base + "/Cache"@
                    &&& r.recipe_override_dir@ == base + "/RecipeOverrides"@
                    &&& r.recipe_repo_dir@ == base + "/RecipeRepos"@
                    &&& r.github_token_path@ == base + "/gh_token"@
                    &&& r.recipe_map_path@ == base + "/recipe_map.json"@
                    &&& r.prefs_path@ == base + "/autopkg_prefs.json"@
                },
    {
        let base = default_library_dir();
        let mut recipe_search_dirs: Vec<String> = Vec::new();
        recipe_search_dirs.push(String::from_str("."));
        let r = Preferences {
            recipe_search_dirs,
            cache_dir: default_cache_dir(base.as_str()),
            recipe_override_dir: default_recipe_override_dir(base.as_str()),
            recipe_repo_dir: default_recipe_repo_dir(base.as_str()),
            github_token_path: default_github_token_path(base.as_str()),
            recipe_map_path: default_recipe_map_path(base.as_str()),
            munki_repo: None,
            disable_code_signature_verification:
                default_disable_code_signature_verification(),
            prefs_path: default_prefs_path(base.as_str()),
            extras: None,
        };
        proof {
            assert(r.cache_dir@ == base@ + "/Cache"@);
        }
        r
    }

    /// Appends a path to the search directories; the caller persists
    /// the changed preferences.
    pub fn add_to_search_dirs(&mut self, path: &str)
        ensures
            final(self).recipe_search_dirs@.len() == old(self).recipe_search_dirs@.len() + 1,
            final(self).recipe_search_dirs@.last()@ == path@,
            forall|i: int|
                0 <= i < old(self).recipe_search_dirs@.len()
                    ==> final(self).recipe_search_dirs@[i] == old(self).recipe_search_dirs@[i],
            final(self).cache_dir == old(self).cache_dir,
            final(self).recipe_override_dir == old(self).recipe_override_dir,
            final(self).recipe_repo_dir == old(self).recipe_repo_dir,
            final(self).github_token_path == old(self).github_token_path,
            final(self).recipe_map_path == old(self).recipe_map_path,
            final(self).munki_repo == old(self).munki_repo,
            final(self).disable_code_signature_verification
                == old(self).disable_code_signature_verification,
            final(self).prefs_path == old(self).prefs_path,
            final(self).extras == old(self).extras,
    {
        self.recipe_search_dirs.push(String::from_str(path));
    }

    /// Removes every search directory equal to `path`, leaving the rest
    /// in order; removing an absent path changes nothing.  The caller
    /// persists the changed preferences either way.
    pub fn remove_from_search_dirs(&mut self, path: &str)
        ensures
            final(self).recipe_search_dirs@ == dirs_without(old(self).recipe_search_dirs@, path@),
            final(self).cache_dir == old(self).cache_dir,
            final(self).recipe_override_dir == old(self).recipe_override_dir,
            final(self).recipe_repo_dir == old(self).recipe_repo_dir,
            final(self).github_token_path == old(self).github_token_path,
            final(self).recipe_map_path == old(self).recipe_map_path,
            final(self).munki_repo == old(self).munki_repo,
            final(self).disable_code_signature_verification
                == old(self).disable_code_signature_verification,
            final(self).prefs_path == old(self).prefs_path,
            final(self).extras == old(self).extras,
    {
        let ghost g = self.recipe_search_dirs@;
        let n = self.recipe_search_dirs.len();
        let mut kept: Vec<String> = Vec::new();
        let mut i: usize = 0;
        proof {
            assert(g.take(0) =~= Seq::<String>::empty());
        }
        while i < n
            invariant
                n == self.recipe_search_dirs@.len(),
                self.recipe_search_dirs@ == g,
                i <= n,
                kept@ == dirs_without(g.take(i as int), path@),
            decreases n - i,
        {
            if !str_eq(self.recipe_search_dirs[i].as_str(), path) {
                kept.push(self.recipe_search_dirs[i].clone());
            }
            proof {
                assert(g.take(i as int + 1).drop_last() =~= g.take(i as int));
                assert(g.take(i as int + 1).last() == g[i as int]);
            }
            i = i + 1;
        }
        proof {
            assert(g.take(n as int) =~= g);
        }
        self.recipe_search_dirs = kept;
    }
}


/// Splits one `KEY=VALUE` argument at its first equals sign; an
/// argument without one is refused.
pub fn parse_key_value(s: &str) -> (r: Option<(String, String)>)
    ensures
        match r {
            Some(kv) => exists|p: int|
                {
                    &&& 0 <= p < s@.len()
                    &&& s@[p] == '='
                    &&& (forall|j: int| 0 <= j < p ==> s@[j] != '=')
                    &&& kv.0@ == s@.take(p)
                    &&& kv.1@ == s@.skip(p + 1)
                },
            None => forall|j: int| 0 <= j < s@.len() ==> s@[j] != '=',
        },
{
    let n = s.unicode_len();
    let mut i: usize = 0;
    while i < n
        invariant
            n == s@.len(),
            i <= n,
            forall|j: int| 0 <= j < i ==> s@[j] != '=',
        decreases n - i,
    {
        if s.get_char(i) == '=' {
            let key = String::from_str(s.substring_char(0, i));
            let val = String::from_str(s.substring_char(i + 1, n));
            proof {
                assert(key@ =~= s@.take(i as int));
                assert(val@ =~= s@.skip(i as int + 1));
            }
            return Some((key, val));
        }
        i = i + 1;
    }
    None
}

} // verus!
