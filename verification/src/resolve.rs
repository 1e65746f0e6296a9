//! Chain resolution: from a requested recipe to its effective form.
//!
//! Resolution walks the parent chain of the requested recipe, refusing a
//! chain that revisits an identifier or outgrows a defensive length cap,
//! then merges the chain root-first and validates the result.  The walk
//! is specified by [`build_chain`]; the in-memory resolver
//! [`load_recipe`] follows it exactly, and [`ChainLoader`] offers the
//! same decisions step by step to a caller that loads each ancestor's
//! document itself.

use vstd::prelude::*;
use vstd::string::*;

use crate::errors::RecipeError;
use crate::merge::{merge_recipe_chain, merged_input, merged_process};
use crate::recipes::{spec_has_parent, spec_is_valid, Recipe};
use crate::values::{has_key, PlistDataType};

verus! {

/// No chain may be longer than this; a longer one is refused as cyclic
/// even before a repeated identifier is seen.
pub const MAX_CHAIN_LEN: usize = 64;

/// The contents of a list of strings, by contents.
pub open spec fn str_views(v: Seq<String>) -> Seq<Seq<char>> {
    Seq::new(v.len(), |i: int| v[i]@)
}

/// First recipe in the store carrying the identifier `id`.
pub open spec fn lookup_recipe(store: Seq<Recipe>, id: Seq<char>) -> Option<Recipe>
    decreases store.len(),
{
    if store.len() == 0 {
        None
    } else if store[0].identifier@ == id {
        Some(store[0])
    } else {
        lookup_recipe(store.drop_first(), id)
    }
}

/// The identifier a recipe names as its parent, empty when it names none.
pub open spec fn spec_parent_id(r: Recipe) -> Seq<char> {
    match r.parent_recipe {
        Some(p) => p@,
        None => Seq::empty(),
    }
}

/// What walking the parent chain from one identifier yields: the chain
/// itself, requested recipe first, or the identifier that was missing or
/// at which a cycle was detected.
pub enum ChainOutcome {
    Found(Seq<Recipe>),
    Missing(Seq<char>),
    Cyclic(Seq<char>),
}

/// The parent-chain walk: refuse a revisited identifier or exhausted
/// length budget as cyclic, fail on an identifier the store lacks, and
/// otherwise follow `parentRecipe` until a root recipe ends the chain.
pub open spec fn build_chain(
    store: Seq<Recipe>,
    id: Seq<char>,
    visited: Seq<Seq<char>>,
    fuel: nat,
) -> ChainOutcome
    decreases fuel,
{
    if visited.contains(id) {
        ChainOutcome::Cyclic(id)
    } else if fuel == 0 {
        ChainOutcome::Cyclic(id)
    } else {
        match lookup_recipe(store, id) {
            None => ChainOutcome::Missing(id),
            Some(r) => {
                if spec_has_parent(r) {
                    match build_chain(store, spec_parent_id(r), visited.push(id), (fuel - 1) as nat) {
                        ChainOutcome::Found(ch) => ChainOutcome::Found(seq![r] + ch),
                        o => o,
                    }
                } else {
                    ChainOutcome::Found(seq![r])
                }
            },
        }
    }
}

/// A walk outcome with an already-walked prefix put back in front.
pub open spec fn extend_chain(prefix: Seq<Recipe>, o: ChainOutcome) -> ChainOutcome {
    match o {
        ChainOutcome::Found(ch) => ChainOutcome::Found(prefix + ch),
        other => other,
    }
}

/// A found recipe carries the identifier it was looked up under.
pub proof fn lemma_lookup_id(store: Seq<Recipe>, id: Seq<char>)
    ensures
        lookup_recipe(store, id) matches Some(r) ==> r.identifier@ == id,
    decreases store.len(),
{
    if store.len() > 0 && store[0].identifier@ != id {
        lemma_lookup_id(store.drop_first(), id);
    }
}

/// A store with no recipe under `id` looks it up to nothing.
pub proof fn lemma_lookup_none(store: Seq<Recipe>, id: Seq<char>)
    requires
        forall|j: int| 0 <= j < store.len() ==> store[j].identifier@ != id,
    ensures
        lookup_recipe(store, id) is None,
    decreases store.len(),
{
    if store.len() > 0 {
        lemma_lookup_none(store.drop_first(), id);
    }
}

/// Lookup returns the recipe at the first position whose identifier
/// matches.
pub proof fn lemma_lookup_found(store: Seq<Recipe>, id: Seq<char>, i: int)
    requires
        0 <= i < store.len(),
        store[i].identifier@ == id,
        forall|j: int| 0 <= j < i ==> store[j].identifier@ != id,
    ensures
        lookup_recipe(store, id) == Some(store[i]),
    decreases i,
{
    if i > 0 {
        lemma_lookup_found(store.drop_first(), id, i - 1);
    }
}

/// Pushing onto a sequence adds exactly one member to what it contains.
pub proof fn lemma_contains_push(v: Seq<Seq<char>>, x: Seq<char>, y: Seq<char>)
    ensures
        v.push(y).contains(x) == (v.contains(x) || x == y),
{
    if v.push(y).contains(x) {
        let i = choose|i: int| 0 <= i < v.push(y).len() && v.push(y)[i] == x;
        if i < v.len() {
            assert(v[i] == x);
        }
    }
    if v.contains(x) {
        let i = choose|i: int| 0 <= i < v.len() && v[i] == x;
        assert(v.push(y)[i] == x);
    }
    if x == y {
        assert(v.push(y)[v.len() as int] == x);
    }
}

/// Cycle safety, as a law: whenever the walk succeeds, the chain starts
/// at the requested identifier, its identifiers are pairwise distinct and
/// none was previously visited, each level names the next as its parent,
/// the final level is a root, and the chain fits the length budget.  A
/// walk that would revisit an identifier yields `Cyclic` instead, and
/// the walk always terminates.
pub proof fn lemma_found_chain_shape(
    store: Seq<Recipe>,
    id: Seq<char>,
    visited: Seq<Seq<char>>,
    fuel: nat,
)
    ensures
        build_chain(store, id, visited, fuel) matches ChainOutcome::Found(ch) ==> {
            &&& 1 <= ch.len() <= fuel
            &&& ch[0].identifier@ == id
            &&& forall|i: int, j: int|
                0 <= i < j < ch.len() ==> ch[i].identifier@ != ch[j].identifier@
            &&& forall|i: int| 0 <= i < ch.len() ==> !visited.contains(ch[i].identifier@)
            &&& forall|i: int|
                0 <= i && i + 1 < ch.len() ==> spec_has_parent(ch[i]) && spec_parent_id(ch[i])
                    == ch[i + 1].identifier@
            &&& !spec_has_parent(ch.last())
        },
    decreases fuel,
{
    let o = build_chain(store, id, visited, fuel);
    if o is Found {
        let ch = o->Found_0;
        lemma_lookup_id(store, id);
        let r = lookup_recipe(store, id).unwrap();
        if spec_has_parent(r) {
            let sub = build_chain(store, spec_parent_id(r), visited.push(id), (fuel - 1) as nat);
            lemma_found_chain_shape(store, spec_parent_id(r), visited.push(id), (fuel - 1) as nat);
            let ch2 = sub->Found_0;
            assert(ch =~= seq![r] + ch2);
            assert forall|i: int| 0 <= i < ch.len() implies !visited.contains(
                ch[i].identifier@,
            ) by {
                if i == 0 {
                    if visited.contains(id) {
                    }
                } else {
                    assert(ch[i] == ch2[i - 1]);
                    lemma_contains_push(visited, ch2[i - 1].identifier@, id);
                }
            }
            assert forall|i: int, j: int| 0 <= i < j < ch.len() implies ch[i].identifier@
                != ch[j].identifier@ by {
                if i == 0 {
                    assert(ch[j] == ch2[j - 1]);
                    lemma_contains_push(visited, ch2[j - 1].identifier@, id);
                } else {
                    assert(ch[i] == ch2[i - 1]);
                    assert(ch[j] == ch2[j - 1]);
                }
            }
            assert forall|i: int|
                0 <= i && i + 1 < ch.len() implies spec_has_parent(ch[i]) && spec_parent_id(ch[i])
                == ch[i + 1].identifier@ by {
                if i == 0 {
                    assert(ch[1] == ch2[0]);
                } else {
                    assert(ch[i] == ch2[i - 1]);
                    assert(ch[i + 1] == ch2[i]);
                }
            }
            assert(ch.last() == ch2.last());
        } else {
            assert(ch =~= seq![r]);
        }
    }
}

/// One parent step is possible from `id`: the store holds it and it
/// names a parent.
pub open spec fn step_ok(store: Seq<Recipe>, id: Seq<char>) -> bool {
    lookup_recipe(store, id) matches Some(r) && spec_has_parent(r)
}

/// The identifier one parent step past `id`.
pub open spec fn next_id(store: Seq<Recipe>, id: Seq<char>) -> Seq<char> {
    spec_parent_id(lookup_recipe(store, id).unwrap())
}

/// The parent traversal takes `n` steps from `id` without failing.
pub open spec fn trace_defined(store: Seq<Recipe>, id: Seq<char>, n: nat) -> bool
    decreases n,
{
    n == 0 || (step_ok(store, id) && trace_defined(store, next_id(store, id), (n - 1) as nat))
}

/// The identifier the parent traversal reaches after `n` steps.
pub open spec fn trace_id(store: Seq<Recipe>, id: Seq<char>, n: nat) -> Seq<char>
    decreases n,
{
    if n == 0 {
        id
    } else {
        trace_id(store, next_id(store, id), (n - 1) as nat)
    }
}

/// A traversal that takes `n` steps also takes any fewer.
proof fn lemma_trace_defined_mono(store: Seq<Recipe>, id: Seq<char>, n: nat, m: nat)
    requires
        trace_defined(store, id, n),
        m <= n,
    ensures
        trace_defined(store, id, m),
    decreases m,
{
    if m > 0 {
        lemma_trace_defined_mono(store, next_id(store, id), (n - 1) as nat, (m - 1) as nat);
    }
}

/// The walk fails as cyclic whenever the parent traversal from `id`
/// runs into the visited set or revisits one of its own identifiers.
proof fn lemma_walk_revisit_cyclic(
    store: Seq<Recipe>,
    id: Seq<char>,
    visited: Seq<Seq<char>>,
    fuel: nat,
    n: nat,
)
    requires
        trace_defined(store, id, n),
        visited.contains(trace_id(store, id, n)) || (exists|a: nat, b: nat|
            a < b <= n && trace_id(store, id, a) == trace_id(store, id, b)),
    ensures
        build_chain(store, id, visited, fuel) is Cyclic,
    decreases fuel,
{
    if visited.contains(id) || fuel == 0 {
    } else {
        if n == 0 {
            assert(trace_id(store, id, 0) == id);
            assert(false) by {
                let (a, b) = choose|a: nat, b: nat|
                    a < b <= n && trace_id(store, id, a) == trace_id(store, id, b);
            }
        }
        let r = lookup_recipe(store, id).unwrap();
        let nid = next_id(store, id);
        assert(spec_has_parent(r));
        assert(spec_parent_id(r) == nid);
        if visited.contains(trace_id(store, id, n)) {
            assert(trace_id(store, id, n) == trace_id(store, nid, (n - 1) as nat));
            lemma_contains_push(visited, trace_id(store, nid, (n - 1) as nat), id);
            lemma_walk_revisit_cyclic(store, nid, visited.push(id), (fuel - 1) as nat, (n - 1) as nat);
        } else {
            let (a, b) = choose|a: nat, b: nat|
                a < b <= n && trace_id(store, id, a) == trace_id(store, id, b);
            if a > 0 {
                assert(trace_id(store, id, a) == trace_id(store, nid, (a - 1) as nat));
                assert(trace_id(store, id, b) == trace_id(store, nid, (b - 1) as nat));
                assert(((a - 1) as nat) < ((b - 1) as nat));
                assert(((b - 1) as nat) <= ((n - 1) as nat));
                assert(trace_id(store, nid, (a - 1) as nat) == trace_id(
                    store,
                    nid,
                    (b - 1) as nat,
                ));
                lemma_walk_revisit_cyclic(
                    store,
                    nid,
                    visited.push(id),
                    (fuel - 1) as nat,
                    (n - 1) as nat,
                );
            } else {
                // The requested identifier itself recurs after b steps:
                // the sub-walk runs into it in the visited set.
                lemma_trace_defined_mono(store, nid, (n - 1) as nat, (b - 1) as nat);
                assert(trace_id(store, id, b) == trace_id(store, nid, (b - 1) as nat));
                assert(trace_id(store, nid, (b - 1) as nat) == id);
                assert(visited.push(id)[visited.len() as int] == id);
                lemma_walk_revisit_cyclic(
                    store,
                    nid,
                    visited.push(id),
                    (fuel - 1) as nat,
                    (b - 1) as nat,
                );
            }
        }
    }
}

/// Cycle safety over arbitrary chains, as a law: whenever the parent
/// traversal from a requested identifier revisits one — any two step
/// counts reach the same identifier — the walk yields a cyclic
/// failure, never a chain, whatever its length budget; the resolver's
/// contract then maps that failure to the cyclic error naming an
/// identifier.  Termination needs no separate claim: the walk is a
/// total function of its budget and the resolver is checked to
/// terminate.
pub proof fn lemma_cycle_is_refused(store: Seq<Recipe>, id: Seq<char>, k1: nat, k2: nat, fuel: nat)
    requires
        k1 < k2,
        trace_defined(store, id, k2),
        trace_id(store, id, k1) == trace_id(store, id, k2),
    ensures
        build_chain(store, id, Seq::empty(), fuel) is Cyclic,
{
    assert(k1 < k2 <= k2 && trace_id(store, id, k1) == trace_id(store, id, k2));
    lemma_walk_revisit_cyclic(store, id, Seq::empty(), fuel, k2);
}

/// Which field name validation reports for an invalid effective recipe,
/// given the requested recipe and the merged input table.
pub open spec fn invalid_field(leaf: Recipe, input: Seq<(String, PlistDataType)>) -> Seq<char> {
    if leaf.description@.len() == 0 {
        "Description"@
    } else if leaf.identifier@.len() == 0 {
        "Identifier"@
    } else if leaf.minimum_version@.len() == 0 {
        "MinimumVersion"@
    } else {
        "NAME"@
    }
}

/// Whether the merged result of a chain ending in `leaf` is valid.
pub open spec fn effective_valid(leaf: Recipe, input: Seq<(String, PlistDataType)>) -> bool {
    &&& leaf.description@.len() > 0
    &&& leaf.identifier@.len() > 0
    &&& leaf.minimum_version@.len() > 0
    &&& has_key(input, "NAME"@)
}

/// Merges a chain, root first, and validates the effective recipe; an
/// invalid result is refused with the missing or empty field's name.
pub fn finalize_effective(rooted: Vec<Recipe>) -> (r: Result<Recipe, RecipeError>)
    requires
        rooted@.len() > 0,
    ensures
        effective_valid(rooted@.last(), merged_input(rooted@)) ==> (r matches Ok(eff)
            && eff.description == rooted@.last().description && eff.identifier
            == rooted@.last().identifier && eff.minimum_version == rooted@.last().minimum_version
            && eff.parent_recipe == rooted@.last().parent_recipe && eff.parent_recipe_trust_info
            == rooted@.last().parent_recipe_trust_info && eff.input@ == merged_input(rooted@)
            && eff.process@ == merged_process(rooted@) && spec_is_valid(eff)),
        !effective_valid(rooted@.last(), merged_input(rooted@)) ==> (r matches Err(e)
            && e matches RecipeError::InvalidRecipe(s) && s@ == invalid_field(
            rooted@.last(),
            merged_input(rooted@),
        )),
{
    let ghost leaf = rooted@.last();
    let ghost ginput = merged_input(rooted@);
    let eff = merge_recipe_chain(rooted);
    if eff.is_valid_recipe() {
        Ok(eff)
    } else {
        let reason = if eff.description.as_str().unicode_len() == 0 {
            "Description"
        } else if eff.identifier.as_str().unicode_len() == 0 {
            "Identifier"
        } else if eff.minimum_version.as_str().unicode_len() == 0 {
            "MinimumVersion"
        } else {
            "NAME"
        };
        Err(RecipeError::InvalidRecipe(String::from_str(reason)))
    }
}

/// Whether one of the strings is `s`, by contents.
fn contains_id(v: &Vec<String>, s: &str) -> (r: bool)
    ensures
        r == str_views(v@).contains(s@),
{
    let n = v.len();
    let mut i: usize = 0;
    while i < n
        invariant
            n == v@.len(),
            i <= n,
            forall|j: int| 0 <= j < i ==> v@[j]@ != s@,
        decreases n - i,
    {
        if crate::order::str_eq(v[i].as_str(), s) {
            proof {
                assert(str_views(v@)[i as int] == s@);
            }
            return true;
        }
        i = i + 1;
    }
    proof {
        assert(!str_views(v@).contains(s@)) by {
            if str_views(v@).contains(s@) {
                let j = choose|j: int| 0 <= j < str_views(v@).len() && str_views(v@)[j] == s@;
                assert(v@[j]@ == s@);
            }
        }
    }
    false
}

/// Takes the first not-yet-taken recipe under `id` out of the slots.
/// Slots already emptied are known not to carry `id`, so the first
/// remaining match is the first match in the original store.
fn take_recipe(slots: &mut Vec<Option<Recipe>>, id: &str, Ghost(store): Ghost<Seq<Recipe>>) -> (r:
    Option<Recipe>)
    requires
        old(slots)@.len() == store.len(),
        forall|i: int|
            0 <= i < store.len() ==> ((#[trigger] old(slots)@[i]) matches Some(x) ==> x
                == store[i]),
        forall|i: int|
            0 <= i < store.len() ==> (old(slots)@[i] is None ==> store[i].identifier@ != id@),
    ensures
        final(slots)@.len() == store.len(),
        forall|i: int|
            0 <= i < store.len() ==> ((#[trigger] final(slots)@[i]) == old(slots)@[i] || (final(
                slots)@[i] is None && store[i].identifier@ == id@)),
        r matches Some(x) ==> lookup_recipe(store, id@) == Some(x),
        r is None ==> lookup_recipe(store, id@) is None,
{
    let n = slots.len();
    let mut i: usize = 0;
    while i < n
        invariant
            n == store.len(),
            slots@.len() == store.len(),
            slots@ == old(slots)@,
            i <= n,
            forall|j: int|
                0 <= j < store.len() ==> ((#[trigger] slots@[j]) matches Some(x) ==> x
                    == store[j]),
            forall|j: int|
                0 <= j < store.len() ==> (slots@[j] is None ==> store[j].identifier@ != id@),
            forall|j: int| 0 <= j < i ==> store[j].identifier@ != id@,
        decreases n - i,
    {
        let hit = match &slots[i] {
            Some(x) => crate::order::str_eq(x.identifier.as_str(), id),
            None => false,
        };
        if hit {
            proof {
                lemma_lookup_found(store, id@, i as int);
            }
            let taken = slots[i].take();
            return match taken {
                Some(x) => Some(x),
                None => {
                    proof {
                        assert(false);
                    }
                    None
                },
            };
        }
        i = i + 1;
    }
    proof {
        lemma_lookup_none(store, id@);
    }
    None
}

/// Reverses a chain, turning requested-first order into root-first.
fn reverse_chain(chain: Vec<Recipe>) -> (r: Vec<Recipe>)
    ensures
        r@ == chain@.reverse(),
{
    let ghost g = chain@;
    let mut chain = chain;
    let mut r: Vec<Recipe> = Vec::new();
    while chain.len() > 0
        invariant
            chain@ == g.take(chain@.len() as int),
            r@.len() + chain@.len() == g.len(),
            forall|k: int| 0 <= k < r@.len() ==> r@[k] == g[g.len() - 1 - k],
        decreases chain@.len(),
    {
        let x = match chain.pop() {
            Some(x) => x,
            None => {
                proof {
                    assert(false);
                }
                return Vec::new();
            },
        };
        r.push(x);
    }
    proof {
        assert(r@ =~= g.reverse());
    }
    r
}

/// Step-by-step chain loading, for a caller that locates and parses each
/// ancestor's document itself.  The caller pushes each loaded recipe
/// together with the path it was read from; the loader refuses cycles
/// and over-long chains, answers with the next identifier to load, and
/// finally merges and validates the chain.
pub struct ChainLoader {
    /// The chain loaded so far, requested recipe first.
    pub chain: Vec<Recipe>,
    /// The path each chain level was loaded from.
    pub paths: Vec<String>,
    /// The identifiers already seen, in chain order.
    pub visited: Vec<String>,
}

/// The loader's bookkeeping lines up: one path and one recorded
/// identifier per chain level.
pub open spec fn loader_wf(l: ChainLoader) -> bool {
    &&& l.chain@.len() == l.paths@.len()
    &&& l.visited@.len() == l.chain@.len()
    &&& forall|i: int|
        0 <= i < l.chain@.len() ==> (#[trigger] l.visited@[i])@ == l.chain@[i].identifier@
}

impl ChainLoader {
    /// An empty loader, ready for the requested recipe.
    pub fn new() -> (r: ChainLoader)
        ensures
            r.chain@.len() == 0,
            r.paths@.len() == 0,
            r.visited@.len() == 0,
            loader_wf(r),
    {
        ChainLoader { chain: Vec::new(), paths: Vec::new(), visited: Vec::new() }
    }

    /// Adds one loaded recipe to the chain.  A recipe whose identifier
    /// was already seen, or one that would stretch the chain past the
    /// length cap, is refused as cyclic and leaves the loader unchanged.
    /// Otherwise the answer names the parent still to load, if any.
    pub fn push_recipe(&mut self, recipe: Recipe, path: String) -> (r: Result<
        Option<String>,
        RecipeError,
    >)
        requires
            loader_wf(*old(self)),
        ensures
            loader_wf(*final(self)),
            str_views(old(self).visited@).contains(recipe.identifier@) ==> (r matches Err(e)
                && e matches RecipeError::CyclicParentChain(s) && s@ == recipe.identifier@
                && *final(self) == *old(self)),
            (!str_views(old(self).visited@).contains(recipe.identifier@) && old(
                self,
            ).chain@.len() >= MAX_CHAIN_LEN) ==> (r matches Err(e)
                && e matches RecipeError::CyclicParentChain(s) && s@ == recipe.identifier@
                && *final(self) == *old(self)),
            (!str_views(old(self).visited@).contains(recipe.identifier@) && old(
                self,
            ).chain@.len() < MAX_CHAIN_LEN) ==> (final(self).chain@ == old(self).chain@.push(
                recipe,
            ) && final(self).paths@ == old(self).paths@.push(path) && (spec_has_parent(recipe)
                ==> (r matches Ok(n) && n matches Some(p) && p@ == spec_parent_id(recipe))) && (
            !spec_has_parent(recipe) ==> (r matches Ok(n) && n is None))),
    {
        if contains_id(&self.visited, recipe.identifier.as_str()) {
            return Err(RecipeError::CyclicParentChain(recipe.identifier));
        }
        if self.chain.len() >= MAX_CHAIN_LEN {
            return Err(RecipeError::CyclicParentChain(recipe.identifier));
        }
        let parent: Option<String> = match &recipe.parent_recipe {
            Some(p) => {
                if p.as_str().unicode_len() > 0 {
                    Some(p.clone())
                } else {
                    None
                }
            },
            None => None,
        };
        proof {
            assert(parent is Some == spec_has_parent(recipe));
            if parent is Some {
                assert(parent->0@ == spec_parent_id(recipe));
            }
        }
        self.visited.push(recipe.identifier.clone());
        self.chain.push(recipe);
        self.paths.push(path);
        Ok(parent)
    }

    /// The chain fingerprints, root to child: each level's identifier
    /// paired with the path it was loaded from, the basis for trust
    /// records.
    pub fn fingerprints(&self) -> (r: Vec<(String, String)>)
        requires
            loader_wf(*self),
        ensures
            r@.len() == self.chain@.len(),
            forall|k: int|
                0 <= k < r@.len() ==> (#[trigger] r@[k]).0@ == self.chain@[self.chain@.len() - 1
                    - k].identifier@ && r@[k].1@ == self.paths@[self.chain@.len() - 1 - k]@,
    {
        let n = self.chain.len();
        let mut r: Vec<(String, String)> = Vec::new();
        let mut k: usize = 0;
        while k < n
            invariant
                n == self.chain@.len(),
                n == self.paths@.len(),
                k <= n,
                r@.len() == k,
                forall|j: int|
                    0 <= j < k ==> (#[trigger] r@[j]).0@ == self.chain@[n - 1 - j].identifier@
                        && r@[j].1@ == self.paths@[n - 1 - j]@,
            decreases n - k,
        {
            let idx = n - 1 - k;
            r.push((self.chain[idx].identifier.clone(), self.paths[idx].clone()));
            k = k + 1;
        }
        r
    }

    /// Merges the loaded chain root-first and validates the effective
    /// recipe, exactly as the in-memory resolver does.
    pub fn finish(self) -> (r: Result<Recipe, RecipeError>)
        requires
            self.chain@.len() > 0,
        ensures
            ({
                let rooted = self.chain@.reverse();
                &&& (effective_valid(rooted.last(), merged_input(rooted)) ==> (r matches Ok(eff)
                    && eff.description == rooted.last().description && eff.identifier
                    == rooted.last().identifier && eff.minimum_version
                    == rooted.last().minimum_version && eff.parent_recipe
                    == rooted.last().parent_recipe && eff.parent_recipe_trust_info
                    == rooted.last().parent_recipe_trust_info && eff.input@ == merged_input(rooted)
                    && eff.process@ == merged_process(rooted) && spec_is_valid(eff)))
                &&& (!effective_valid(rooted.last(), merged_input(rooted)) ==> (r matches Err(e)
                    && e matches RecipeError::InvalidRecipe(s) && s@ == invalid_field(
                    rooted.last(),
                    merged_input(rooted),
                )))
            }),
    {
        let rooted = reverse_chain(self.chain);
        finalize_effective(rooted)
    }
}

/// Resolves the recipe under `id` against an in-memory store: walks its
/// parent chain with cycle detection and the length cap, merges the
/// chain root-first, and validates the effective recipe.  The outcome is
/// exactly what the chain walk specification prescribes.
#[verifier::loop_isolation(false)]
pub fn load_recipe(id: &str, store: Vec<Recipe>) -> (r: Result<Recipe, RecipeError>)
    ensures
        match build_chain(store@, id@, Seq::empty(), MAX_CHAIN_LEN as nat) {
            ChainOutcome::Found(ch) => {
                let rooted = ch.reverse();
                &&& (effective_valid(rooted.last(), merged_input(rooted)) ==> (r matches Ok(eff)
                    && eff.description == rooted.last().description && eff.identifier
                    == rooted.last().identifier && eff.minimum_version
                    == rooted.last().minimum_version && eff.parent_recipe
                    == rooted.last().parent_recipe && eff.parent_recipe_trust_info
                    == rooted.last().parent_recipe_trust_info && eff.input@ == merged_input(rooted)
                    && eff.process@ == merged_process(rooted) && spec_is_valid(eff)))
                &&& (!effective_valid(rooted.last(), merged_input(rooted)) ==> (r matches Err(e)
                    && e matches RecipeError::InvalidRecipe(s) && s@ == invalid_field(
                    rooted.last(),
                    merged_input(rooted),
                )))
            },
            ChainOutcome::Missing(m) => r matches Err(e)
                && e matches RecipeError::RecipeNotFound(s) && s@ == m,
            ChainOutcome::Cyclic(c) => r matches Err(e)
                && e matches RecipeError::CyclicParentChain(s) && s@ == c,
        },
{
    let ghost gstore = store@;
    let ghost goal = build_chain(gstore, id@, Seq::empty(), MAX_CHAIN_LEN as nat);

    let mut slots: Vec<Option<Recipe>> = Vec::new();
    let mut store = store;
    while store.len() > 0
        invariant
            slots@.len() + store@.len() == gstore.len(),
            store@ == gstore.skip(slots@.len() as int),
            forall|i: int| 0 <= i < slots@.len() ==> slots@[i] == Some(gstore[i]),
        decreases store@.len(),
    {
        let ghost k = slots@.len();
        let r0 = store.remove(0);
        proof {
            assert(r0 == gstore.skip(k as int)[0]);
            assert(gstore.skip(k as int).remove(0) =~= gstore.skip(k as int + 1));
        }
        slots.push(Some(r0));
    }

    let mut visited: Vec<String> = Vec::new();
    let mut chain: Vec<Recipe> = Vec::new();
    let mut cur: String = String::from_str(id);
    proof {
        assert(str_views(visited@) =~= Seq::<Seq<char>>::empty());
        assert(extend_chain(chain@, goal) == goal) by {
            if goal is Found {
                assert(chain@ + goal->Found_0 =~= goal->Found_0);
            }
        }
    }
    loop
        invariant
            goal == build_chain(gstore, id@, Seq::empty(), MAX_CHAIN_LEN as nat),
            slots@.len() == gstore.len(),
            forall|i: int|
                0 <= i < gstore.len() ==> ((#[trigger] slots@[i]) matches Some(x) ==> x
                    == gstore[i]),
            forall|i: int|
                0 <= i < gstore.len() ==> (slots@[i] is None ==> str_views(visited@).contains(
                    gstore[i].identifier@,
                )),
            visited@.len() == chain@.len(),
            visited@.len() <= MAX_CHAIN_LEN,
            goal == extend_chain(
                chain@,
                build_chain(
                    gstore,
                    cur@,
                    str_views(visited@),
                    (MAX_CHAIN_LEN - visited@.len()) as nat,
                ),
            ),
        decreases MAX_CHAIN_LEN - visited@.len(),
    {
        let ghost vviews = str_views(visited@);
        let ghost fuel = (MAX_CHAIN_LEN - visited@.len()) as nat;
        if contains_id(&visited, cur.as_str()) {
            return Err(RecipeError::CyclicParentChain(cur));
        }
        if visited.len() >= MAX_CHAIN_LEN {
            return Err(RecipeError::CyclicParentChain(cur));
        }
        proof {
            assert forall|i: int|
                0 <= i < gstore.len() && slots@[i] is None implies gstore[i].identifier@
                != cur@ by {
                if gstore[i].identifier@ == cur@ {
                    assert(vviews.contains(cur@));
                }
            }
        }
        let rec = match take_recipe(&mut slots, cur.as_str(), Ghost(gstore)) {
            None => {
                return Err(RecipeError::RecipeNotFound(cur));
            },
            Some(rec) => rec,
        };
        let parent: Option<String> = match &rec.parent_recipe {
            Some(p) => {
                if p.as_str().unicode_len() > 0 {
                    Some(p.clone())
                } else {
                    None
                }
            },
            None => None,
        };
        proof {
            assert(parent is Some == spec_has_parent(rec));
            if parent is Some {
                assert(parent->0@ == spec_parent_id(rec));
            }
        }
        let ghost old_chain = chain@;
        let ghost old_cur = cur@;
        visited.push(cur);
        chain.push(rec);
        proof {
            assert(str_views(visited@) =~= vviews.push(old_cur));
            assert(chain@ =~= old_chain + seq![rec]);
            assert forall|i: int|
                0 <= i < gstore.len() && slots@[i] is None implies str_views(visited@).contains(
                gstore[i].identifier@,
            ) by {
                lemma_contains_push(vviews, gstore[i].identifier@, old_cur);
                if vviews.contains(gstore[i].identifier@) {
                } else {
                    assert(gstore[i].identifier@ == old_cur);
                }
            }
        }
        match parent {
            None => {
                proof {
                    assert(build_chain(gstore, old_cur, vviews, fuel) == ChainOutcome::Found(
                        seq![rec],
                    ));
                    assert(old_chain + seq![rec] =~= chain@);
                    assert(goal == ChainOutcome::Found(chain@));
                }
                let rooted = reverse_chain(chain);
                proof {
                    assert(rooted@.len() > 0);
                }
                return finalize_effective(rooted);
            },
            Some(p) => {
                proof {
                    let sub = build_chain(
                        gstore,
                        spec_parent_id(rec),
                        vviews.push(old_cur),
                        (fuel - 1) as nat,
                    );
                    assert(build_chain(gstore, old_cur, vviews, fuel) == match sub {
                        ChainOutcome::Found(c2) => ChainOutcome::Found(seq![rec] + c2),
                        o => o,
                    });
                    if sub is Found {
                        assert(old_chain + (seq![rec] + sub->Found_0) =~= chain@ + sub->Found_0);
                    }
                    assert(goal == extend_chain(chain@, sub));
                }
                cur = p;
            },
        }
    }
}

} // verus!
