//! Merging a resolved recipe chain into one effective recipe.
//!
//! The chain runs root first, requested recipe last.  Input tables merge
//! level by level: each level's entries overwrite or extend what the
//! levels above contributed, so the closest descendant that defines a
//! key decides its value.  Process sequences concatenate in chain order,
//! root steps first.  The descriptive fields of the effective recipe are
//! the requested recipe's own.

use vstd::prelude::*;

use crate::recipes::{Processor, Recipe};
use crate::values::{
    keys_unique, lemma_upsert_get_other, lemma_upsert_get_same, lemma_upsert_keys_unique, pget,
    upsert, upsert_entry, PlistDataType,
};

verus! {

/// One level's entries folded into an accumulator, left to right.
pub open spec fn upsert_all(
    s: Seq<(String, PlistDataType)>,
    t: Seq<(String, PlistDataType)>,
) -> Seq<(String, PlistDataType)>
    decreases t.len(),
{
    if t.len() == 0 {
        s
    } else {
        upsert(upsert_all(s, t.drop_last()), t.last())
    }
}

/// The merged input of a chain, root first.
pub open spec fn merged_input(chain: Seq<Recipe>) -> Seq<(String, PlistDataType)>
    decreases chain.len(),
{
    if chain.len() == 0 {
        Seq::empty()
    } else {
        upsert_all(merged_input(chain.drop_last()), chain.last().input@)
    }
}

/// The merged process of a chain: concatenation in chain order.
pub open spec fn merged_process(chain: Seq<Recipe>) -> Seq<Processor>
    decreases chain.len(),
{
    if chain.len() == 0 {
        Seq::empty()
    } else {
        merged_process(chain.drop_last()) + chain.last().process@
    }
}

/// Folding a table with unique keys onto an empty one reproduces it.
pub proof fn lemma_upsert_all_identity(t: Seq<(String, PlistDataType)>)
    requires
        keys_unique(t),
    ensures
        upsert_all(Seq::empty(), t) == t,
    decreases t.len(),
{
    if t.len() > 0 {
        assert forall|i: int, j: int|
            0 <= i < j < t.drop_last().len() implies t.drop_last()[i].0@
            != t.drop_last()[j].0@ by {
            assert(t.drop_last()[i] == t[i]);
            assert(t.drop_last()[j] == t[j]);
        }
        lemma_upsert_all_identity(t.drop_last());
        assert forall|j: int|
            0 <= j < t.drop_last().len() implies t.drop_last()[j].0@ != t.last().0@ by {
            assert(t.drop_last()[j] == t[j]);
        }
        crate::values::lemma_upsert_append(t.drop_last(), t.last());
        assert(t.drop_last().push(t.last()) =~= t);
    }
}

/// A single-level chain merges to itself: with unique input keys, the
/// requested recipe is already the effective recipe.
pub proof fn lemma_merge_single(r: Recipe)
    requires
        keys_unique(r.input@),
    ensures
        merged_input(seq![r]) == r.input@,
        merged_process(seq![r]) == r.process@,
{
    assert(seq![r].drop_last() =~= Seq::<Recipe>::empty());
    assert(seq![r].last() == r);
    assert(merged_input(Seq::<Recipe>::empty()) =~= Seq::<(String, PlistDataType)>::empty());
    assert(merged_process(Seq::<Recipe>::empty()) =~= Seq::<Processor>::empty());
    lemma_upsert_all_identity(r.input@);
    assert(Seq::<Processor>::empty() + r.process@ =~= r.process@);
}

/// The last binding of `k` within one level's entries.
pub open spec fn level_last(t: Seq<(String, PlistDataType)>, k: Seq<char>) -> Option<
    PlistDataType,
>
    decreases t.len(),
{
    if t.len() == 0 {
        None
    } else if t.last().0@ == k {
        Some(t.last().1)
    } else {
        level_last(t.drop_last(), k)
    }
}

/// Folding one level looks keys up in that level first, then below.
pub proof fn lemma_upsert_all_get(
    s: Seq<(String, PlistDataType)>,
    t: Seq<(String, PlistDataType)>,
    k: Seq<char>,
)
    ensures
        pget(upsert_all(s, t), k) == match level_last(t, k) {
            Some(v) => Some(v),
            None => pget(s, k),
        },
    decreases t.len(),
{
    if t.len() > 0 {
        if t.last().0@ == k {
            lemma_upsert_get_same(upsert_all(s, t.drop_last()), t.last());
        } else {
            lemma_upsert_get_other(upsert_all(s, t.drop_last()), t.last(), k);
            lemma_upsert_all_get(s, t.drop_last(), k);
        }
    }
}

/// The value `k` takes at the closest level, descending from the
/// requested recipe, that binds it.
pub open spec fn chain_value_of(chain: Seq<Recipe>, k: Seq<char>) -> Option<PlistDataType>
    decreases chain.len(),
{
    if chain.len() == 0 {
        None
    } else {
        match level_last(chain.last().input@, k) {
            Some(v) => Some(v),
            None => chain_value_of(chain.drop_last(), k),
        }
    }
}

/// Merge precedence, as a law: every input key's effective value is the
/// one from the closest level to the requested recipe that defines it;
/// keys only an ancestor defines persist unchanged, and a key the
/// requested recipe redefines takes its value, not an ancestor's.
pub proof fn lemma_merge_precedence(chain: Seq<Recipe>, k: Seq<char>)
    ensures
        pget(merged_input(chain), k) == chain_value_of(chain, k),
    decreases chain.len(),
{
    if chain.len() > 0 {
        lemma_upsert_all_get(merged_input(chain.drop_last()), chain.last().input@, k);
        lemma_merge_precedence(chain.drop_last(), k);
    }
}

/// Folding a level preserves key uniqueness.
pub proof fn lemma_upsert_all_unique(
    s: Seq<(String, PlistDataType)>,
    t: Seq<(String, PlistDataType)>,
)
    requires
        keys_unique(s),
    ensures
        keys_unique(upsert_all(s, t)),
    decreases t.len(),
{
    if t.len() > 0 {
        lemma_upsert_all_unique(s, t.drop_last());
        lemma_upsert_keys_unique(upsert_all(s, t.drop_last()), t.last());
    }
}

/// The merged input table has unique keys, whatever the levels held.
pub proof fn lemma_merged_input_unique(chain: Seq<Recipe>)
    ensures
        keys_unique(merged_input(chain)),
    decreases chain.len(),
{
    if chain.len() > 0 {
        lemma_merged_input_unique(chain.drop_last());
        lemma_upsert_all_unique(merged_input(chain.drop_last()), chain.last().input@);
    }
}

/// Process ordering for a three-level chain, as a law: the effective
/// process is the root's steps, then the middle's, then the leaf's, and
/// its length is the sum of the three.
pub proof fn lemma_process_ordering_three(chain: Seq<Recipe>)
    requires
        chain.len() == 3,
    ensures
        merged_process(chain) == chain[0].process@ + chain[1].process@ + chain[2].process@,
        merged_process(chain).len() == chain[0].process@.len() + chain[1].process@.len()
            + chain[2].process@.len(),
{
    reveal_with_fuel(merged_process, 4);
    let c2 = chain.drop_last();
    let c1 = c2.drop_last();
    let c0 = c1.drop_last();
    assert(c0.len() == 0);
    assert(chain.last() == chain[2]);
    assert(c2.last() == chain[1]);
    assert(c1.last() == chain[0]);
    assert(merged_process(c1) =~= Seq::<Processor>::empty() + chain[0].process@);
    assert(merged_process(c1) =~= chain[0].process@);
    assert(merged_process(chain) =~= chain[0].process@ + chain[1].process@ + chain[2].process@);
}

/// Merges a non-empty chain, root first, into the effective recipe.
/// The descriptive fields, the parent reference and the trust info come
/// from the requested recipe; input and process merge as specified.
pub fn merge_recipe_chain(chain: Vec<Recipe>) -> (r: Recipe)
    requires
        chain@.len() > 0,
    ensures
        r.description == chain@.last().description,
        r.identifier == chain@.last().identifier,
        r.minimum_version == chain@.last().minimum_version,
        r.parent_recipe == chain@.last().parent_recipe,
        r.parent_recipe_trust_info == chain@.last().parent_recipe_trust_info,
        r.input@ == merged_input(chain@),
        r.process@ == merged_process(chain@),
{
    let ghost gchain = chain@;
    let mut chain = chain;
    let mut input: Vec<(String, PlistDataType)> = Vec::new();
    let mut process: Vec<Processor> = Vec::new();
    proof {
        assert(gchain.take(0) =~= Seq::<Recipe>::empty());
    }
    while chain.len() > 1
        invariant
            chain@.len() >= 1,
            chain@.len() <= gchain.len(),
            chain@ =~= gchain.skip(gchain.len() - chain@.len()),
            input@ == merged_input(gchain.take(gchain.len() - chain@.len())),
            process@ == merged_process(gchain.take(gchain.len() - chain@.len())),
        decreases chain@.len(),
    {
        let ghost i = gchain.len() - chain@.len();
        let level = chain.remove(0);
        proof {
            assert(level == gchain[i]);
            assert(gchain.skip(i).remove(0) =~= gchain.skip(i + 1));
        }
        merge_level(&mut input, level.input);
        let mut steps = level.process;
        process.append(&mut steps);
        proof {
            assert(gchain.take(i + 1).drop_last() =~= gchain.take(i));
            assert(gchain.take(i + 1).last() == gchain[i]);
        }
    }
    let ghost i = gchain.len() - 1;
    let level = chain.remove(0);
    proof {
        assert(level == gchain[i]);
    }
    merge_level(&mut input, level.input);
    let mut steps = level.process;
    process.append(&mut steps);
    proof {
        assert(gchain.take(i + 1) =~= gchain);
        assert(gchain.take(i + 1).drop_last() =~= gchain.take(i));
        assert(gchain.take(i + 1).last() == gchain[i]);
        assert(gchain.last() == gchain[i]);
    }
    Recipe {
        description: level.description,
        identifier: level.identifier,
        minimum_version: level.minimum_version,
        parent_recipe: level.parent_recipe,
        input,
        process,
        parent_recipe_trust_info: level.parent_recipe_trust_info,
    }
}

/// Folds one level's entries into the accumulated input table.
fn merge_level(acc: &mut Vec<(String, PlistDataType)>, level: Vec<(String, PlistDataType)>)
    ensures
        final(acc)@ == upsert_all(old(acc)@, level@),
{
    let ghost base = old(acc)@;
    let ghost lv = level@;
    let mut level = level;
    proof {
        assert(lv.take(0) =~= Seq::<(String, PlistDataType)>::empty());
    }
    while level.len() > 0
        invariant
            level@.len() <= lv.len(),
            level@ =~= lv.skip(lv.len() - level@.len()),
            acc@ == upsert_all(base, lv.take(lv.len() - level@.len())),
        decreases level@.len(),
    {
        let ghost j = lv.len() - level@.len();
        let e = level.remove(0);
        proof {
            assert(e == lv[j]);
            assert(lv.skip(j).remove(0) =~= lv.skip(j + 1));
        }
        upsert_entry(acc, e.0, e.1);
        proof {
            assert(lv.take(j + 1).drop_last() =~= lv.take(j));
            assert(lv.take(j + 1).last() == lv[j]);
        }
    }
    proof {
        assert(lv.take(lv.len() as int) =~= lv);
    }
}

} // verus!
