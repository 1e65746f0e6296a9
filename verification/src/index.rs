//! The recipe index: sorted lookup tables from identifiers and short
//! names to recipe file paths.
//!
//! Each table is an association list kept strictly sorted by key, so the
//! serialized index is a pure function of the table contents and repeated
//! builds over one scan produce byte-identical output.  Collisions follow
//! a last-writer-wins policy: a later scanned entry silently replaces an
//! earlier one under the same key.

use vstd::prelude::*;
use vstd::string::*;

use crate::errors::RecipeError;
use crate::values::{string_key_of, DocValue};
use crate::order::{
    lemma_seq_lt_connected, lemma_seq_lt_irrefl, seq_lt, str_ends_with, str_eq, str_lt,
    str_starts_with,
};

verus! {

/// First value bound to key `k` in a path table, by contents.
pub open spec fn sget(s: Seq<(String, String)>, k: Seq<char>) -> Option<Seq<char>>
    decreases s.len(),
{
    if s.len() == 0 {
        None
    } else if s[0].0@ == k {
        Some(s[0].1@)
    } else {
        sget(s.drop_first(), k)
    }
}

/// The table's keys are strictly sorted, which also makes them unique.
pub open spec fn tbl_sorted(s: Seq<(String, String)>) -> bool {
    forall|i: int| 0 <= i && i + 1 < s.len() ==> #[trigger] seq_lt(s[i].0@, s[i + 1].0@)
}

/// Sorted insert-or-replace into a path table.
pub open spec fn tbl_insert(s: Seq<(String, String)>, e: (String, String)) -> Seq<
    (String, String),
>
    decreases s.len(),
{
    if s.len() == 0 {
        seq![e]
    } else if seq_lt(s[0].0@, e.0@) {
        seq![s[0]] + tbl_insert(s.drop_first(), e)
    } else if s[0].0@ == e.0@ {
        seq![e] + s.drop_first()
    } else {
        seq![e] + s
    }
}

/// The contents of a path table as plain character sequences.
pub open spec fn tbl_view(s: Seq<(String, String)>) -> Seq<(Seq<char>, Seq<char>)> {
    Seq::new(s.len(), |i: int| (s[i].0@, s[i].1@))
}

/// A table minus its first entry is still sorted.
proof fn lemma_tbl_sorted_drop_first(s: Seq<(String, String)>)
    requires
        tbl_sorted(s),
        s.len() > 0,
    ensures
        tbl_sorted(s.drop_first()),
{
    assert forall|i: int| 0 <= i && i + 1 < s.drop_first().len() implies #[trigger] seq_lt(
        s.drop_first()[i].0@,
        s.drop_first()[i + 1].0@,
    ) by {
        assert(s.drop_first()[i] == s[i + 1]);
        assert(s.drop_first()[i + 1] == s[i + 2]);
    }
}

/// An insert leaves the table one longer, or equally long when it
/// replaces; its head is the old head or the new entry.
proof fn lemma_tbl_insert_shape(s: Seq<(String, String)>, e: (String, String))
    ensures
        tbl_insert(s, e).len() == s.len() || tbl_insert(s, e).len() == s.len() + 1,
        tbl_insert(s, e).len() > 0,
        tbl_insert(s, e)[0] == e || (s.len() > 0 && tbl_insert(s, e)[0] == s[0]),
    decreases s.len(),
{
    if s.len() > 0 && seq_lt(s[0].0@, e.0@) {
        lemma_tbl_insert_shape(s.drop_first(), e);
    }
}

/// A sorted insert keeps the table sorted.
pub proof fn lemma_tbl_insert_sorted(s: Seq<(String, String)>, e: (String, String))
    requires
        tbl_sorted(s),
    ensures
        tbl_sorted(tbl_insert(s, e)),
    decreases s.len(),
{
    if s.len() == 0 {
    } else if seq_lt(s[0].0@, e.0@) {
        lemma_tbl_sorted_drop_first(s);
        lemma_tbl_insert_sorted(s.drop_first(), e);
        lemma_tbl_insert_shape(s.drop_first(), e);
        let t = tbl_insert(s.drop_first(), e);
        let r = seq![s[0]] + t;
        assert forall|i: int| 0 <= i && i + 1 < r.len() implies #[trigger] seq_lt(r[i].0@, r[i + 1].0@) by {
            if i == 0 {
                assert(r[1] == t[0]);
                if s.drop_first().len() > 0 && t[0] == s.drop_first()[0] {
                    assert(s.drop_first()[0] == s[1]);
                    assert(seq_lt(s[0].0@, s[0int + 1].0@));
                }
            } else {
                assert(r[i] == t[i - 1]);
                assert(r[i + 1] == t[i]);
                let j = i - 1;
                assert(seq_lt(t[j].0@, t[j + 1].0@));
            }
        }
    } else if s[0].0@ == e.0@ {
        let r = seq![e] + s.drop_first();
        assert forall|i: int| 0 <= i && i + 1 < r.len() implies #[trigger] seq_lt(r[i].0@, r[i + 1].0@) by {
            if i == 0 {
                assert(r[1] == s[1]);
            } else {
                assert(r[i] == s[i]);
                assert(r[i + 1] == s[i + 1]);
            }
        }
    } else {
        lemma_seq_lt_connected(s[0].0@, e.0@);
        let r = seq![e] + s;
        assert forall|i: int| 0 <= i && i + 1 < r.len() implies #[trigger] seq_lt(r[i].0@, r[i + 1].0@) by {
            if i == 0 {
                assert(r[1] == s[0]);
            } else {
                assert(r[i] == s[i - 1]);
                assert(r[i + 1] == s[i]);
                let j = i - 1;
                assert(seq_lt(s[j].0@, s[j + 1].0@));
            }
        }
    }
}

/// After an insert, the inserted key is bound to the new value.
pub proof fn lemma_tbl_insert_get_same(s: Seq<(String, String)>, e: (String, String))
    ensures
        sget(tbl_insert(s, e), e.0@) == Some(e.1@),
    decreases s.len(),
{
    if s.len() == 0 {
    } else if seq_lt(s[0].0@, e.0@) {
        lemma_seq_lt_irrefl(s[0].0@);
        assert(s[0].0@ != e.0@) by {
            if s[0].0@ == e.0@ {
                assert(seq_lt(s[0].0@, s[0].0@));
            }
        }
        lemma_tbl_insert_get_same(s.drop_first(), e);
        assert((seq![s[0]] + tbl_insert(s.drop_first(), e)).drop_first() =~= tbl_insert(
            s.drop_first(),
            e,
        ));
    }
}

/// An insert leaves every other key's binding unchanged.
pub proof fn lemma_tbl_insert_get_other(s: Seq<(String, String)>, e: (String, String), k: Seq<char>)
    requires
        k != e.0@,
    ensures
        sget(tbl_insert(s, e), k) == sget(s, k),
    decreases s.len(),
{
    if s.len() == 0 {
        assert(seq![e].drop_first() =~= Seq::<(String, String)>::empty());
        assert(sget(Seq::<(String, String)>::empty(), k) is None);
    } else if seq_lt(s[0].0@, e.0@) {
        lemma_tbl_insert_get_other(s.drop_first(), e, k);
        assert((seq![s[0]] + tbl_insert(s.drop_first(), e)).drop_first() =~= tbl_insert(
            s.drop_first(),
            e,
        ));
    } else if s[0].0@ == e.0@ {
        assert((seq![e] + s.drop_first()).drop_first() =~= s.drop_first());
    } else {
        assert((seq![e] + s).drop_first() =~= s);
    }
}

/// Unfolds a sorted insert past a prefix of strictly smaller keys.
pub proof fn lemma_tbl_insert_skip(s: Seq<(String, String)>, e: (String, String), i: int)
    requires
        0 <= i <= s.len(),
        forall|j: int| 0 <= j < i ==> seq_lt(s[j].0@, e.0@),
    ensures
        tbl_insert(s, e) == s.subrange(0, i) + tbl_insert(s.skip(i), e),
    decreases i,
{
    if i == 0 {
        assert(s.skip(0) =~= s);
        assert(s.subrange(0, 0) + tbl_insert(s, e) =~= tbl_insert(s, e));
    } else {
        lemma_tbl_insert_skip(s.drop_first(), e, i - 1);
        assert(s.drop_first().subrange(0, i - 1) =~= s.subrange(1, i));
        assert(s.drop_first().skip(i - 1) =~= s.skip(i));
        assert(seq![s[0]] + (s.subrange(1, i) + tbl_insert(s.skip(i), e)) =~= s.subrange(0, i)
            + tbl_insert(s.skip(i), e));
    }
}

/// A table with no entry for `k` looks it up to nothing.
pub proof fn lemma_sget_none(s: Seq<(String, String)>, k: Seq<char>)
    requires
        forall|j: int| 0 <= j < s.len() ==> s[j].0@ != k,
    ensures
        sget(s, k) is None,
    decreases s.len(),
{
    if s.len() > 0 {
        lemma_sget_none(s.drop_first(), k);
    }
}

/// Lookup returns the value at the first position whose key matches.
pub proof fn lemma_sget_found(s: Seq<(String, String)>, k: Seq<char>, i: int)
    requires
        0 <= i < s.len(),
        s[i].0@ == k,
        forall|j: int| 0 <= j < i ==> s[j].0@ != k,
    ensures
        sget(s, k) == Some(s[i].1@),
    decreases i,
{
    if i > 0 {
        lemma_sget_found(s.drop_first(), k, i - 1);
    }
}

/// Position of the first key not strictly below `key`, in a sorted table.
fn find_insert_pos(table: &Vec<(String, String)>, key: &str) -> (i: usize)
    ensures
        i <= table@.len(),
        forall|j: int| 0 <= j < i ==> seq_lt(table@[j].0@, key@),
        i < table@.len() ==> !seq_lt(table@[i as int].0@, key@),
{
    let n = table.len();
    let mut i: usize = 0;
    while i < n
        invariant
            n == table@.len(),
            i <= n,
            forall|j: int| 0 <= j < i ==> seq_lt(table@[j].0@, key@),
        decreases n - i,
    {
        if !str_lt(table[i].0.as_str(), key) {
            return i;
        }
        i = i + 1;
    }
    i
}

/// Sorted insert-or-replace of one binding into a path table.
pub fn tbl_insert_entry(table: &mut Vec<(String, String)>, key: String, val: String)
    ensures
        final(table)@ == tbl_insert(old(table)@, (key, val)),
{
    let ghost s = table@;
    let ghost e = (key, val);
    let n = table.len();
    let i = find_insert_pos(table, key.as_str());
    proof {
        lemma_tbl_insert_skip(s, e, i as int);
    }
    if i < n {
        if str_eq(table[i].0.as_str(), key.as_str()) {
            table[i] = (key, val);
            proof {
                assert(s.skip(i as int)[0] == s[i as int]);
                assert(s.skip(i as int).drop_first() =~= s.skip(i as int + 1));
                assert(s.subrange(0, i as int) + (seq![e] + s.skip(i as int + 1)) =~= s.update(
                    i as int,
                    e,
                ));
            }
        } else {
            table.insert(i, (key, val));
            proof {
                assert(s.skip(i as int)[0] == s[i as int]);
                assert(!seq_lt(s[i as int].0@, e.0@));
                assert(s.subrange(0, i as int) + (seq![e] + s.skip(i as int)) =~= s.insert(
                    i as int,
                    e,
                ));
            }
        }
    } else {
        table.push((key, val));
        proof {
            assert(s.skip(s.len() as int).len() == 0);
            assert(s.subrange(0, s.len() as int) + seq![e] =~= s.push(e));
        }
    }
}

/// One scanned candidate, reduced to what the index needs: the
/// identifier read from the document, the short name computed from the
/// file name, and the absolute path.
#[derive(Debug)]
pub struct IndexEntry {
    pub identifier: String,
    pub shortname: String,
    pub path: String,
}

/// The two lookup tables of the recipe index.  A third table for
/// overrides is reserved by the file format but not populated here.
#[derive(Debug)]
pub struct RecipeIndex {
    pub identifiers: Vec<(String, String)>,
    pub shortnames: Vec<(String, String)>,
}

/// Both index tables are strictly sorted by key.
pub open spec fn index_wf(idx: RecipeIndex) -> bool {
    tbl_sorted(idx.identifiers@) && tbl_sorted(idx.shortnames@)
}

/// First binding of `k` in a table of plain character sequences.
pub open spec fn vget(s: Seq<(Seq<char>, Seq<char>)>, k: Seq<char>) -> Option<Seq<char>>
    decreases s.len(),
{
    if s.len() == 0 {
        None
    } else if s[0].0 == k {
        Some(s[0].1)
    } else {
        vget(s.drop_first(), k)
    }
}

/// Strict key sortedness of a table of plain character sequences.
pub open spec fn tbl_sorted_v(s: Seq<(Seq<char>, Seq<char>)>) -> bool {
    forall|i: int| 0 <= i && i + 1 < s.len() ==> #[trigger] seq_lt(s[i].0, s[i + 1].0)
}

/// Sorted insert-or-replace on a table of plain character sequences.
pub open spec fn tbl_insert_v(s: Seq<(Seq<char>, Seq<char>)>, e: (Seq<char>, Seq<char>)) -> Seq<
    (Seq<char>, Seq<char>),
>
    decreases s.len(),
{
    if s.len() == 0 {
        seq![e]
    } else if seq_lt(s[0].0, e.0) {
        seq![s[0]] + tbl_insert_v(s.drop_first(), e)
    } else if s[0].0 == e.0 {
        seq![e] + s.drop_first()
    } else {
        seq![e] + s
    }
}

/// The view of an insert is the insert of the views.
pub proof fn lemma_tbl_view_insert(s: Seq<(String, String)>, e: (String, String))
    ensures
        tbl_view(tbl_insert(s, e)) == tbl_insert_v(tbl_view(s), (e.0@, e.1@)),
    decreases s.len(),
{
    if s.len() == 0 {
        assert(tbl_view(seq![e]) =~= seq![(e.0@, e.1@)]);
    } else if seq_lt(s[0].0@, e.0@) {
        lemma_tbl_view_insert(s.drop_first(), e);
        assert(tbl_view(s).drop_first() =~= tbl_view(s.drop_first()));
        assert(tbl_view(seq![s[0]] + tbl_insert(s.drop_first(), e)) =~= seq![(s[0].0@, s[0].1@)]
            + tbl_view(tbl_insert(s.drop_first(), e)));
    } else if s[0].0@ == e.0@ {
        assert(tbl_view(seq![e] + s.drop_first()) =~= seq![(e.0@, e.1@)] + tbl_view(
            s.drop_first(),
        ));
        assert(tbl_view(s).drop_first() =~= tbl_view(s.drop_first()));
    } else {
        assert(tbl_view(seq![e] + s) =~= seq![(e.0@, e.1@)] + tbl_view(s));
    }
}

/// Lookup agrees across the view.
pub proof fn lemma_tbl_view_get(s: Seq<(String, String)>, k: Seq<char>)
    ensures
        vget(tbl_view(s), k) == sget(s, k),
    decreases s.len(),
{
    if s.len() > 0 {
        lemma_tbl_view_get(s.drop_first(), k);
        assert(tbl_view(s).drop_first() =~= tbl_view(s.drop_first()));
    }
}

/// Sortedness agrees across the view.
pub proof fn lemma_tbl_view_sorted(s: Seq<(String, String)>)
    ensures
        tbl_sorted_v(tbl_view(s)) == tbl_sorted(s),
{
    if tbl_sorted(s) {
        assert forall|i: int| 0 <= i && i + 1 < tbl_view(s).len() implies #[trigger] seq_lt(
            tbl_view(s)[i].0,
            tbl_view(s)[i + 1].0,
        ) by {
            assert(seq_lt(s[i].0@, s[i + 1].0@));
        }
    }
    if tbl_sorted_v(tbl_view(s)) {
        assert forall|i: int| 0 <= i && i + 1 < s.len() implies #[trigger] seq_lt(
            s[i].0@,
            s[i + 1].0@,
        ) by {
            assert(seq_lt(tbl_view(s)[i].0, tbl_view(s)[i + 1].0));
        }
    }
}

/// After an insert, the inserted key is bound to the new value.
pub proof fn lemma_tbl_insert_v_get_same(s: Seq<(Seq<char>, Seq<char>)>, e: (Seq<char>, Seq<char>))
    ensures
        vget(tbl_insert_v(s, e), e.0) == Some(e.1),
    decreases s.len(),
{
    if s.len() == 0 {
    } else if seq_lt(s[0].0, e.0) {
        lemma_seq_lt_irrefl(s[0].0);
        assert(s[0].0 != e.0) by {
            if s[0].0 == e.0 {
                assert(seq_lt(s[0].0, s[0].0));
            }
        }
        lemma_tbl_insert_v_get_same(s.drop_first(), e);
        assert((seq![s[0]] + tbl_insert_v(s.drop_first(), e)).drop_first() =~= tbl_insert_v(
            s.drop_first(),
            e,
        ));
    }
}

/// An insert leaves every other key's binding unchanged.
pub proof fn lemma_tbl_insert_v_get_other(
    s: Seq<(Seq<char>, Seq<char>)>,
    e: (Seq<char>, Seq<char>),
    k: Seq<char>,
)
    requires
        k != e.0,
    ensures
        vget(tbl_insert_v(s, e), k) == vget(s, k),
    decreases s.len(),
{
    if s.len() == 0 {
        assert(seq![e].drop_first() =~= Seq::<(Seq<char>, Seq<char>)>::empty());
        assert(vget(Seq::<(Seq<char>, Seq<char>)>::empty(), k) is None);
    } else if seq_lt(s[0].0, e.0) {
        lemma_tbl_insert_v_get_other(s.drop_first(), e, k);
        assert((seq![s[0]] + tbl_insert_v(s.drop_first(), e)).drop_first() =~= tbl_insert_v(
            s.drop_first(),
            e,
        ));
    } else if s[0].0 == e.0 {
        assert((seq![e] + s.drop_first()).drop_first() =~= s.drop_first());
    } else {
        assert((seq![e] + s).drop_first() =~= s);
    }
}

/// First binding of `key` in a path table, as an owned copy.
pub fn tbl_lookup(table: &Vec<(String, String)>, key: &str) -> (r: Option<String>)
    ensures
        match r {
            Some(p) => sget(table@, key@) == Some(p@),
            None => sget(table@, key@) is None,
        },
{
    let n = table.len();
    let mut i: usize = 0;
    while i < n
        invariant
            n == table@.len(),
            i <= n,
            forall|j: int| 0 <= j < i ==> table@[j].0@ != key@,
        decreases n - i,
    {
        if str_eq(table[i].0.as_str(), key) {
            proof {
                lemma_sget_found(table@, key@, i as int);
            }
            return Some(table[i].1.clone());
        }
        i = i + 1;
    }
    proof {
        lemma_sget_none(table@, key@);
    }
    None
}

/// Looks a requested name up in the index: first among identifiers, then,
/// if absent there, among short names.
pub fn find_recipe_in_map(map: &RecipeIndex, recipe: &str) -> (r: Option<String>)
    ensures
        sget(map.identifiers@, recipe@) matches Some(v) ==> (r matches Some(p) && p@ == v),
        (sget(map.identifiers@, recipe@) is None && sget(map.shortnames@, recipe@) is Some) ==> (r
            matches Some(p) && Some(p@) == sget(map.shortnames@, recipe@)),
        sget(map.identifiers@, recipe@) is None && sget(map.shortnames@, recipe@) is None ==> r
            is None,
{
    match tbl_lookup(&map.identifiers, recipe) {
        Some(p) => Some(p),
        None => tbl_lookup(&map.shortnames, recipe),
    }
}

/// Looks an identifier up in the identifier table alone, as ancestor
/// resolution does; an absent identifier is a recoverable error naming it.
pub fn get_recipe_path_by_identifier(identifier: &str, map: &RecipeIndex) -> (r: Result<
    String,
    RecipeError,
>)
    ensures
        sget(map.identifiers@, identifier@) matches Some(v) ==> (r matches Ok(p) && p@ == v),
        sget(map.identifiers@, identifier@) is None ==> (r matches Err(e)
            && e matches RecipeError::RecipeNotFound(s) && s@ == identifier@),
{
    match tbl_lookup(&map.identifiers, identifier) {
        Some(p) => Ok(p),
        None => Err(RecipeError::RecipeNotFound(String::from_str(identifier))),
    }
}

/// Whether a path table is strictly sorted; used when reading an index
/// document back from disk.
pub fn check_tbl_sorted(table: &Vec<(String, String)>) -> (r: bool)
    ensures
        r == tbl_sorted(table@),
{
    let n = table.len();
    if n == 0 {
        return true;
    }
    let mut i: usize = 0;
    while i + 1 < n
        invariant
            n == table@.len(),
            i < n,
            forall|j: int|
                0 <= j && j + 1 < i + 1 ==> #[trigger] seq_lt(table@[j].0@, table@[j + 1].0@),
        decreases n - i,
    {
        if !str_lt(table[i].0.as_str(), table[i + 1].0.as_str()) {
            return false;
        }
        i = i + 1;
    }
    true
}

/// The serialized form of an index document with the given two tables,
/// exactly as the JSON emitter renders it.
pub uninterp spec fn index_json_of(
    identifiers: Seq<(Seq<char>, Seq<char>)>,
    shortnames: Seq<(Seq<char>, Seq<char>)>,
) -> Seq<char>;

/// Relies on serde_json::to_string_pretty over BTreeMaps of strings: the
/// output is a pure function of the labels and tables handed in, and
/// serializing string maps cannot fail, so the unwrap cannot panic.
/// The requires keeps the table-to-map conversion one-for-one: strictly
/// sorted keys are unique and already in map order.
#[verifier::external_body]
fn tables_to_json(
    label_ids: &str,
    identifiers: &Vec<(String, String)>,
    label_shorts: &str,
    shortnames: &Vec<(String, String)>,
) -> (r: String)
    requires
        tbl_sorted(identifiers@),
        tbl_sorted(shortnames@),
        label_ids@ == "identifiers"@,
        label_shorts@ == "shortnames"@,
    ensures
        r@ == index_json_of(tbl_view(identifiers@), tbl_view(shortnames@)),
{
    let ids: std::collections::BTreeMap<String, String> = identifiers.iter().cloned().collect();
    let shorts: std::collections::BTreeMap<String, String> = shortnames.iter().cloned().collect();
    let mut doc: std::collections::BTreeMap<&str, std::collections::BTreeMap<String, String>> =
        std::collections::BTreeMap::new();
    doc.insert(label_ids, ids);
    doc.insert(label_shorts, shorts);
    serde_json::to_string_pretty(&doc).unwrap()
}

/// Serializes the index as one document with the tables under the keys
/// `identifiers` and `shortnames`, keys sorted, for reproducible output.
pub fn serialize_recipe_map(map: &RecipeIndex) -> (r: String)
    requires
        index_wf(*map),
    ensures
        r@ == index_json_of(tbl_view(map.identifiers@), tbl_view(map.shortnames@)),
{
    tables_to_json("identifiers", &map.identifiers, "shortnames", &map.shortnames)
}

/// The tables of an index document: what the JSON decoder yields for
/// the text, table names paired with string tables in the decoded
/// map's key order, or nothing when the text is not such a document.
pub uninterp spec fn index_tables_of(text: Seq<char>) -> Option<
    Seq<(Seq<char>, Seq<(Seq<char>, Seq<char>)>)>,
>;

/// The contents of a decoded table list as plain character sequences.
pub open spec fn tables_view(v: Seq<(String, Vec<(String, String)>)>) -> Seq<
    (Seq<char>, Seq<(Seq<char>, Seq<char>)>),
> {
    Seq::new(v.len(), |i: int| (v[i].0@, tbl_view(v[i].1@)))
}

/// First table under `name` in a decoded table list.
pub open spec fn tables_get(
    ts: Seq<(Seq<char>, Seq<(Seq<char>, Seq<char>)>)>,
    name: Seq<char>,
) -> Option<Seq<(Seq<char>, Seq<char>)>>
    decreases ts.len(),
{
    if ts.len() == 0 {
        None
    } else if ts[0].0 == name {
        Some(ts[0].1)
    } else {
        tables_get(ts.drop_first(), name)
    }
}

/// A list with no table under `name` looks it up to nothing.
proof fn lemma_tables_get_none(ts: Seq<(Seq<char>, Seq<(Seq<char>, Seq<char>)>)>, name: Seq<char>)
    requires
        forall|j: int| 0 <= j < ts.len() ==> ts[j].0 != name,
    ensures
        tables_get(ts, name) is None,
    decreases ts.len(),
{
    if ts.len() > 0 {
        lemma_tables_get_none(ts.drop_first(), name);
    }
}

/// Lookup returns the table at the first position whose name matches.
proof fn lemma_tables_get_found(
    ts: Seq<(Seq<char>, Seq<(Seq<char>, Seq<char>)>)>,
    name: Seq<char>,
    i: int,
)
    requires
        0 <= i < ts.len(),
        ts[i].0 == name,
        forall|j: int| 0 <= j < i ==> ts[j].0 != name,
    ensures
        tables_get(ts, name) == Some(ts[i].1),
    decreases i,
{
    if i > 0 {
        lemma_tables_get_found(ts.drop_first(), name, i - 1);
    }
}

/// Relies on serde_json::from_str for a map of maps of strings,
/// deterministic in the text; hands the parsed tables back as plain
/// pairs, in the decoded map's key order, or nothing when the text is
/// not such a document.
#[verifier::external_body]
fn json_to_tables(s: &str) -> (r: Option<Vec<(String, Vec<(String, String)>)>>)
    ensures
        r is Some <==> index_tables_of(s@) is Some,
        r matches Some(v) ==> tables_view(v@) == index_tables_of(s@).unwrap(),
{
    let parsed: std::collections::BTreeMap<
        String,
        std::collections::BTreeMap<String, String>,
    > = match serde_json::from_str(s) {
        Ok(m) => m,
        Err(_) => return None,
    };
    Some(parsed.into_iter().map(|(k, t)| (k, t.into_iter().collect())).collect())
}

/// The serialized text holds a usable index document: it decodes to a
/// table map whose `identifiers` and `shortnames` tables exist and
/// have strictly sorted keys.
pub open spec fn index_doc_ok(text: Seq<char>) -> bool {
    &&& index_tables_of(text) is Some
    &&& tables_get(index_tables_of(text).unwrap(), "identifiers"@) is Some
    &&& tables_get(index_tables_of(text).unwrap(), "shortnames"@) is Some
    &&& tbl_sorted_v(tables_get(index_tables_of(text).unwrap(), "identifiers"@).unwrap())
    &&& tbl_sorted_v(tables_get(index_tables_of(text).unwrap(), "shortnames"@).unwrap())
}

/// Reads an index document back from its serialized text: exactly the
/// texts that decode to a table map with sorted `identifiers` and
/// `shortnames` tables are accepted, and the result's tables are those
/// two; anything else is an index I/O error.
pub fn read_recipe_map(json: &str) -> (r: Result<RecipeIndex, RecipeError>)
    ensures
        r is Ok <==> index_doc_ok(json@),
        r matches Ok(idx) ==> tbl_view(idx.identifiers@) == tables_get(
            index_tables_of(json@).unwrap(),
            "identifiers"@,
        ).unwrap() && tbl_view(idx.shortnames@) == tables_get(
            index_tables_of(json@).unwrap(),
            "shortnames"@,
        ).unwrap() && index_wf(idx),
        r matches Err(e) ==> e is IndexIoError,
{
    let tables = match json_to_tables(json) {
        Some(t) => t,
        None => {
            return Err(
                RecipeError::IndexIoError(String::from_str("the index text is not an index document")),
            );
        },
    };
    let ghost tv = index_tables_of(json@).unwrap();
    let mut identifiers: Option<Vec<(String, String)>> = None;
    let mut shortnames: Option<Vec<(String, String)>> = None;
    let n = tables.len();
    let mut i: usize = 0;
    while i < n
        invariant
            n == tables@.len(),
            i <= n,
            index_tables_of(json@) is Some,
            tv == index_tables_of(json@).unwrap(),
            tv == tables_view(tables@),
            identifiers is None ==> forall|j: int| 0 <= j < i ==> tv[j].0 != "identifiers"@,
            identifiers matches Some(t) ==> tables_get(tv, "identifiers"@) == Some(tbl_view(t@)),
            shortnames is None ==> forall|j: int| 0 <= j < i ==> tv[j].0 != "shortnames"@,
            shortnames matches Some(t) ==> tables_get(tv, "shortnames"@) == Some(tbl_view(t@)),
        decreases n - i,
    {
        // Examining the name decides which table this is; a reserved or
        // unknown table name is carried along and ignored.
        let name_is_ids = str_eq(tables[i].0.as_str(), "identifiers");
        let name_is_shorts = str_eq(tables[i].0.as_str(), "shortnames");
        proof {
            reveal_strlit("identifiers");
            reveal_strlit("shortnames");
            assert(tv[i as int].0 == tables@[i as int].0@);
            assert(tv[i as int].1 == tbl_view(tables@[i as int].1@));
        }
        if name_is_ids && identifiers.is_none() {
            let mut t: Vec<(String, String)> = Vec::new();
            copy_table(&tables[i].1, &mut t);
            proof {
                lemma_tables_get_found(tv, "identifiers"@, i as int);
                assert(tbl_view(t@) =~= tbl_view(tables@[i as int].1@));
            }
            identifiers = Some(t);
        } else if name_is_shorts && shortnames.is_none() {
            let mut t: Vec<(String, String)> = Vec::new();
            copy_table(&tables[i].1, &mut t);
            proof {
                lemma_tables_get_found(tv, "shortnames"@, i as int);
                assert(tbl_view(t@) =~= tbl_view(tables@[i as int].1@));
            }
            shortnames = Some(t);
        }
        i = i + 1;
    }
    let identifiers = match identifiers {
        Some(t) => t,
        None => {
            proof {
                lemma_tables_get_none(tv, "identifiers"@);
            }
            return Err(
                RecipeError::IndexIoError(String::from_str("the index document lacks identifiers")),
            );
        },
    };
    let shortnames = match shortnames {
        Some(t) => t,
        None => {
            proof {
                lemma_tables_get_none(tv, "shortnames"@);
            }
            return Err(
                RecipeError::IndexIoError(String::from_str("the index document lacks shortnames")),
            );
        },
    };
    proof {
        lemma_tbl_view_sorted(identifiers@);
        lemma_tbl_view_sorted(shortnames@);
    }
    if !check_tbl_sorted(&identifiers) || !check_tbl_sorted(&shortnames) {
        return Err(RecipeError::IndexIoError(String::from_str("the index tables are not sorted")));
    }
    Ok(RecipeIndex { identifiers, shortnames })
}

/// Copies a path table entry by entry.
fn copy_table(src: &Vec<(String, String)>, dst: &mut Vec<(String, String)>)
    requires
        old(dst)@.len() == 0,
    ensures
        final(dst)@.len() == src@.len(),
        forall|j: int|
            0 <= j < src@.len() ==> (#[trigger] final(dst)@[j]).0@ == src@[j].0@
                && final(dst)@[j].1@ == src@[j].1@,
{
    let n = src.len();
    let mut i: usize = 0;
    while i < n
        invariant
            n == src@.len(),
            i <= n,
            dst@.len() == i,
            forall|j: int|
                0 <= j < i ==> (#[trigger] dst@[j]).0@ == src@[j].0@ && dst@[j].1@ == src@[j].1@,
        decreases n - i,
    {
        dst.push((src[i].0.clone(), src[i].1.clone()));
        i = i + 1;
    }
}

/// Greatest position of `c` in `s`, or `-1` when absent.
pub open spec fn last_pos(s: Seq<char>, c: char) -> int
    decreases s.len(),
{
    if s.len() == 0 {
        -1
    } else if s[s.len() - 1] == c {
        s.len() - 1
    } else {
        last_pos(s.drop_last(), c)
    }
}

/// The last position is in range and carries the character.
pub proof fn lemma_last_pos_bounds(s: Seq<char>, c: char)
    ensures
        -1 <= last_pos(s, c) < s.len(),
        last_pos(s, c) >= 0 ==> s[last_pos(s, c)] == c,
    decreases s.len(),
{
    if s.len() > 0 && s[s.len() - 1] != c {
        lemma_last_pos_bounds(s.drop_last(), c);
    }
}

/// A position carrying `c` with none after it is the last position.
pub proof fn lemma_last_pos_at(s: Seq<char>, c: char, p: int)
    requires
        0 <= p < s.len(),
        s[p] == c,
        forall|j: int| p < j < s.len() ==> s[j] != c,
    ensures
        last_pos(s, c) == p,
    decreases s.len(),
{
    if p < s.len() - 1 {
        lemma_last_pos_at(s.drop_last(), c, p);
    }
}

/// Without `c` anywhere, the last position is `-1`.
pub proof fn lemma_last_pos_absent(s: Seq<char>, c: char)
    requires
        forall|j: int| 0 <= j < s.len() ==> s[j] != c,
    ensures
        last_pos(s, c) == -1,
    decreases s.len(),
{
    if s.len() > 0 {
        lemma_last_pos_absent(s.drop_last(), c);
    }
}

/// The short name of a recipe file path: the final path component with
/// its last extension removed.  Only the trailing extension is stripped,
/// internal dots stay; a dot leading the file name is no extension mark.
pub open spec fn short_name_of(p: Seq<char>) -> Seq<char> {
    let b = p.skip(last_pos(p, '/') + 1);
    let d = last_pos(b, '.');
    if d <= 0 {
        b
    } else {
        b.take(d)
    }
}

/// Computes a recipe file's short name from its path.
pub fn calculate_short_name(path: &str) -> (r: String)
    ensures
        r@ == short_name_of(path@),
{
    let n = path.unicode_len();
    let mut start: usize = 0;
    let mut i: usize = 0;
    while i < n
        invariant
            n == path@.len(),
            i <= n,
            start <= i,
            start == 0 ==> forall|j: int| 0 <= j < i ==> path@[j] != '/',
            start > 0 ==> path@[start - 1] == '/' && forall|j: int|
                start <= j < i ==> path@[j] != '/',
        decreases n - i,
    {
        if path.get_char(i) == '/' {
            start = i + 1;
        }
        i = i + 1;
    }
    proof {
        if start == 0 {
            lemma_last_pos_absent(path@, '/');
        } else {
            lemma_last_pos_at(path@, '/', start - 1);
        }
        assert(last_pos(path@, '/') + 1 == start);
    }
    let ghost b = path@.skip(start as int);
    let mut dot: usize = start;
    let mut k: usize = start;
    while k < n
        invariant
            n == path@.len(),
            start <= k,
            k <= n,
            start <= dot,
            dot == start ==> forall|j: int| start < j < k ==> path@[j] != '.',
            dot > start ==> dot < k && path@[dot as int] == '.' && forall|j: int|
                dot < j < k ==> path@[j] != '.',
        decreases n - k,
    {
        if k > start && path.get_char(k) == '.' {
            dot = k;
        }
        k = k + 1;
    }
    proof {
        assert(b.len() == n - start);
        assert forall|m: int| 0 <= m < b.len() implies b[m] == path@[start + m] by {}
    }
    if dot == start {
        proof {
            lemma_last_pos_bounds(b, '.');
            let d = last_pos(b, '.');
            if d >= 1 {
                assert(b[d] == path@[start + d]);
                assert(false);
            }
            assert(b =~= path@.subrange(start as int, n as int));
        }
        String::from_str(path.substring_char(start, n))
    } else {
        proof {
            let d0 = dot - start;
            assert(b[d0 as int] == path@[dot as int]);
            assert forall|m: int| d0 < m < b.len() implies b[m] != '.' by {
                assert(b[m] == path@[start + m]);
            }
            lemma_last_pos_at(b, '.', d0 as int);
            assert(b.take(d0 as int) =~= path@.subrange(start as int, dot as int));
        }
        String::from_str(path.substring_char(start, dot))
    }
}

/// Whether a scanned entry's name marks a recipe candidate: it ends in
/// the literal suffix `.recipe`.  An entry is judged by its name alone;
/// a directory so named counts as a candidate too.
pub fn is_recipe_file(name: &str) -> (r: bool)
    ensures
        r == (name@.len() >= ".recipe"@.len() && name@.skip(name@.len() - ".recipe"@.len())
            == ".recipe"@),
{
    str_ends_with(name, ".recipe")
}

/// Whether a scanned entry's name begins a version-control subtree that
/// the tree walk prunes.
pub fn is_git_folder(name: &str) -> (r: bool)
    ensures
        r == (name@.len() >= ".git"@.len() && name@.take(".git"@.len() as int) == ".git"@),
{
    str_starts_with(name, ".git")
}

/// One candidate file from the directory scan: its absolute path and
/// raw contents.  The caller walks the configured directories and hands
/// the candidates over in scan order.
#[derive(Debug)]
pub struct ScanEntry {
    pub path: String,
    pub data: Vec<u8>,
}

/// The untyped tree a candidate's bytes decode to: the property-list
/// route first, else the YAML route.
pub open spec fn candidate_doc(data: Seq<u8>) -> Option<DocValue> {
    if crate::parse::plist_doc_of(data) is Some {
        crate::parse::plist_doc_of(data)
    } else {
        crate::parse::yaml_doc_of(data)
    }
}

/// The identifier string a candidate's document binds, if any.
pub open spec fn candidate_ident(data: Seq<u8>) -> Option<Seq<char>> {
    match candidate_doc(data) {
        Some(doc) => string_key_of(doc, "Identifier"@),
        None => None,
    }
}

/// Reduces one candidate to an index entry: the document is parsed by
/// trial and only the string under `Identifier` is read from it, so a
/// document with unrelated malformed fields still yields an entry.
/// Exactly the candidates whose document binds an identifier string
/// yield one.
pub fn scan_candidate(path: &str, data: &[u8]) -> (r: Option<IndexEntry>)
    ensures
        r is Some <==> candidate_ident(data@) is Some,
        r matches Some(e) ==> candidate_ident(data@) == Some(e.identifier@) && e.shortname@
            == short_name_of(path@) && e.path@ == path@,
{
    let doc = match crate::parse::parse_plist_doc(data) {
        Some(d) => Some(d),
        None => crate::parse::parse_yaml_doc(data),
    };
    let doc = match doc {
        Some(d) => d,
        None => {
            return None;
        },
    };
    let identifier = match crate::values::get_string_key_from_recipe_value(&doc, "Identifier") {
        Some(s) => s,
        None => {
            return None;
        },
    };
    let shortname = calculate_short_name(path);
    Some(IndexEntry { identifier, shortname, path: String::from_str(path) })
}

/// The identifier table the scan denotes: candidates folded in order,
/// one insert per candidate whose document binds an identifier; the
/// others contribute nothing.
pub open spec fn ids_from_candidates(cs: Seq<ScanEntry>) -> Seq<(Seq<char>, Seq<char>)>
    decreases cs.len(),
{
    if cs.len() == 0 {
        Seq::empty()
    } else {
        let prev = ids_from_candidates(cs.drop_last());
        match candidate_ident(cs.last().data@) {
            Some(id) => tbl_insert_v(prev, (id, cs.last().path@)),
            None => prev,
        }
    }
}

/// The short-name table the scan denotes, likewise.
pub open spec fn shorts_from_candidates(cs: Seq<ScanEntry>) -> Seq<(Seq<char>, Seq<char>)>
    decreases cs.len(),
{
    if cs.len() == 0 {
        Seq::empty()
    } else {
        let prev = shorts_from_candidates(cs.drop_last());
        match candidate_ident(cs.last().data@) {
            Some(id) => tbl_insert_v(prev, (short_name_of(cs.last().path@), cs.last().path@)),
            None => prev,
        }
    }
}

/// Builds the recipe index over the scanned candidates, in scan order:
/// search directories first, then the repository directory.  The tables
/// are exactly the candidate folds: every candidate whose document
/// binds an identifier is indexed under that identifier and its short
/// name, later candidates overwrite earlier ones under an equal key,
/// and a candidate that binds none is skipped without failing the
/// build.
pub fn build_recipe_map(candidates: &Vec<ScanEntry>) -> (r: RecipeIndex)
    ensures
        tbl_view(r.identifiers@) == ids_from_candidates(candidates@),
        tbl_view(r.shortnames@) == shorts_from_candidates(candidates@),
        index_wf(r),
{
    let n = candidates.len();
    let mut identifiers: Vec<(String, String)> = Vec::new();
    let mut shortnames: Vec<(String, String)> = Vec::new();
    let mut i: usize = 0;
    proof {
        assert(candidates@.take(0) =~= Seq::<ScanEntry>::empty());
        assert(tbl_view(identifiers@) =~= Seq::<(Seq<char>, Seq<char>)>::empty());
        assert(tbl_view(shortnames@) =~= Seq::<(Seq<char>, Seq<char>)>::empty());
    }
    while i < n
        invariant
            n == candidates@.len(),
            i <= n,
            tbl_sorted(identifiers@),
            tbl_sorted(shortnames@),
            tbl_view(identifiers@) == ids_from_candidates(candidates@.take(i as int)),
            tbl_view(shortnames@) == shorts_from_candidates(candidates@.take(i as int)),
        decreases n - i,
    {
        let ghost pre_ids = identifiers@;
        let ghost pre_shorts = shortnames@;
        match scan_candidate(candidates[i].path.as_str(), candidates[i].data.as_slice()) {
            Some(e) => {
                let IndexEntry { identifier, shortname, path } = e;
                let ghost gid = identifier;
                let ghost gshort = shortname;
                let ghost gpath = path;
                tbl_insert_entry(&mut identifiers, identifier, path.clone());
                tbl_insert_entry(&mut shortnames, shortname, path);
                proof {
                    lemma_tbl_insert_sorted(pre_ids, (gid, gpath));
                    lemma_tbl_insert_sorted(pre_shorts, (gshort, gpath));
                    lemma_tbl_view_insert(pre_ids, (gid, gpath));
                    lemma_tbl_view_insert(pre_shorts, (gshort, gpath));
                }
            },
            None => {},
        }
        proof {
            assert(candidates@.take(i as int + 1).drop_last() =~= candidates@.take(i as int));
            assert(candidates@.take(i as int + 1).last() == candidates@[i as int]);
        }
        i = i + 1;
    }
    proof {
        assert(candidates@.take(n as int) =~= candidates@);
    }
    RecipeIndex { identifiers, shortnames }
}

/// The path recorded for identifier `k` after a scan, if any: the path
/// of the last candidate whose document binds `k`.
pub open spec fn last_candidate_path_for(cs: Seq<ScanEntry>, k: Seq<char>) -> Option<Seq<char>>
    decreases cs.len(),
{
    if cs.len() == 0 {
        None
    } else if candidate_ident(cs.last().data@) == Some(k) {
        Some(cs.last().path@)
    } else {
        last_candidate_path_for(cs.drop_last(), k)
    }
}

/// The collision policy, as a law: looking any identifier up in the
/// built index yields the path of the last scanned candidate that
/// carried it, so when two search directories hold a recipe with one
/// identifier, the directory scanned last decides.
pub proof fn lemma_index_last_writer_wins(cs: Seq<ScanEntry>, k: Seq<char>)
    ensures
        vget(ids_from_candidates(cs), k) == last_candidate_path_for(cs, k),
    decreases cs.len(),
{
    if cs.len() > 0 {
        match candidate_ident(cs.last().data@) {
            Some(id) => {
                if id == k {
                    lemma_tbl_insert_v_get_same(
                        ids_from_candidates(cs.drop_last()),
                        (id, cs.last().path@),
                    );
                } else {
                    lemma_tbl_insert_v_get_other(
                        ids_from_candidates(cs.drop_last()),
                        (id, cs.last().path@),
                        k,
                    );
                    lemma_index_last_writer_wins(cs.drop_last(), k);
                }
            },
            None => {
                lemma_index_last_writer_wins(cs.drop_last(), k);
            },
        }
    }
}

/// Idempotence, as a law: any two indexes the builder may return for
/// one unchanged scan serialize to the very same text, byte for byte.
pub proof fn lemma_index_build_idempotent(cs: Seq<ScanEntry>, a: RecipeIndex, b: RecipeIndex)
    requires
        tbl_view(a.identifiers@) == ids_from_candidates(cs),
        tbl_view(a.shortnames@) == shorts_from_candidates(cs),
        tbl_view(b.identifiers@) == ids_from_candidates(cs),
        tbl_view(b.shortnames@) == shorts_from_candidates(cs),
    ensures
        index_json_of(tbl_view(a.identifiers@), tbl_view(a.shortnames@)) == index_json_of(
            tbl_view(b.identifiers@),
            tbl_view(b.shortnames@),
        ),
{
}

} // verus!
