//! The typed value model of recipe documents.
//!
//! A recipe document can hold only a closed set of value shapes,
//! [`PlistDataType`].  Parsers first produce an untyped tree,
//! [`DocValue`], which mirrors what a property-list or YAML decoder hands
//! back; verified code then narrows that tree into the closed shapes,
//! treating anything else as a structural error.
//!
//! Recipe `input` tables are association lists from names to values.  This
//! module defines their specification-level lookup and insert-or-replace
//! operations and the lemmas the merge rules are proved from.

use vstd::prelude::*;

use crate::order::str_eq;

verus! {

/// The closed set of value shapes a recipe document may hold.
/// A document field that matches none of these variants is a parse error.
#[derive(Debug, PartialEq, Eq)]
pub enum PlistDataType {
    ArrayOfDicts(Vec<Vec<(String, String)>>),
    ArrayOfStrs(Vec<String>),
    Bool(bool),
    DictOfDicts(Vec<(String, PlistDataType)>),
    DictOfStrs(Vec<(String, String)>),
    Str(String),
}

/// An untyped document tree, as a decoder hands it back.
///
/// Scalars outside the recipe value space (numbers, dates, binary data,
/// null) all collapse to `Other`; they can never become part of a valid
/// recipe value, but their presence must not be confused with a decode
/// failure of the whole file.
#[derive(Debug, PartialEq, Eq)]
pub enum DocValue {
    Bool(bool),
    Str(String),
    Arr(Vec<DocValue>),
    Dict(Vec<(DocValue, DocValue)>),
    Other,
}

/// First value bound to key `k` in an input table, comparing keys by
/// contents.
pub open spec fn pget<V>(s: Seq<(String, V)>, k: Seq<char>) -> Option<V>
    decreases s.len(),
{
    if s.len() == 0 {
        None
    } else if s[0].0@ == k {
        Some(s[0].1)
    } else {
        pget(s.drop_first(), k)
    }
}

/// Whether an input table binds key `k`.
pub open spec fn has_key<V>(s: Seq<(String, V)>, k: Seq<char>) -> bool {
    pget(s, k) is Some
}

/// All keys of an input table are distinct by contents.
pub open spec fn keys_unique<V>(s: Seq<(String, V)>) -> bool {
    forall|i: int, j: int| 0 <= i < j < s.len() ==> s[i].0@ != s[j].0@
}

/// Insert-or-replace: a bound key keeps its position and takes the new
/// value; an unbound key is appended at the end.
pub open spec fn upsert<V>(s: Seq<(String, V)>, e: (String, V)) -> Seq<(String, V)>
    decreases s.len(),
{
    if s.len() == 0 {
        seq![e]
    } else if s[0].0@ == e.0@ {
        seq![e] + s.drop_first()
    } else {
        seq![s[0]] + upsert(s.drop_first(), e)
    }
}

/// After an insert-or-replace, the inserted key is bound to the new value.
pub proof fn lemma_upsert_get_same<V>(s: Seq<(String, V)>, e: (String, V))
    ensures
        pget(upsert(s, e), e.0@) == Some(e.1),
    decreases s.len(),
{
    if s.len() != 0 && s[0].0@ != e.0@ {
        lemma_upsert_get_same(s.drop_first(), e);
        assert((seq![s[0]] + upsert(s.drop_first(), e)).drop_first() =~= upsert(
            s.drop_first(),
            e,
        ));
    }
}

/// An insert-or-replace leaves every other key's binding unchanged.
pub proof fn lemma_upsert_get_other<V>(s: Seq<(String, V)>, e: (String, V), k: Seq<char>)
    requires
        k != e.0@,
    ensures
        pget(upsert(s, e), k) == pget(s, k),
    decreases s.len(),
{
    if s.len() == 0 {
        assert(seq![e].drop_first() =~= Seq::<(String, V)>::empty());
        assert(pget(Seq::<(String, V)>::empty(), k) is None);
    } else if s[0].0@ == e.0@ {
        assert((seq![e] + s.drop_first()).drop_first() =~= s.drop_first());
    } else {
        lemma_upsert_get_other(s.drop_first(), e, k);
        assert((seq![s[0]] + upsert(s.drop_first(), e)).drop_first() =~= upsert(
            s.drop_first(),
            e,
        ));
    }
}

/// Insert-or-replace preserves key uniqueness.
pub proof fn lemma_upsert_keys_unique<V>(s: Seq<(String, V)>, e: (String, V))
    requires
        keys_unique(s),
    ensures
        keys_unique(upsert(s, e)),
    decreases s.len(),
{
    if s.len() == 0 {
    } else if s[0].0@ == e.0@ {
        let r = seq![e] + s.drop_first();
        assert forall|i: int, j: int| 0 <= i < j < r.len() implies r[i].0@ != r[j].0@ by {
            assert(r[j] == s[j]);
            if i > 0 {
                assert(r[i] == s[i]);
            }
        }
    } else {
        lemma_upsert_keys_unique(s.drop_first(), e);
        lemma_upsert_absent_key(s.drop_first(), e);
        let t = upsert(s.drop_first(), e);
        let r = seq![s[0]] + t;
        assert forall|i: int, j: int| 0 <= i < j < r.len() implies r[i].0@ != r[j].0@ by {
            assert(r[j] == t[j - 1]);
            if i > 0 {
                assert(r[i] == t[i - 1]);
            }
        }
    }
}

/// Every key of an insert-or-replace result is either the inserted key or
/// a key of the original table.
pub proof fn lemma_upsert_absent_key<V>(s: Seq<(String, V)>, e: (String, V))
    ensures
        forall|i: int|
            0 <= i < upsert(s, e).len() ==> upsert(s, e)[i].0@ == e.0@ || (exists|j: int|
                0 <= j < s.len() && upsert(s, e)[i].0@ == s[j].0@),
    decreases s.len(),
{
    if s.len() == 0 {
    } else if s[0].0@ == e.0@ {
        let r = seq![e] + s.drop_first();
        assert forall|i: int|
            0 <= i < r.len() implies r[i].0@ == e.0@ || (exists|j: int|
            0 <= j < s.len() && r[i].0@ == s[j].0@) by {
            if i > 0 {
                assert(r[i] == s[i]);
            }
        }
    } else {
        lemma_upsert_absent_key(s.drop_first(), e);
        let t = upsert(s.drop_first(), e);
        let r = seq![s[0]] + t;
        assert forall|i: int|
            0 <= i < r.len() implies r[i].0@ == e.0@ || (exists|j: int|
            0 <= j < s.len() && r[i].0@ == s[j].0@) by {
            if i > 0 {
                assert(r[i] == t[i - 1]);
                if t[i - 1].0@ != e.0@ {
                    let j = choose|j: int|
                        0 <= j < s.drop_first().len() && t[i - 1].0@ == s.drop_first()[j].0@;
                    assert(s.drop_first()[j] == s[j + 1]);
                }
            }
        }
    }
}

/// Inserting an unbound key is exactly an append.
pub proof fn lemma_upsert_append<V>(s: Seq<(String, V)>, e: (String, V))
    requires
        forall|j: int| 0 <= j < s.len() ==> s[j].0@ != e.0@,
    ensures
        upsert(s, e) == s.push(e),
    decreases s.len(),
{
    if s.len() == 0 {
        assert(seq![e] =~= Seq::<(String, V)>::empty().push(e));
    } else {
        lemma_upsert_append(s.drop_first(), e);
        assert(seq![s[0]] + s.drop_first().push(e) =~= s.push(e));
    }
}

/// Unfolds an insert-or-replace past a prefix that does not bind the key.
pub proof fn lemma_upsert_skip<V>(s: Seq<(String, V)>, e: (String, V), i: int)
    requires
        0 <= i <= s.len(),
        forall|j: int| 0 <= j < i ==> s[j].0@ != e.0@,
    ensures
        upsert(s, e) == s.subrange(0, i) + upsert(s.skip(i), e),
    decreases i,
{
    if i == 0 {
        assert(s.skip(0) =~= s);
        assert(s.subrange(0, 0) + upsert(s, e) =~= upsert(s, e));
    } else {
        lemma_upsert_skip(s.drop_first(), e, i - 1);
        assert(s.drop_first().subrange(0, i - 1) =~= s.subrange(1, i));
        assert(s.drop_first().skip(i - 1) =~= s.skip(i));
        assert(seq![s[0]] + (s.subrange(1, i) + upsert(s.skip(i), e)) =~= s.subrange(0, i)
            + upsert(s.skip(i), e));
    }
}

/// Position of the first entry bound to `key`, if any.
pub fn find_key_pos<V>(table: &Vec<(String, V)>, key: &str) -> (r: Option<usize>)
    ensures
        match r {
            Some(i) => i < table@.len() && table@[i as int].0@ == key@ && forall|j: int|
                0 <= j < i ==> table@[j].0@ != key@,
            None => forall|j: int| 0 <= j < table@.len() ==> table@[j].0@ != key@,
        },
{
    let n = table.len();
    let mut i: usize = 0;
    while i < n
        invariant
            n == table@.len(),
            i <= n,
            forall|j: int| 0 <= j < i ==> table@[j].0@ != key@,
        decreases n - i,
    {
        if str_eq(table[i].0.as_str(), key) {
            return Some(i);
        }
        i = i + 1;
    }
    None
}

/// Whether a table binds `key`; the executable form of [`has_key`].
pub fn table_has_key<V>(table: &Vec<(String, V)>, key: &str) -> (r: bool)
    ensures
        r == has_key(table@, key@),
{
    let r = find_key_pos(table, key);
    proof {
        match r {
            Some(i) => {
                lemma_pget_found(table@, key@, i as int);
            },
            None => {
                lemma_pget_none(table@, key@);
            },
        }
    }
    r.is_some()
}

/// A table with no entry for `k` looks it up to nothing.
pub proof fn lemma_pget_none<V>(s: Seq<(String, V)>, k: Seq<char>)
    requires
        forall|j: int| 0 <= j < s.len() ==> s[j].0@ != k,
    ensures
        pget(s, k) is None,
    decreases s.len(),
{
    if s.len() > 0 {
        lemma_pget_none(s.drop_first(), k);
    }
}

/// Lookup returns the value at the first position whose key matches.
pub proof fn lemma_pget_found<V>(s: Seq<(String, V)>, k: Seq<char>, i: int)
    requires
        0 <= i < s.len(),
        s[i].0@ == k,
        forall|j: int| 0 <= j < i ==> s[j].0@ != k,
    ensures
        pget(s, k) == Some(s[i].1),
    decreases i,
{
    if i > 0 {
        lemma_pget_found(s.drop_first(), k, i - 1);
    }
}

/// Insert-or-replace a binding in an input table.
pub fn upsert_entry<V>(table: &mut Vec<(String, V)>, key: String, val: V)
    ensures
        final(table)@ == upsert(old(table)@, (key, val)),
{
    let ghost s = table@;
    let ghost e = (key, val);
    let pos = find_key_pos(table, key.as_str());
    match pos {
        Some(i) => {
            proof {
                lemma_upsert_skip(s, e, i as int);
            }
            table[i] = (key, val);
            proof {
                assert(s.skip(i as int)[0] == s[i as int]);
                assert(s.skip(i as int).drop_first() =~= s.skip(i as int + 1));
                assert(s.subrange(0, i as int) + (seq![e] + s.skip(i as int + 1)) =~= s.update(
                    i as int,
                    e,
                ));
            }
        },
        None => {
            proof {
                lemma_upsert_skip(s, e, s.len() as int);
            }
            table.push((key, val));
            proof {
                assert(s.skip(s.len() as int).len() == 0);
                assert(s.subrange(0, s.len() as int) =~= s);
                assert(s.subrange(0, s.len() as int) + seq![e] =~= s.push(e));
            }
        },
    }
}

/// Whether a document dictionary entry's key is the string `k`.
pub open spec fn doc_is_str_key(e: (DocValue, DocValue), k: Seq<char>) -> bool {
    match e.0 {
        DocValue::Str(s) => s@ == k,
        _ => false,
    }
}

/// First value bound to string key `k` in a document dictionary.
pub open spec fn doc_get(entries: Seq<(DocValue, DocValue)>, k: Seq<char>) -> Option<DocValue>
    decreases entries.len(),
{
    if entries.len() == 0 {
        None
    } else if doc_is_str_key(entries[0], k) {
        Some(entries[0].1)
    } else {
        doc_get(entries.drop_first(), k)
    }
}

/// A dictionary with no entry keyed `k` looks it up to nothing.
pub proof fn lemma_doc_get_none(entries: Seq<(DocValue, DocValue)>, k: Seq<char>)
    requires
        forall|j: int| 0 <= j < entries.len() ==> !doc_is_str_key(entries[j], k),
    ensures
        doc_get(entries, k) is None,
    decreases entries.len(),
{
    if entries.len() > 0 {
        lemma_doc_get_none(entries.drop_first(), k);
    }
}

/// Dictionary lookup returns the value at the first matching position.
pub proof fn lemma_doc_get_found(entries: Seq<(DocValue, DocValue)>, k: Seq<char>, i: int)
    requires
        0 <= i < entries.len(),
        doc_is_str_key(entries[i], k),
        forall|j: int| 0 <= j < i ==> !doc_is_str_key(entries[j], k),
    ensures
        doc_get(entries, k) == Some(entries[i].1),
    decreases i,
{
    if i > 0 {
        lemma_doc_get_found(entries.drop_first(), k, i - 1);
    }
}

/// The string bound to key `k` at the top level of a document, if the
/// document is a dictionary and that key's first binding is a string.
pub open spec fn string_key_of(doc: DocValue, k: Seq<char>) -> Option<Seq<char>> {
    match doc {
        DocValue::Dict(es) => match doc_get(es@, k) {
            Some(DocValue::Str(s)) => Some(s@),
            _ => None,
        },
        _ => None,
    }
}

/// Reads one string-valued key from a document without requiring the rest
/// of the document to be structurally valid.  The index builder uses this
/// to pull a recipe's identifier out of an otherwise arbitrary document.
pub fn get_string_key_from_recipe_value(doc: &DocValue, key: &str) -> (r: Option<String>)
    ensures
        match r {
            Some(s) => string_key_of(*doc, key@) == Some(s@),
            None => string_key_of(*doc, key@) is None,
        },
{
    match doc {
        DocValue::Dict(entries) => {
            let n = entries.len();
            let mut i: usize = 0;
            while i < n
                invariant
                    *doc matches DocValue::Dict(es) && es@ == entries@,
                    n == entries@.len(),
                    i <= n,
                    forall|j: int| 0 <= j < i ==> !doc_is_str_key(entries@[j], key@),
                decreases n - i,
            {
                let hit = match &entries[i].0 {
                    DocValue::Str(s) => str_eq(s.as_str(), key),
                    _ => false,
                };
                if hit {
                    proof {
                        lemma_doc_get_found(entries@, key@, i as int);
                    }
                    return match &entries[i].1 {
                        DocValue::Str(v) => Some(v.clone()),
                        _ => None,
                    };
                }
                i = i + 1;
            }
            proof {
                lemma_doc_get_none(entries@, key@);
            }
            None
        },
        _ => None,
    }
}

} // verus!
