//! Document parsing: from raw bytes to a typed recipe.
//!
//! Two encodings are supported, a property-list one and a YAML one,
//! detected purely by trial: the property-list decoder is tried first
//! and the YAML decoder only if that attempt fails.  The outside
//! decoders hand back untyped trees; trusted wrappers reduce those to
//! [`DocValue`] nodes, and everything from there on, the narrowing of
//! the untyped tree into the closed typed value space and the recipe
//! shape, is verified code with exact contracts.

use vstd::prelude::*;

use crate::errors::UnreadableFileError;
use crate::order::str_eq;
use crate::recipes::{Processor, Recipe};
use crate::trust::{ParentRecipeTrust, TrustBlock};
use crate::values::{
    doc_get, doc_is_str_key, keys_unique, lemma_upsert_keys_unique, upsert, upsert_entry,
    DocValue, PlistDataType,
};

verus! {

#[verifier::external_type_specification]
#[verifier::external_body]
pub struct ExPlistValue(plist::Value);

#[verifier::external_type_specification]
#[verifier::external_body]
pub struct ExYamlValue(serde_yaml::Value);

/// Relies on plist's Value enum: each variant is carried over to its
/// untyped-tree counterpart, dictionary keys become string nodes, and
/// scalars outside the recipe value space collapse to `Other`.
#[verifier::external_body]
fn plist_value_to_doc(v: &plist::Value) -> DocValue {
    match v {
        plist::Value::Boolean(b) => DocValue::Bool(*b),
        plist::Value::String(s) => DocValue::Str(s.clone()),
        plist::Value::Array(a) => DocValue::Arr(a.iter().map(plist_value_to_doc).collect()),
        plist::Value::Dictionary(d) => DocValue::Dict(
            d.iter().map(|(k, w)| (DocValue::Str(k.clone()), plist_value_to_doc(w))).collect(),
        ),
        _ => DocValue::Other,
    }
}

/// The untyped tree the property-list decoder yields for these bytes,
/// reduced to document nodes, or nothing when it refuses them.  The
/// decode is a pure function of the bytes alone.
pub uninterp spec fn plist_doc_of(data: Seq<u8>) -> Option<DocValue>;

/// The untyped tree the YAML decoder yields for these bytes, reduced
/// to document nodes, or nothing when it refuses them.  The decode is
/// a pure function of the bytes alone.
pub uninterp spec fn yaml_doc_of(data: Seq<u8>) -> Option<DocValue>;

/// Relies on plist::Value::from_reader, which decodes a property list
/// in any of its encodings from in-memory bytes, deterministically in
/// the bytes (its dictionaries keep insertion order); a decode failure
/// becomes nothing.
#[verifier::external_body]
pub(crate) fn parse_plist_doc(data: &[u8]) -> (r: Option<DocValue>)
    ensures
        r == plist_doc_of(data@),
{
    match plist::Value::from_reader(std::io::Cursor::new(data)) {
        Ok(v) => Some(plist_value_to_doc(&v)),
        Err(_) => None,
    }
}

/// Relies on serde_yaml's Value enum: each variant is carried over,
/// mapping keys stay untyped nodes, and tagged values and scalars
/// outside the recipe value space collapse to `Other`.
#[verifier::external_body]
fn yaml_value_to_doc(v: &serde_yaml::Value) -> DocValue {
    match v {
        serde_yaml::Value::Bool(b) => DocValue::Bool(*b),
        serde_yaml::Value::String(s) => DocValue::Str(s.clone()),
        serde_yaml::Value::Sequence(a) => DocValue::Arr(a.iter().map(yaml_value_to_doc).collect()),
        serde_yaml::Value::Mapping(m) => DocValue::Dict(
            m.iter().map(|(k, w)| (yaml_value_to_doc(k), yaml_value_to_doc(w))).collect(),
        ),
        _ => DocValue::Other,
    }
}

/// Relies on serde_yaml::from_slice to decode one YAML document from
/// bytes, deterministically in the bytes (its mappings keep insertion
/// order); a decode failure becomes nothing.
#[verifier::external_body]
pub(crate) fn parse_yaml_doc(data: &[u8]) -> (r: Option<DocValue>)
    ensures
        r == yaml_doc_of(data@),
{
    match serde_yaml::from_slice::<serde_yaml::Value>(data) {
        Ok(v) => Some(yaml_value_to_doc(&v)),
        Err(_) => None,
    }
}

/// The string inside a string node; meaningful only on such a node.
pub open spec fn doc_str_of(d: DocValue) -> String {
    match d {
        DocValue::Str(s) => s,
        _ => arbitrary(),
    }
}

/// The entries of a dictionary node; empty on other shapes.
pub open spec fn dict_entries_of(d: DocValue) -> Seq<(DocValue, DocValue)> {
    match d {
        DocValue::Dict(es) => es@,
        _ => Seq::empty(),
    }
}

/// The elements of an array node; empty on other shapes.
pub open spec fn arr_elems_of(d: DocValue) -> Seq<DocValue> {
    match d {
        DocValue::Arr(es) => es@,
        _ => Seq::empty(),
    }
}

/// A dictionary node whose keys and values are all strings.
pub open spec fn is_dict_of_strs(d: DocValue) -> bool {
    match d {
        DocValue::Dict(es) => forall|i: int|
            0 <= i < es@.len() ==> (#[trigger] es@[i]).0 is Str && es@[i].1 is Str,
        _ => false,
    }
}

/// Every element is a string node.
pub open spec fn all_strs(elems: Seq<DocValue>) -> bool {
    forall|i: int| 0 <= i < elems.len() ==> (#[trigger] elems[i]) is Str
}

/// Every element is a dictionary of strings.
pub open spec fn all_dicts_of_strs(elems: Seq<DocValue>) -> bool {
    forall|i: int| 0 <= i < elems.len() ==> is_dict_of_strs(#[trigger] elems[i])
}

/// Every entry's key is a string node.
pub open spec fn dict_keys_strs(entries: Seq<(DocValue, DocValue)>) -> bool {
    forall|i: int| 0 <= i < entries.len() ==> (#[trigger] entries[i]).0 is Str
}

/// The string table a dictionary of strings denotes: entries folded in
/// order, a repeated key keeping its place with the last value, as the
/// decoders' map semantics have it.
pub open spec fn skv_fold(entries: Seq<(DocValue, DocValue)>) -> Seq<(String, String)>
    decreases entries.len(),
{
    if entries.len() == 0 {
        Seq::empty()
    } else {
        upsert(
            skv_fold(entries.drop_last()),
            (doc_str_of(entries.last().0), doc_str_of(entries.last().1)),
        )
    }
}

/// The table a dictionary denotes once its values are converted: the
/// entries folded in order with the given converted values.
pub open spec fn dict_fold<V>(entries: Seq<(DocValue, DocValue)>, vals: Seq<V>) -> Seq<(String, V)>
    decreases entries.len(),
{
    if entries.len() == 0 {
        Seq::empty()
    } else {
        upsert(
            dict_fold(entries.drop_last(), vals.drop_last()),
            (doc_str_of(entries.last().0), vals.last()),
        )
    }
}

/// A fold of string-keyed entries has unique keys.
pub proof fn lemma_dict_fold_unique<V>(entries: Seq<(DocValue, DocValue)>, vals: Seq<V>)
    ensures
        keys_unique(dict_fold(entries, vals)),
    decreases entries.len(),
{
    if entries.len() > 0 {
        lemma_dict_fold_unique(entries.drop_last(), vals.drop_last());
        lemma_upsert_keys_unique(
            dict_fold(entries.drop_last(), vals.drop_last()),
            (doc_str_of(entries.last().0), vals.last()),
        );
    }
}

/// Whether an untyped node lies in the recipe value space.
pub open spec fn rv_convertible(d: DocValue) -> bool
    decreases d,
{
    match d {
        DocValue::Bool(_) => true,
        DocValue::Str(_) => true,
        DocValue::Arr(elems) => all_dicts_of_strs(elems@) || all_strs(elems@),
        DocValue::Dict(entries) => dict_keys_strs(entries@) && (forall|i: int|
            0 <= i < entries@.len() ==> rv_convertible((#[trigger] entries@[i]).1)),
        DocValue::Other => false,
    }
}

/// The typed value an untyped node converts to, shape by shape, in the
/// same variant order the document decoder tries: an array of string
/// dictionaries before an array of strings, and any dictionary as a
/// dictionary of values.
pub open spec fn rv_matches(d: DocValue, v: PlistDataType) -> bool
    decreases d,
{
    match d {
        DocValue::Bool(b) => v == PlistDataType::Bool(b),
        DocValue::Str(s) => v == PlistDataType::Str(s),
        DocValue::Arr(elems) => {
            if all_dicts_of_strs(elems@) {
                v matches PlistDataType::ArrayOfDicts(ds) && ds@.len() == elems@.len() && (forall|
                    i: int,
                |
                    0 <= i < elems@.len() ==> (#[trigger] ds@[i])@ == skv_fold(
                        dict_entries_of(elems@[i]),
                    ))
            } else if all_strs(elems@) {
                v matches PlistDataType::ArrayOfStrs(ss) && ss@.len() == elems@.len() && (forall|
                    i: int,
                | 0 <= i < elems@.len() ==> (#[trigger] ss@[i]) == doc_str_of(elems@[i]))
            } else {
                false
            }
        },
        DocValue::Dict(entries) => v matches PlistDataType::DictOfDicts(m) && dict_matches(
            entries@,
            m@,
        ),
        DocValue::Other => false,
    }
}

/// A dictionary's entries denote table `m` when each value converts and
/// folding the converted entries yields `m`.
pub open spec fn dict_matches(
    entries: Seq<(DocValue, DocValue)>,
    m: Seq<(String, PlistDataType)>,
) -> bool
    decreases entries,
{
    exists|vals: Seq<PlistDataType>|
        {
            &&& vals.len() == entries.len()
            &&& (forall|i: int|
                0 <= i < entries.len() ==> rv_matches((#[trigger] entries[i]).1, vals[i]))
            &&& m == dict_fold(entries, vals)
        }
}

/// Whether a node is a string, executably.
fn doc_is_str(d: &DocValue) -> (r: bool)
    ensures
        r == (*d is Str),
{
    match d {
        DocValue::Str(_) => true,
        _ => false,
    }
}

/// Whether a node is a dictionary of strings, executably.
fn is_dict_of_strs_exec(d: &DocValue) -> (r: bool)
    ensures
        r == is_dict_of_strs(*d),
{
    match d {
        DocValue::Dict(es) => {
            let n = es.len();
            let mut i: usize = 0;
            while i < n
                invariant
                    *d matches DocValue::Dict(ev) && ev@ == es@,
                    n == es@.len(),
                    i <= n,
                    forall|j: int| 0 <= j < i ==> (#[trigger] es@[j]).0 is Str && es@[j].1 is Str,
                decreases n - i,
            {
                let key_ok = doc_is_str(&es[i].0);
                let val_ok = doc_is_str(&es[i].1);
                if !key_ok || !val_ok {
                    return false;
                }
                i = i + 1;
            }
            true
        },
        _ => false,
    }
}

/// Converts one dictionary of strings into its string table.
fn conv_str_dict(entries: &Vec<(DocValue, DocValue)>) -> (r: Vec<(String, String)>)
    requires
        forall|i: int|
            0 <= i < entries@.len() ==> (#[trigger] entries@[i]).0 is Str && entries@[i].1 is Str,
    ensures
        r@ == skv_fold(entries@),
{
    let n = entries.len();
    let mut acc: Vec<(String, String)> = Vec::new();
    let mut i: usize = 0;
    proof {
        assert(entries@.take(0) =~= Seq::<(DocValue, DocValue)>::empty());
    }
    while i < n
        invariant
            forall|j: int|
                0 <= j < entries@.len() ==> (#[trigger] entries@[j]).0 is Str && entries@[j].1
                    is Str,
            n == entries@.len(),
            i <= n,
            acc@ == skv_fold(entries@.take(i as int)),
        decreases n - i,
    {
        let key = match &entries[i].0 {
            DocValue::Str(s) => s.clone(),
            _ => {
                proof {
                    assert(false);
                }
                String::new()
            },
        };
        let val = match &entries[i].1 {
            DocValue::Str(s) => s.clone(),
            _ => {
                proof {
                    assert(false);
                }
                String::new()
            },
        };
        proof {
            assert(key == doc_str_of(entries@[i as int].0));
            assert(val == doc_str_of(entries@[i as int].1));
        }
        upsert_entry(&mut acc, key, val);
        proof {
            assert(entries@.take(i as int + 1).drop_last() =~= entries@.take(i as int));
            assert(entries@.take(i as int + 1).last() == entries@[i as int]);
        }
        i = i + 1;
    }
    proof {
        assert(entries@.take(n as int) =~= entries@);
    }
    acc
}

/// Converts an array node: an array of string dictionaries if every
/// element is one, else an array of strings if every element is a
/// string, else nothing.
fn conv_array(elems: &Vec<DocValue>) -> (r: Option<PlistDataType>)
    ensures
        all_dicts_of_strs(elems@) ==> (r matches Some(v) && v matches PlistDataType::ArrayOfDicts(
            ds,
        ) && ds@.len() == elems@.len() && (forall|i: int|
            0 <= i < elems@.len() ==> (#[trigger] ds@[i])@ == skv_fold(
                dict_entries_of(elems@[i]),
            ))),
        (!all_dicts_of_strs(elems@) && all_strs(elems@)) ==> (r matches Some(v)
            && v matches PlistDataType::ArrayOfStrs(ss) && ss@.len() == elems@.len() && (forall|
            i: int,
        | 0 <= i < elems@.len() ==> (#[trigger] ss@[i]) == doc_str_of(elems@[i]))),
        (!all_dicts_of_strs(elems@) && !all_strs(elems@)) ==> r is None,
{
    let n = elems.len();
    let mut all_dicts = true;
    let mut i: usize = 0;
    while i < n
        invariant
            n == elems@.len(),
            i <= n,
            all_dicts == (forall|j: int| 0 <= j < i ==> is_dict_of_strs(#[trigger] elems@[j])),
        decreases n - i,
    {
        if !is_dict_of_strs_exec(&elems[i]) {
            all_dicts = false;
            proof {
                assert(!is_dict_of_strs(elems@[i as int]));
            }
            i = n;
        } else {
            i = i + 1;
        }
    }
    if all_dicts {
        let mut ds: Vec<Vec<(String, String)>> = Vec::new();
        let mut k: usize = 0;
        while k < n
            invariant
                all_dicts_of_strs(elems@),
                n == elems@.len(),
                k <= n,
                ds@.len() == k,
                forall|j: int|
                    0 <= j < k ==> (#[trigger] ds@[j])@ == skv_fold(dict_entries_of(elems@[j])),
            decreases n - k,
        {
            let t = match &elems[k] {
                DocValue::Dict(es) => conv_str_dict(es),
                _ => {
                    proof {
                        assert(is_dict_of_strs(elems@[k as int]));
                        assert(false);
                    }
                    Vec::new()
                },
            };
            ds.push(t);
            k = k + 1;
        }
        return Some(PlistDataType::ArrayOfDicts(ds));
    }
    let mut all_str = true;
    let mut i2: usize = 0;
    while i2 < n
        invariant
            n == elems@.len(),
            i2 <= n,
            all_str == (forall|j: int| 0 <= j < i2 ==> (#[trigger] elems@[j]) is Str),
        decreases n - i2,
    {
        if !doc_is_str(&elems[i2]) {
            all_str = false;
            proof {
                assert(!(elems@[i2 as int] is Str));
            }
            i2 = n;
        } else {
            i2 = i2 + 1;
        }
    }
    if all_str {
        let mut ss: Vec<String> = Vec::new();
        let mut k: usize = 0;
        while k < n
            invariant
                all_strs(elems@),
                n == elems@.len(),
                k <= n,
                ss@.len() == k,
                forall|j: int| 0 <= j < k ==> (#[trigger] ss@[j]) == doc_str_of(elems@[j]),
            decreases n - k,
        {
            let s = match &elems[k] {
                DocValue::Str(s) => s.clone(),
                _ => {
                    proof {
                        assert(false);
                    }
                    String::new()
                },
            };
            ss.push(s);
            k = k + 1;
        }
        return Some(PlistDataType::ArrayOfStrs(ss));
    }
    None
}

/// Converts a dictionary node's entries into a value table: every key
/// must be a string and every value must convert.
fn conv_dict_entries(entries: &Vec<(DocValue, DocValue)>) -> (r: Option<
    Vec<(String, PlistDataType)>,
>)
    ensures
        r matches Some(t) ==> dict_matches(entries@, t@) && keys_unique(t@),
        r is Some <==> dict_keys_strs(entries@) && (forall|i: int|
            0 <= i < entries@.len() ==> rv_convertible((#[trigger] entries@[i]).1)),
    decreases entries@,
{
    let n = entries.len();
    let mut acc: Vec<(String, PlistDataType)> = Vec::new();
    let ghost mut vals: Seq<PlistDataType> = Seq::empty();
    let mut i: usize = 0;
    proof {
        assert(entries@.take(0) =~= Seq::<(DocValue, DocValue)>::empty());
    }
    while i < n
        invariant
            n == entries@.len(),
            i <= n,
            vals.len() == i,
            forall|j: int| 0 <= j < i ==> (#[trigger] entries@[j]).0 is Str,
            forall|j: int| 0 <= j < i ==> rv_matches((#[trigger] entries@[j]).1, vals[j]),
            forall|j: int| 0 <= j < i ==> rv_convertible((#[trigger] entries@[j]).1),
            acc@ == dict_fold(entries@.take(i as int), vals),
        decreases n - i,
    {
        let key = match &entries[i].0 {
            DocValue::Str(s) => s.clone(),
            _ => {
                return None;
            },
        };
        proof {
            assert(decreases_to!(entries@ => entries@[i as int]));
        }
        let v = match conv_value(&entries[i].1) {
            Some(v) => v,
            None => {
                return None;
            },
        };
        let ghost vals_old = vals;
        proof {
            assert(key == doc_str_of(entries@[i as int].0));
            vals = vals.push(v);
        }
        upsert_entry(&mut acc, key, v);
        proof {
            assert(entries@.take(i as int + 1).drop_last() =~= entries@.take(i as int));
            assert(entries@.take(i as int + 1).last() == entries@[i as int]);
            assert(vals.drop_last() =~= vals_old);
            assert(vals.last() == v);
        }
        i = i + 1;
    }
    proof {
        assert(entries@.take(n as int) =~= entries@);
        lemma_dict_fold_unique(entries@, vals);
    }
    Some(acc)
}

/// Narrows one untyped node into the typed value space, or nothing
/// when it lies outside it.
pub fn conv_value(d: &DocValue) -> (r: Option<PlistDataType>)
    ensures
        r matches Some(v) ==> rv_matches(*d, v),
        r is Some <==> rv_convertible(*d),
    decreases *d,
{
    match d {
        DocValue::Bool(b) => Some(PlistDataType::Bool(*b)),
        DocValue::Str(s) => Some(PlistDataType::Str(s.clone())),
        DocValue::Arr(elems) => conv_array(elems),
        DocValue::Dict(entries) => match conv_dict_entries(entries) {
            Some(t) => Some(PlistDataType::DictOfDicts(t)),
            None => None,
        },
        DocValue::Other => None,
    }
}

/// First value bound to string key `key` in a dictionary's entries.
fn doc_dict_get<'a>(entries: &'a Vec<(DocValue, DocValue)>, key: &str) -> (r: Option<
    &'a DocValue,
>)
    ensures
        match r {
            Some(d) => doc_get(entries@, key@) == Some(*d),
            None => doc_get(entries@, key@) is None,
        },
{
    let n = entries.len();
    let mut i: usize = 0;
    while i < n
        invariant
            n == entries@.len(),
            i <= n,
            forall|j: int| 0 <= j < i ==> !doc_is_str_key(entries@[j], key@),
        decreases n - i,
    {
        let hit = match &entries[i].0 {
            DocValue::Str(s) => str_eq(s.as_str(), key),
            _ => false,
        };
        if hit {
            proof {
                crate::values::lemma_doc_get_found(entries@, key@, i as int);
            }
            return Some(&entries[i].1);
        }
        i = i + 1;
    }
    proof {
        crate::values::lemma_doc_get_none(entries@, key@);
    }
    None
}

/// The binding of `k` is present and is a string node.
pub open spec fn req_str(entries: Seq<(DocValue, DocValue)>, k: Seq<char>) -> bool {
    doc_get(entries, k) matches Some(d) && d is Str
}

/// The node bound to `k`; meaningful only when one is present.
pub open spec fn doc_field(entries: Seq<(DocValue, DocValue)>, k: Seq<char>) -> DocValue {
    match doc_get(entries, k) {
        Some(d) => d,
        None => arbitrary(),
    }
}

/// The string bound to `k`; meaningful only when `req_str` holds.
pub open spec fn doc_field_str(entries: Seq<(DocValue, DocValue)>, k: Seq<char>) -> String {
    doc_str_of(doc_field(entries, k))
}

/// A processor step's document shape: a dictionary with a string
/// `Processor` and, optionally, an `Arguments` dictionary of values.
pub open spec fn proc_convertible(d: DocValue) -> bool {
    &&& d is Dict
    &&& req_str(dict_entries_of(d), "Processor"@)
    &&& match doc_get(dict_entries_of(d), "Arguments"@) {
        None => true,
        Some(a) => {
            &&& a is Dict
            &&& dict_keys_strs(dict_entries_of(a))
            &&& forall|i: int|
                0 <= i < dict_entries_of(a).len() ==> rv_convertible(
                    (#[trigger] dict_entries_of(a)[i]).1,
                )
        },
    }
}

/// The processor step a document node denotes.
pub open spec fn proc_matches(d: DocValue, p: Processor) -> bool {
    &&& p.processor == doc_field_str(dict_entries_of(d), "Processor"@)
    &&& match doc_get(dict_entries_of(d), "Arguments"@) {
        None => p.arguments is None,
        Some(a) => p.arguments matches Some(am) && dict_matches(dict_entries_of(a), am@)
            && keys_unique(am@),
    }
}

/// Converts one processor step.
fn conv_proc(d: &DocValue) -> (r: Option<Processor>)
    ensures
        r matches Some(p) ==> proc_matches(*d, p),
        r is Some <==> proc_convertible(*d),
{
    let entries = match d {
        DocValue::Dict(es) => es,
        _ => {
            return None;
        },
    };
    let name = match doc_dict_get(entries, "Processor") {
        Some(DocValue::Str(s)) => s.clone(),
        _ => {
            return None;
        },
    };
    let arguments = match doc_dict_get(entries, "Arguments") {
        None => None,
        Some(DocValue::Dict(ae)) => match conv_dict_entries(ae) {
            Some(t) => Some(t),
            None => {
                return None;
            },
        },
        Some(_) => {
            return None;
        },
    };
    Some(Processor { processor: name, arguments })
}

/// A trust fingerprint's document shape: a dictionary with string
/// `git_hash`, `path` and `sha256_hash` entries.
pub open spec fn tb_convertible(d: DocValue) -> bool {
    &&& d is Dict
    &&& req_str(dict_entries_of(d), "git_hash"@)
    &&& req_str(dict_entries_of(d), "path"@)
    &&& req_str(dict_entries_of(d), "sha256_hash"@)
}

/// The trust fingerprint a document node denotes.
pub open spec fn tb_matches(d: DocValue, t: TrustBlock) -> bool {
    &&& t.git_hash == doc_field_str(dict_entries_of(d), "git_hash"@)
    &&& t.path == doc_field_str(dict_entries_of(d), "path"@)
    &&& t.sha256_hash == doc_field_str(dict_entries_of(d), "sha256_hash"@)
}

/// Converts one trust fingerprint.
fn conv_trust_block(d: &DocValue) -> (r: Option<TrustBlock>)
    ensures
        r matches Some(t) ==> tb_matches(*d, t),
        r is Some <==> tb_convertible(*d),
{
    let entries = match d {
        DocValue::Dict(es) => es,
        _ => {
            return None;
        },
    };
    let git_hash = match doc_dict_get(entries, "git_hash") {
        Some(DocValue::Str(s)) => s.clone(),
        _ => {
            return None;
        },
    };
    let path = match doc_dict_get(entries, "path") {
        Some(DocValue::Str(s)) => s.clone(),
        _ => {
            return None;
        },
    };
    let sha256_hash = match doc_dict_get(entries, "sha256_hash") {
        Some(DocValue::Str(s)) => s.clone(),
        _ => {
            return None;
        },
    };
    Some(TrustBlock { git_hash, path, sha256_hash })
}

/// A table of trust fingerprints keyed by name: a dictionary with
/// string keys whose values are all trust fingerprints.
pub open spec fn tmap_convertible(d: DocValue) -> bool {
    &&& d is Dict
    &&& dict_keys_strs(dict_entries_of(d))
    &&& forall|i: int|
        0 <= i < dict_entries_of(d).len() ==> tb_convertible((#[trigger] dict_entries_of(d)[i]).1)
}

/// The fingerprint table a document node denotes.
pub open spec fn tmap_matches(d: DocValue, m: Seq<(String, TrustBlock)>) -> bool {
    exists|ts: Seq<TrustBlock>|
        {
            &&& ts.len() == dict_entries_of(d).len()
            &&& (forall|i: int|
                0 <= i < ts.len() ==> tb_matches((#[trigger] dict_entries_of(d)[i]).1, ts[i]))
            &&& m == dict_fold(dict_entries_of(d), ts)
        }
}

/// Converts one fingerprint table.
fn conv_trust_map(d: &DocValue) -> (r: Option<Vec<(String, TrustBlock)>>)
    ensures
        r matches Some(m) ==> tmap_matches(*d, m@),
        r is Some <==> tmap_convertible(*d),
{
    let entries = match d {
        DocValue::Dict(es) => es,
        _ => {
            return None;
        },
    };
    let n = entries.len();
    let mut acc: Vec<(String, TrustBlock)> = Vec::new();
    let ghost mut ts: Seq<TrustBlock> = Seq::empty();
    let mut i: usize = 0;
    proof {
        assert(entries@.take(0) =~= Seq::<(DocValue, DocValue)>::empty());
    }
    while i < n
        invariant
            *d matches DocValue::Dict(ev) && ev@ == entries@,
            n == entries@.len(),
            i <= n,
            ts.len() == i,
            forall|j: int| 0 <= j < i ==> (#[trigger] entries@[j]).0 is Str,
            forall|j: int| 0 <= j < i ==> tb_matches((#[trigger] entries@[j]).1, ts[j]),
            forall|j: int| 0 <= j < i ==> tb_convertible((#[trigger] entries@[j]).1),
            acc@ == dict_fold(entries@.take(i as int), ts),
        decreases n - i,
    {
        let key = match &entries[i].0 {
            DocValue::Str(s) => s.clone(),
            _ => {
                return None;
            },
        };
        let tb = match conv_trust_block(&entries[i].1) {
            Some(t) => t,
            None => {
                return None;
            },
        };
        let ghost ts_old = ts;
        proof {
            assert(key == doc_str_of(entries@[i as int].0));
            ts = ts.push(tb);
        }
        upsert_entry(&mut acc, key, tb);
        proof {
            assert(entries@.take(i as int + 1).drop_last() =~= entries@.take(i as int));
            assert(entries@.take(i as int + 1).last() == entries@[i as int]);
            assert(ts.drop_last() =~= ts_old);
            assert(ts.last() == tb);
        }
        i = i + 1;
    }
    proof {
        assert(entries@.take(n as int) =~= entries@);
        assert(acc@ == dict_fold(entries@, ts));
        assert(dict_entries_of(*d) == entries@);
    }
    Some(acc)
}

/// The trust-info document shape carried by overrides: the two
/// fingerprint tables under `non_core_processors` and `parent_recipes`.
pub open spec fn trust_convertible(d: DocValue) -> bool {
    &&& d is Dict
    &&& doc_get(dict_entries_of(d), "non_core_processors"@) matches Some(n) && tmap_convertible(n)
    &&& doc_get(dict_entries_of(d), "parent_recipes"@) matches Some(p) && tmap_convertible(p)
}

/// The trust info a document node denotes.
pub open spec fn trust_matches(d: DocValue, t: ParentRecipeTrust) -> bool {
    &&& tmap_matches(
        doc_field(dict_entries_of(d), "non_core_processors"@),
        t.non_core_processors@,
    )
    &&& tmap_matches(doc_field(dict_entries_of(d), "parent_recipes"@), t.parent_recipes@)
}

/// Converts the trust info of an override document.
fn conv_trust(d: &DocValue) -> (r: Option<ParentRecipeTrust>)
    ensures
        r matches Some(t) ==> trust_matches(*d, t),
        r is Some <==> trust_convertible(*d),
{
    let entries = match d {
        DocValue::Dict(es) => es,
        _ => {
            return None;
        },
    };
    let non_core_processors = match doc_dict_get(entries, "non_core_processors") {
        Some(n) => match conv_trust_map(n) {
            Some(m) => m,
            None => {
                return None;
            },
        },
        None => {
            return None;
        },
    };
    let parent_recipes = match doc_dict_get(entries, "parent_recipes") {
        Some(p) => match conv_trust_map(p) {
            Some(m) => m,
            None => {
                return None;
            },
        },
        None => {
            return None;
        },
    };
    Some(ParentRecipeTrust { non_core_processors, parent_recipes })
}

/// The document shape of a whole recipe: a dictionary with the three
/// required descriptive strings, an optional string `ParentRecipe`, an
/// `Input` dictionary of values, a `Process` array of processor steps,
/// and, only on overrides, a `ParentRecipeTrustInfo` block.  Unknown
/// keys are ignored.
pub open spec fn doc_recipe_convertible(doc: DocValue) -> bool {
    &&& doc is Dict
    &&& req_str(dict_entries_of(doc), "Description"@)
    &&& req_str(dict_entries_of(doc), "Identifier"@)
    &&& req_str(dict_entries_of(doc), "MinimumVersion"@)
    &&& match doc_get(dict_entries_of(doc), "ParentRecipe"@) {
        None => true,
        Some(p) => p is Str,
    }
    &&& doc_get(dict_entries_of(doc), "Input"@) matches Some(inp) && inp is Dict
        && dict_keys_strs(dict_entries_of(inp)) && (forall|i: int|
        0 <= i < dict_entries_of(inp).len() ==> rv_convertible(
            (#[trigger] dict_entries_of(inp)[i]).1,
        ))
    &&& doc_get(dict_entries_of(doc), "Process"@) matches Some(pr) && pr is Arr && (forall|i: int|
        0 <= i < arr_elems_of(pr).len() ==> proc_convertible(#[trigger] arr_elems_of(pr)[i]))
    &&& match doc_get(dict_entries_of(doc), "ParentRecipeTrustInfo"@) {
        None => true,
        Some(t) => trust_convertible(t),
    }
}

/// The typed recipe a document denotes, field by field.
pub open spec fn recipe_matches_doc(rec: Recipe, doc: DocValue) -> bool {
    let es = dict_entries_of(doc);
    &&& rec.description == doc_field_str(es, "Description"@)
    &&& rec.identifier == doc_field_str(es, "Identifier"@)
    &&& rec.minimum_version == doc_field_str(es, "MinimumVersion"@)
    &&& match doc_get(es, "ParentRecipe"@) {
        None => rec.parent_recipe is None,
        Some(p) => rec.parent_recipe matches Some(ps) && ps == doc_str_of(p),
    }
    &&& dict_matches(dict_entries_of(doc_field(es, "Input"@)), rec.input@)
    &&& rec.process@.len() == arr_elems_of(doc_field(es, "Process"@)).len()
    &&& forall|i: int|
        0 <= i < rec.process@.len() ==> proc_matches(
            arr_elems_of(doc_field(es, "Process"@))[i],
            #[trigger] rec.process@[i],
        )
    &&& match doc_get(es, "ParentRecipeTrustInfo"@) {
        None => rec.parent_recipe_trust_info is None,
        Some(t) => rec.parent_recipe_trust_info matches Some(ti) && trust_matches(t, ti),
    }
}

/// Narrows a parsed document into a typed recipe: exactly the documents
/// of the recipe shape convert, and the result's fields are the
/// document's, with input keys unique.
pub fn recipe_of_doc(doc: &DocValue) -> (r: Option<Recipe>)
    ensures
        r matches Some(rec) ==> recipe_matches_doc(rec, *doc) && keys_unique(rec.input@),
        r is Some <==> doc_recipe_convertible(*doc),
{
    let entries = match doc {
        DocValue::Dict(es) => es,
        _ => {
            return None;
        },
    };
    let description = match doc_dict_get(entries, "Description") {
        Some(DocValue::Str(s)) => s.clone(),
        _ => {
            return None;
        },
    };
    let identifier = match doc_dict_get(entries, "Identifier") {
        Some(DocValue::Str(s)) => s.clone(),
        _ => {
            return None;
        },
    };
    let minimum_version = match doc_dict_get(entries, "MinimumVersion") {
        Some(DocValue::Str(s)) => s.clone(),
        _ => {
            return None;
        },
    };
    let parent_recipe = match doc_dict_get(entries, "ParentRecipe") {
        None => None,
        Some(DocValue::Str(s)) => Some(s.clone()),
        Some(_) => {
            return None;
        },
    };
    let input = match doc_dict_get(entries, "Input") {
        Some(DocValue::Dict(ie)) => match conv_dict_entries(ie) {
            Some(t) => t,
            None => {
                return None;
            },
        },
        _ => {
            return None;
        },
    };
    let process = match doc_dict_get(entries, "Process") {
        Some(DocValue::Arr(pe)) => {
            let n = pe.len();
            let mut ps: Vec<Processor> = Vec::new();
            let mut i: usize = 0;
            while i < n
                invariant
                    *doc matches DocValue::Dict(ev) && ev@ == entries@,
                    doc_get(entries@, "Process"@) matches Some(pr) && pr
                        matches DocValue::Arr(pv) && pv@ == pe@,
                    n == pe@.len(),
                    i <= n,
                    ps@.len() == i,
                    forall|j: int| 0 <= j < i ==> proc_matches(pe@[j], #[trigger] ps@[j]),
                    forall|j: int| 0 <= j < i ==> proc_convertible(#[trigger] pe@[j]),
                decreases n - i,
            {
                let p = match conv_proc(&pe[i]) {
                    Some(p) => p,
                    None => {
                        proof {
                            let prn = doc_get(entries@, "Process"@).unwrap();
                            assert(arr_elems_of(prn) == pe@);
                            assert(!proc_convertible(arr_elems_of(prn)[i as int]));
                        }
                        return None;
                    },
                };
                ps.push(p);
                i = i + 1;
            }
            ps
        },
        _ => {
            return None;
        },
    };
    let parent_recipe_trust_info = match doc_dict_get(entries, "ParentRecipeTrustInfo") {
        None => None,
        Some(t) => match conv_trust(t) {
            Some(ti) => Some(ti),
            None => {
                return None;
            },
        },
    };
    Some(
        Recipe {
            description,
            identifier,
            minimum_version,
            parent_recipe,
            input,
            process,
            parent_recipe_trust_info,
        },
    )
}

/// The bytes decode on the property-list route to a structurally
/// valid recipe document.
pub open spec fn plist_recipe_ok(data: Seq<u8>) -> bool {
    plist_doc_of(data) matches Some(d) && doc_recipe_convertible(d)
}

/// The bytes decode on the YAML route to a structurally valid recipe
/// document.
pub open spec fn yaml_recipe_ok(data: Seq<u8>) -> bool {
    yaml_doc_of(data) matches Some(d) && doc_recipe_convertible(d)
}

/// Reads a recipe from bytes holding a property-list document: exactly
/// the bytes whose decode has the recipe shape succeed, and the result
/// is that document's recipe.
pub fn read_plist_recipe(data: &[u8]) -> (r: Result<Recipe, UnreadableFileError>)
    ensures
        r is Ok <==> plist_recipe_ok(data@),
        r matches Ok(rec) ==> recipe_matches_doc(rec, plist_doc_of(data@).unwrap())
            && keys_unique(rec.input@),
{
    match parse_plist_doc(data) {
        Some(doc) => match recipe_of_doc(&doc) {
            Some(rec) => Ok(rec),
            None => Err(UnreadableFileError),
        },
        None => Err(UnreadableFileError),
    }
}

/// Reads a recipe from bytes holding a YAML document: exactly the
/// bytes whose decode has the recipe shape succeed, and the result is
/// that document's recipe.
pub fn read_yaml_recipe(data: &[u8]) -> (r: Result<Recipe, UnreadableFileError>)
    ensures
        r is Ok <==> yaml_recipe_ok(data@),
        r matches Ok(rec) ==> recipe_matches_doc(rec, yaml_doc_of(data@).unwrap())
            && keys_unique(rec.input@),
{
    match parse_yaml_doc(data) {
        Some(doc) => match recipe_of_doc(&doc) {
            Some(rec) => Ok(rec),
            None => Err(UnreadableFileError),
        },
        None => Err(UnreadableFileError),
    }
}

/// Reads a recipe from bytes of either supported encoding.  The
/// property-list route is tried first; only if that route fails is the
/// YAML route tried; if both fail the document is unreadable, with the
/// two underlying failures indistinguishable to the caller.
pub fn read_recipe(data: &[u8]) -> (r: Result<Recipe, UnreadableFileError>)
    ensures
        plist_recipe_ok(data@) ==> (r matches Ok(rec) && recipe_matches_doc(
            rec,
            plist_doc_of(data@).unwrap(),
        ) && keys_unique(rec.input@)),
        (!plist_recipe_ok(data@) && yaml_recipe_ok(data@)) ==> (r matches Ok(rec)
            && recipe_matches_doc(rec, yaml_doc_of(data@).unwrap()) && keys_unique(rec.input@)),
        (!plist_recipe_ok(data@) && !yaml_recipe_ok(data@)) ==> r is Err,
{
    match read_plist_recipe(data) {
        Ok(rec) => Ok(rec),
        Err(_) => read_yaml_recipe(data),
    }
}

} // verus!
