//! The mathematical document model: a sequence of key-value entries with
//! first-match lookup and replace-or-append update.

use vstd::prelude::*;
use crate::value::ValueModel;

verus! {

/// One entry of the document model: a key and its value.
pub type KvModel = (Seq<char>, ValueModel);

/// A key is valid when it contains no `=` and does not end in `{`; any
/// other key would be ambiguous with the line syntax when rendered.
pub open spec fn valid_key(k: Seq<char>) -> bool {
    (forall|i: int| 0 <= i < k.len() ==> k[i] != '=') && (k.len() > 0 ==> k[k.len() - 1] != '{')
}

/// Index of the first entry whose key is `k`, or `-1` if no entry has it.
pub open spec fn key_index(s: Seq<KvModel>, k: Seq<char>) -> int
    decreases s.len(),
{
    if s.len() == 0 {
        -1
    } else if s[0].0 == k {
        0
    } else if key_index(s.drop_first(), k) < 0 {
        -1
    } else {
        1 + key_index(s.drop_first(), k)
    }
}

/// Whether some entry of `s` has key `k`.
pub open spec fn has_key(s: Seq<KvModel>, k: Seq<char>) -> bool {
    key_index(s, k) >= 0
}

/// The value mapped to `k`, or `None` if no entry has that key.
pub open spec fn kv_find(s: Seq<KvModel>, k: Seq<char>) -> Option<ValueModel> {
    if has_key(s, k) {
        Some(s[key_index(s, k)].1)
    } else {
        None
    }
}

/// The document with `k` mapped to `v`: the entry of `k` is replaced in
/// place if present, else a new entry is appended.
pub open spec fn kv_insert(s: Seq<KvModel>, k: Seq<char>, v: ValueModel) -> Seq<KvModel> {
    if has_key(s, k) {
        s.update(key_index(s, k), (k, v))
    } else {
        s.push((k, v))
    }
}

/// No two entries of `s` share a key.
pub open spec fn unique_keys(s: Seq<KvModel>) -> bool {
    forall|i: int, j: int| 0 <= i < j < s.len() ==> s[i].0 != s[j].0
}

/// `key_index` returns either `-1` (key absent) or the first index whose
/// entry holds `k`.
pub proof fn lemma_key_index(s: Seq<KvModel>, k: Seq<char>)
    ensures
        key_index(s, k) >= 0 ==> key_index(s, k) < s.len() && s[key_index(s, k)].0 == k && (forall|
            i: int,
        | 0 <= i < key_index(s, k) ==> s[i].0 != k),
        key_index(s, k) < 0 ==> key_index(s, k) == -1 && (forall|i: int|
            0 <= i < s.len() ==> s[i].0 != k),
    decreases s.len(),
{
    if s.len() > 0 && s[0].0 != k {
        lemma_key_index(s.drop_first(), k);
        assert(forall|i: int| 1 <= i < s.len() ==> s[i] == s.drop_first()[i - 1]);
    }
}

/// If `k` first occurs as a key at index `idx`, `key_index` returns `idx`.
pub proof fn lemma_key_index_is(s: Seq<KvModel>, k: Seq<char>, idx: int)
    requires
        0 <= idx < s.len(),
        s[idx].0 == k,
        forall|i: int| 0 <= i < idx ==> s[i].0 != k,
    ensures
        key_index(s, k) == idx,
    decreases s.len(),
{
    if idx > 0 {
        assert(forall|i: int| 0 <= i < idx - 1 ==> s.drop_first()[i] == s[i + 1]);
        lemma_key_index_is(s.drop_first(), k, idx - 1);
    }
}

/// `key_index` reads only the keys: two entry sequences with the same keys
/// give the same index.
pub proof fn lemma_key_index_same_keys(s: Seq<KvModel>, t: Seq<KvModel>, k: Seq<char>)
    requires
        s.len() == t.len(),
        forall|i: int| 0 <= i < s.len() ==> s[i].0 == t[i].0,
    ensures
        key_index(s, k) == key_index(t, k),
{
    lemma_key_index(s, k);
    lemma_key_index(t, k);
    if key_index(s, k) >= 0 {
        lemma_key_index_is(t, k, key_index(s, k));
    }
}

/// Inserting preserves key uniqueness.
pub proof fn lemma_kv_insert_unique(s: Seq<KvModel>, k: Seq<char>, v: ValueModel)
    requires
        unique_keys(s),
    ensures
        unique_keys(kv_insert(s, k, v)),
{
    lemma_key_index(s, k);
}

/// Lookup after insert: the inserted key maps to the new value, and every
/// other key maps to what it mapped to before.
pub proof fn lemma_kv_insert_find(s: Seq<KvModel>, k: Seq<char>, v: ValueModel, k2: Seq<char>)
    ensures
        kv_find(kv_insert(s, k, v), k) == Some(v),
        k2 != k ==> kv_find(kv_insert(s, k, v), k2) == kv_find(s, k2),
{
    lemma_key_index(s, k);
    let u = kv_insert(s, k, v);
    if has_key(s, k) {
        let i = key_index(s, k);
        assert(forall|m: int| 0 <= m < s.len() ==> u[m].0 == s[m].0);
        lemma_key_index_is(u, k, i);
        if k2 != k {
            lemma_key_index_same_keys(s, u, k2);
            lemma_key_index(s, k2);
            if key_index(s, k2) >= 0 {
                assert(s[key_index(s, k2)].0 == k2);
                assert(u[key_index(s, k2)] == s[key_index(s, k2)]);
            }
        }
    } else {
        lemma_key_index_is(u, k, s.len() as int);
        if k2 != k {
            lemma_key_index(s, k2);
            lemma_key_index(u, k2);
            if key_index(s, k2) >= 0 {
                lemma_key_index_is(u, k2, key_index(s, k2));
            } else {
                assert(forall|i: int| 0 <= i < u.len() ==> u[i].0 != k2);
            }
        }
    }
}

/// Inserting a key never present appends the entry.
pub proof fn lemma_kv_insert_absent(s: Seq<KvModel>, k: Seq<char>, v: ValueModel)
    requires
        !has_key(s, k),
    ensures
        kv_insert(s, k, v) == s.push((k, v)),
{
}

} // verus!
