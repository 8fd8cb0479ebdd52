//! Ordered name-to-index maps (`indexmap::IndexMap`), as used for root columns and struct
//! fields.
use indexmap::IndexMap;
use vstd::prelude::*;

use crate::arena::ArenaIdx;

verus! {

#[verifier::external_type_specification]
#[verifier::external_body]
#[verifier::reject_recursive_types(K)]
#[verifier::reject_recursive_types(V)]
#[verifier::reject_recursive_types(S)]
pub struct ExIndexMap<K, V, S>(IndexMap<K, V, S>);

/// The entries of an ordered field map: each name with the arena index it maps to, in
/// insertion order.
pub uninterp spec fn field_entries(m: IndexMap<String, ArenaIdx>) -> Seq<(Seq<char>, usize)>;

/// The index mapped to by `key` (the first entry with that name).
pub open spec fn field_lookup(e: Seq<(Seq<char>, usize)>, key: Seq<char>) -> Option<usize>
    decreases e.len(),
{
    if e.len() == 0 {
        None
    } else if e[0].0 == key {
        Some(e[0].1)
    } else {
        field_lookup(e.drop_first(), key)
    }
}

/// The position of the entry named `key` (the first one).
pub open spec fn field_position(e: Seq<(Seq<char>, usize)>, key: Seq<char>) -> Option<int>
    decreases e.len(),
{
    if e.len() == 0 {
        None
    } else if e[0].0 == key {
        Some(0)
    } else {
        match field_position(e.drop_first(), key) {
            Some(p) => Some(p + 1),
            None => None,
        }
    }
}

/// The entries after inserting `key` with `value`: an existing entry keeps its place and takes
/// the new value; a new key goes last.
pub open spec fn field_insert(e: Seq<(Seq<char>, usize)>, key: Seq<char>, value: usize) -> Seq<(Seq<char>, usize)> {
    match field_position(e, key) {
        Some(p) => e.update(p, (key, value)),
        None => e.push((key, value)),
    }
}

/// No name occurs twice.
pub open spec fn unique_names(e: Seq<(Seq<char>, usize)>) -> bool {
    forall|i: int, j: int| 0 <= i < e.len() && 0 <= j < e.len() && i != j ==> e[i].0 != e[j].0
}

/// The indices of the entries, in order.
pub open spec fn field_targets(e: Seq<(Seq<char>, usize)>) -> Seq<usize> {
    e.map_values(|p: (Seq<char>, usize)| p.1)
}

/// The position of a name in ordered entries is its first occurrence, and looking the name up
/// gives the index stored there.
pub proof fn lemma_field_position(e: Seq<(Seq<char>, usize)>, key: Seq<char>)
    ensures
        match field_position(e, key) {
            Some(p) => 0 <= p < e.len() && e[p].0 == key && field_lookup(e, key) == Some(e[p].1)
                && forall|q: int| 0 <= q < p ==> e[q].0 != key,
            None => field_lookup(e, key) is None && forall|q: int| 0 <= q < e.len() ==> e[q].0 != key,
        },
    decreases e.len(),
{
    if e.len() > 0 && e[0].0 != key {
        lemma_field_position(e.drop_first(), key);
        match field_position(e.drop_first(), key) {
            Some(p) => {
                assert forall|q: int| 0 <= q < p + 1 implies e[q].0 != key by {
                    if q > 0 {
                        assert(e[q] == e.drop_first()[q - 1]);
                    }
                }
            },
            None => {
                assert forall|q: int| 0 <= q < e.len() implies e[q].0 != key by {
                    if q > 0 {
                        assert(e[q] == e.drop_first()[q - 1]);
                    }
                }
            },
        }
    }
}

/// With unique names, an entry's name looks up its index.
pub proof fn lemma_unique_lookup(e: Seq<(Seq<char>, usize)>, i: int)
    requires
        unique_names(e),
        0 <= i < e.len(),
    ensures
        field_lookup(e, e[i].0) == Some(e[i].1),
        field_position(e, e[i].0) == Some(i),
{
    lemma_field_position(e, e[i].0);
}

/// Inserting keeps names unique.
pub proof fn lemma_insert_unique(e: Seq<(Seq<char>, usize)>, key: Seq<char>, value: usize)
    requires
        unique_names(e),
    ensures
        unique_names(field_insert(e, key, value)),
        field_lookup(field_insert(e, key, value), key) == Some(value),
{
    lemma_field_position(e, key);
    let r = field_insert(e, key, value);
    match field_position(e, key) {
        Some(p) => {
            assert forall|i: int, j: int| 0 <= i < r.len() && 0 <= j < r.len() && i != j implies r[i].0 != r[j].0 by {
            }
            lemma_unique_lookup(r, p);
        },
        None => {
            assert forall|i: int, j: int| 0 <= i < r.len() && 0 <= j < r.len() && i != j implies r[i].0 != r[j].0 by {
            }
            lemma_unique_lookup(r, e.len() as int);
        },
    }
}

/// Creates an empty map (`IndexMap::new`).
#[verifier::external_body]
pub(crate) fn fields_new() -> (m: IndexMap<String, ArenaIdx>)
    ensures
        field_entries(m) == Seq::<(Seq<char>, usize)>::empty(),
{
    IndexMap::new()
}

/// Looks up a name (`IndexMap::get`): the value of the entry with an equal name.
#[verifier::external_body]
pub(crate) fn fields_get(m: &IndexMap<String, ArenaIdx>, key: &str) -> (r: Option<ArenaIdx>)
    ensures
        match r {
            Some(i) => field_lookup(field_entries(*m), key@) == Some(i.0),
            None => field_lookup(field_entries(*m), key@) is None,
        },
{
    m.get(key).copied()
}

/// Whether a name has an entry (`IndexMap::contains_key`).
#[verifier::external_body]
pub(crate) fn fields_contains(m: &IndexMap<String, ArenaIdx>, key: &str) -> (r: bool)
    ensures
        r == field_lookup(field_entries(*m), key@) is Some,
{
    m.contains_key(key)
}

/// Inserts a name (`IndexMap::insert`): an existing entry keeps its place and takes the new
/// value; a new name is appended last.
#[verifier::external_body]
pub(crate) fn fields_insert(m: &mut IndexMap<String, ArenaIdx>, key: String, value: ArenaIdx)
    ensures
        field_entries(*final(m)) == field_insert(field_entries(*old(m)), key@, value.0),
{
    m.insert(key, value);
}

/// The values in entry order (`IndexMap::values`).
#[verifier::external_body]
pub(crate) fn fields_values(m: &IndexMap<String, ArenaIdx>) -> (r: Vec<ArenaIdx>)
    ensures
        r@.len() == field_entries(*m).len(),
        forall|i: int| 0 <= i < r@.len() ==> r@[i].0 == field_entries(*m)[i].1,
{
    m.values().copied().collect()
}

/// The entries after removing the entry named `key`, if any; later entries move up.
pub open spec fn field_remove(e: Seq<(Seq<char>, usize)>, key: Seq<char>) -> Seq<(Seq<char>, usize)> {
    match field_position(e, key) {
        Some(p) => e.remove(p),
        None => e,
    }
}

/// Reading a name back after inserting it gives the inserted index; every other name reads
/// as before.
pub proof fn lemma_lookup_after_insert(e: Seq<(Seq<char>, usize)>, key: Seq<char>, value: usize, other: Seq<char>)
    ensures
        field_lookup(field_insert(e, key, value), key) == Some(value),
        other != key ==> field_lookup(field_insert(e, key, value), other) == field_lookup(e, other),
{
    let r = field_insert(e, key, value);
    lemma_field_position(e, key);
    lemma_field_position(r, key);
    lemma_field_position(e, other);
    lemma_field_position(r, other);
    match field_position(e, key) {
        Some(p) => {
            assert(r[p].0 == key);
            if let Some(q) = field_position(r, key) {
                if q > p {
                    assert(r[p].0 == key);
                }
            }
            if other != key {
                match field_position(e, other) {
                    Some(q) => {
                        assert(r[q] == e[q]);
                        if let Some(q2) = field_position(r, other) {
                            if q2 < q {
                                assert(r[q2] == e[q2] || q2 == p);
                            }
                        }
                    },
                    None => {
                        assert forall|q: int| 0 <= q < r.len() implies r[q].0 != other by {
                            if q != p {
                                assert(r[q] == e[q]);
                            }
                        }
                    },
                }
            }
        },
        None => {
            assert(r[e.len() as int].0 == key);
            if let Some(q) = field_position(r, key) {
                if q < e.len() {
                    assert(r[q] == e[q]);
                }
            }
            if other != key {
                match field_position(e, other) {
                    Some(q) => {
                        assert(r[q] == e[q]);
                        if let Some(q2) = field_position(r, other) {
                            if q2 < q {
                                assert(r[q2] == e[q2]);
                            }
                        }
                    },
                    None => {
                        assert forall|q: int| 0 <= q < r.len() implies r[q].0 != other by {
                            if q < e.len() {
                                assert(r[q] == e[q]);
                            }
                        }
                    },
                }
            }
        },
    }
}

/// Once a name is removed from entries with unique names, it is no longer found; every other
/// name reads as before.
pub proof fn lemma_lookup_after_remove(e: Seq<(Seq<char>, usize)>, key: Seq<char>, other: Seq<char>)
    requires
        unique_names(e),
    ensures
        field_lookup(field_remove(e, key), key) is None,
        other != key ==> field_lookup(field_remove(e, key), other) == field_lookup(e, other),
{
    let r = field_remove(e, key);
    lemma_field_position(e, key);
    lemma_field_position(r, key);
    lemma_field_position(e, other);
    lemma_field_position(r, other);
    match field_position(e, key) {
        Some(p) => {
            assert forall|q: int| 0 <= q < r.len() implies r[q].0 != key by {
                if q < p {
                    assert(r[q] == e[q]);
                } else {
                    assert(r[q] == e[q + 1]);
                    assert(e[q + 1].0 != e[p].0);
                }
            }
            if other != key {
                match field_position(e, other) {
                    Some(q) => {
                        let q2 = if q < p { q } else { q - 1 };
                        assert(r[q2] == e[q]);
                        if let Some(q3) = field_position(r, other) {
                            if q3 < q2 {
                                assert(r[q3] == e[q3]);
                            }
                        }
                    },
                    None => {
                        assert forall|q: int| 0 <= q < r.len() implies r[q].0 != other by {
                            if q < p {
                                assert(r[q] == e[q]);
                            } else {
                                assert(r[q] == e[q + 1]);
                            }
                        }
                    },
                }
            }
        },
        None => {},
    }
}

/// Removes a name (`IndexMap::shift_remove`): its entry goes, the order of the others stays.
/// Returns the value it had.
#[verifier::external_body]
pub(crate) fn fields_remove(m: &mut IndexMap<String, ArenaIdx>, key: &str) -> (r: Option<ArenaIdx>)
    ensures
        field_entries(*final(m)) == field_remove(field_entries(*old(m)), key@),
        match r {
            Some(i) => field_lookup(field_entries(*old(m)), key@) == Some(i.0),
            None => field_lookup(field_entries(*old(m)), key@) is None,
        },
{
    m.shift_remove(key)
}

/// The number of entries (`IndexMap::len`).
#[verifier::external_body]
pub(crate) fn fields_len(m: &IndexMap<String, ArenaIdx>) -> (r: usize)
    ensures
        r == field_entries(*m).len(),
{
    m.len()
}

} // verus!
