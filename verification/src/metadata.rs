//! DuckLake metadata settings: global ones, and overrides per schema and per table.
use std::collections::HashMap;

use indexmap::IndexMap;
use vstd::prelude::*;

use crate::error::{DucklakeError, DucklakeResult};
use crate::path::{path_is, url_parse_spec, DucklakePath, UrlParse};
use crate::rows::DucklakeMetadata;
use crate::text::{i64_text_spec, parse_i64, parse_u64, str_eq, to_owned_string, u64_text_spec};

verus! {

broadcast use vstd::std_specs::hash::group_hash_axioms;

/// The settings of a scope: each key with its value, in insertion order.
pub uninterp spec fn text_entries(m: IndexMap<String, String>) -> Seq<(Seq<char>, Seq<char>)>;

/// The value of the first entry with key `key`.
pub open spec fn text_lookup(e: Seq<(Seq<char>, Seq<char>)>, key: Seq<char>) -> Option<Seq<char>>
    decreases e.len(),
{
    if e.len() == 0 {
        None
    } else if e[0].0 == key {
        Some(e[0].1)
    } else {
        text_lookup(e.drop_first(), key)
    }
}

/// The position of the first entry with key `key`.
pub open spec fn text_position(e: Seq<(Seq<char>, Seq<char>)>, key: Seq<char>) -> Option<int>
    decreases e.len(),
{
    if e.len() == 0 {
        None
    } else if e[0].0 == key {
        Some(0)
    } else {
        match text_position(e.drop_first(), key) {
            Some(p) => Some(p + 1),
            None => None,
        }
    }
}

/// The entries after setting `key` to `value`: an existing entry keeps its place; a new key
/// goes last.
pub open spec fn text_insert(e: Seq<(Seq<char>, Seq<char>)>, key: Seq<char>, value: Seq<char>) -> Seq<(Seq<char>, Seq<char>)> {
    match text_position(e, key) {
        Some(p) => e.update(p, (key, value)),
        None => e.push((key, value)),
    }
}

/// The entries after removing `key`.
pub open spec fn text_remove(e: Seq<(Seq<char>, Seq<char>)>, key: Seq<char>) -> Seq<(Seq<char>, Seq<char>)> {
    match text_position(e, key) {
        Some(p) => e.remove(p),
        None => e,
    }
}

/// The position of a key in ordered entries is its first occurrence, and looking the key up
/// gives the value stored there.
pub proof fn lemma_text_position(e: Seq<(Seq<char>, Seq<char>)>, key: Seq<char>)
    ensures
        match text_position(e, key) {
            Some(p) => 0 <= p < e.len() && e[p].0 == key && text_lookup(e, key) == Some(e[p].1) && forall|q: int|
                0 <= q < p ==> e[q].0 != key,
            None => text_lookup(e, key) is None && forall|q: int| 0 <= q < e.len() ==> e[q].0 != key,
        },
    decreases e.len(),
{
    if e.len() > 0 && e[0].0 != key {
        lemma_text_position(e.drop_first(), key);
        match text_position(e.drop_first(), key) {
            Some(p) => {
                assert forall|q: int| 0 <= q < p + 1 implies e[q].0 != key by {
                    if q > 0 {
                        assert(e[q] == e.drop_first()[q - 1]);
                    }
                }
            },
            None => {
                assert forall|q: int| 0 <= q < e.len() implies e[q].0 != key by {
                    if q > 0 {
                        assert(e[q] == e.drop_first()[q - 1]);
                    }
                }
            },
        }
    }
}

/// The first entry with a key determines the lookup.
pub proof fn lemma_text_lookup_at(e: Seq<(Seq<char>, Seq<char>)>, key: Seq<char>, p: int)
    requires
        0 <= p < e.len(),
        e[p].0 == key,
        forall|q: int| 0 <= q < p ==> e[q].0 != key,
    ensures
        text_lookup(e, key) == Some(e[p].1),
        text_position(e, key) == Some(p),
    decreases p,
{
    if p > 0 {
        assert forall|q: int| 0 <= q < p - 1 implies e.drop_first()[q].0 != key by {
            assert(e.drop_first()[q] == e[q + 1]);
        }
        lemma_text_lookup_at(e.drop_first(), key, p - 1);
    }
}

/// After setting a key, it looks up the new value, and the other keys look up what they did.
pub proof fn lemma_text_insert(e: Seq<(Seq<char>, Seq<char>)>, key: Seq<char>, value: Seq<char>, other: Seq<char>)
    ensures
        text_lookup(text_insert(e, key, value), key) == Some(value),
        other != key ==> text_lookup(text_insert(e, key, value), other) == text_lookup(e, other),
{
    lemma_text_position(e, key);
    lemma_text_position(e, other);
    let r = text_insert(e, key, value);
    match text_position(e, key) {
        Some(p) => {
            lemma_text_lookup_at(r, key, p);
            if other != key {
                match text_position(e, other) {
                    Some(q) => {
                        lemma_text_lookup_at(r, other, q);
                    },
                    None => {
                        lemma_text_position(r, other);
                        if text_lookup(r, other) is Some {
                            let q = text_position(r, other).unwrap();
                            assert(r[q] == e[q]);
                        }
                    },
                }
            }
        },
        None => {
            lemma_text_lookup_at(r, key, e.len() as int);
            if other != key {
                match text_position(e, other) {
                    Some(q) => {
                        lemma_text_lookup_at(r, other, q);
                    },
                    None => {
                        lemma_text_position(r, other);
                        if text_lookup(r, other) is Some {
                            let q = text_position(r, other).unwrap();
                            assert(r[q] == e[q]);
                        }
                    },
                }
            }
        },
    }
}

/// Creates an empty settings map (`IndexMap::new`).
#[verifier::external_body]
fn texts_new() -> (m: IndexMap<String, String>)
    ensures
        text_entries(m) == Seq::<(Seq<char>, Seq<char>)>::empty(),
{
    IndexMap::new()
}

/// The value of a key (`IndexMap::get`), copied.
#[verifier::external_body]
fn texts_get(m: &IndexMap<String, String>, key: &str) -> (r: Option<String>)
    ensures
        match r {
            Some(v) => text_lookup(text_entries(*m), key@) == Some(v@),
            None => text_lookup(text_entries(*m), key@) is None,
        },
{
    m.get(key).cloned()
}

/// Sets a key (`IndexMap::insert`): an existing entry keeps its place and takes the new
/// value; a new key goes last.
#[verifier::external_body]
fn texts_insert(m: &mut IndexMap<String, String>, key: String, value: String)
    ensures
        text_entries(*final(m)) == text_insert(text_entries(*old(m)), key@, value@),
{
    m.insert(key, value);
}

/// Removes a key (`IndexMap::shift_remove`): the order of the others stays.
#[verifier::external_body]
fn texts_remove(m: &mut IndexMap<String, String>, key: &str)
    ensures
        text_entries(*final(m)) == text_remove(text_entries(*old(m)), key@),
{
    m.shift_remove(key);
}

/// The metadata settings: global ones, and overrides by schema ID and by table ID.
#[derive(Debug)]
pub struct Metadata {
    global: IndexMap<String, String>,
    schema: HashMap<i64, IndexMap<String, String>>,
    table: HashMap<i64, IndexMap<String, String>>,
}

/// Rows of the scope `schema` (`true`) or of another scope (`false`).
pub open spec fn in_scope(row: DucklakeMetadata, schema: bool) -> bool {
    row.scope matches Some(s) && (s@ == "schema"@) == schema
}

/// The global settings of the first `n` rows, later rows overriding earlier ones.
pub open spec fn global_after(rows: Seq<DucklakeMetadata>, n: int) -> Seq<(Seq<char>, Seq<char>)>
    decreases n,
{
    if n <= 0 || n > rows.len() {
        Seq::empty()
    } else if rows[n - 1].scope is None {
        text_insert(global_after(rows, n - 1), rows[n - 1].key@, rows[n - 1].value@)
    } else {
        global_after(rows, n - 1)
    }
}

/// The settings of the first `n` rows for the schema (or table) with ID `id`, if any row is
/// scoped to it.
pub open spec fn scoped_after(rows: Seq<DucklakeMetadata>, n: int, schema: bool, id: i64) -> Option<Seq<(Seq<char>, Seq<char>)>>
    decreases n,
{
    if n <= 0 || n > rows.len() {
        None
    } else if in_scope(rows[n - 1], schema) && rows[n - 1].scope_id == Some(id) {
        let prev = match scoped_after(rows, n - 1, schema, id) {
            Some(e) => e,
            None => Seq::empty(),
        };
        Some(text_insert(prev, rows[n - 1].key@, rows[n - 1].value@))
    } else {
        scoped_after(rows, n - 1, schema, id)
    }
}

/// The keys that cannot be set or unset.
pub open spec fn read_only_key(key: Seq<char>) -> bool {
    key == "version"@ || key == "created_by"@ || key == "table"@ || key == "data_path"@ || key == "encrypted"@
}

/// No setting changed.
pub open spec fn settings_unchanged(before: Metadata, after: Metadata) -> bool {
    &&& after.global_entries() == before.global_entries()
    &&& forall|id: i64| #[trigger] after.schema_entries(id) == before.schema_entries(id)
    &&& forall|id: i64| #[trigger] after.table_entries(id) == before.table_entries(id)
}

impl Metadata {
    pub closed spec fn global_entries(&self) -> Seq<(Seq<char>, Seq<char>)> {
        text_entries(self.global)
    }

    /// The settings of schema `id`, if it has any.
    pub closed spec fn schema_entries(&self, id: i64) -> Option<Seq<(Seq<char>, Seq<char>)>> {
        if self.schema@.contains_key(id) {
            Some(text_entries(self.schema@[id]))
        } else {
            None
        }
    }

    /// The settings of table `id`, if it has any.
    pub closed spec fn table_entries(&self, id: i64) -> Option<Seq<(Seq<char>, Seq<char>)>> {
        if self.table@.contains_key(id) {
            Some(text_entries(self.table@[id]))
        } else {
            None
        }
    }

    /// The value of a setting for a table: its own, else its schema's, else the global one.
    pub open spec fn resolve(&self, key: Seq<char>, schema_id: Option<i64>, table_id: Option<i64>) -> Option<Seq<char>> {
        let t = match table_id {
            Some(t) => match self.table_entries(t) {
                Some(e) => text_lookup(e, key),
                None => None,
            },
            None => None,
        };
        let s = match schema_id {
            Some(s) => match self.schema_entries(s) {
                Some(e) => text_lookup(e, key),
                None => None,
            },
            None => None,
        };
        if t is Some {
            t
        } else if s is Some {
            s
        } else {
            text_lookup(self.global_entries(), key)
        }
    }

    /// The settings stored in the given `ducklake_metadata` rows; for a key set twice in a
    /// scope, the later row wins.
    pub fn new(entries: Vec<DucklakeMetadata>) -> (r: Metadata)
        requires
            forall|i: int| 0 <= i < entries@.len() ==> (#[trigger] entries@[i]).scope is Some ==> entries@[i].scope_id is Some,
        ensures
            r.global_entries() == global_after(entries@, entries@.len() as int),
            forall|id: i64| #[trigger] r.schema_entries(id) == scoped_after(entries@, entries@.len() as int, true, id),
            forall|id: i64| #[trigger] r.table_entries(id) == scoped_after(entries@, entries@.len() as int, false, id),
    {
        let ghost rows = entries@;
        let mut m = Metadata { global: texts_new(), schema: HashMap::new(), table: HashMap::new() };
        let mut i: usize = 0;
        while i < entries.len()
            invariant
                rows == entries@,
                i <= rows.len(),
                forall|k: int| 0 <= k < rows.len() ==> (#[trigger] rows[k]).scope is Some ==> rows[k].scope_id is Some,
                m.global_entries() == global_after(rows, i as int),
                forall|id: i64| #[trigger] m.schema_entries(id) == scoped_after(rows, i as int, true, id),
                forall|id: i64| #[trigger] m.table_entries(id) == scoped_after(rows, i as int, false, id),
            decreases rows.len() - i,
        {
            let e = &entries[i];
            proof {
                reveal_strlit("schema");
            }
            let ghost first = m;
            match &e.scope {
                None => {
                    texts_insert(&mut m.global, e.key.clone(), e.value.clone());
                    assert forall|id: i64| #[trigger] m.schema_entries(id) == scoped_after(rows, i + 1, true, id) by {
                        assert(first.schema_entries(id) == scoped_after(rows, i as int, true, id));
                    }
                    assert forall|id: i64| #[trigger] m.table_entries(id) == scoped_after(rows, i + 1, false, id) by {
                        assert(first.table_entries(id) == scoped_after(rows, i as int, false, id));
                    }
                },
                Some(scope) => {
                    let id = e.scope_id.unwrap();
                    let is_schema = str_eq(scope.as_str(), "schema");
                    let ghost before = m;
                    if is_schema {
                        let entry = m.schema.entry(id).or_insert(texts_new());
                        texts_insert(entry, e.key.clone(), e.value.clone());
                    } else {
                        let entry = m.table.entry(id).or_insert(texts_new());
                        texts_insert(entry, e.key.clone(), e.value.clone());
                    }
                    assert forall|x: i64| #[trigger] m.schema_entries(x) == scoped_after(rows, i + 1, true, x) by {
                        assert(before.schema_entries(x) == scoped_after(rows, i as int, true, x));
                    }
                    assert forall|x: i64| #[trigger] m.table_entries(x) == scoped_after(rows, i + 1, false, x) by {
                        assert(before.table_entries(x) == scoped_after(rows, i as int, false, x));
                    }
                },
            }
            i = i + 1;
        }
        m
    }

    /// The value of a setting for a table (see `resolve`): the table's own setting overrides
    /// its schema's, which overrides the global one.
    pub fn get_key(&self, key: &str, schema_id: Option<i64>, table_id: Option<i64>) -> (r: Option<String>)
        ensures
            match r {
                Some(v) => self.resolve(key@, schema_id, table_id) == Some(v@),
                None => self.resolve(key@, schema_id, table_id) is None,
            },
    {
        if let Some(t) = table_id {
            if let Some(meta) = self.table.get(&t) {
                if let Some(v) = texts_get(meta, key) {
                    return Some(v);
                }
            }
        }
        if let Some(s) = schema_id {
            if let Some(meta) = self.schema.get(&s) {
                if let Some(v) = texts_get(meta, key) {
                    return Some(v);
                }
            }
        }
        texts_get(&self.global, key)
    }

    /// Sets a global setting (in memory); a read-only key is refused.
    pub fn set_global(&mut self, key: String, value: String) -> (r: DucklakeResult<()>)
        ensures
            r is Err <==> read_only_key(key@),
            r matches Err(e) ==> (e matches DucklakeError::ReadOnlyMetadata(k) && k@ == key@) && settings_unchanged(*old(self), *final(self)),
            r is Ok ==> final(self).global_entries() == text_insert(old(self).global_entries(), key@, value@),
            r is Ok ==> forall|id: i64| #[trigger] final(self).schema_entries(id) == old(self).schema_entries(id),
            r is Ok ==> forall|id: i64| #[trigger] final(self).table_entries(id) == old(self).table_entries(id),
    {
        check_writable_key(key.as_str())?;
        texts_insert(&mut self.global, key, value);
        Ok(())
    }

    /// Sets a setting of a schema (in memory); a read-only key is refused.
    pub fn set_schema(&mut self, schema_id: i64, key: String, value: String) -> (r: DucklakeResult<()>)
        ensures
            r is Err <==> read_only_key(key@),
            r matches Err(e) ==> (e matches DucklakeError::ReadOnlyMetadata(k) && k@ == key@) && settings_unchanged(*old(self), *final(self)),
            r is Ok ==> final(self).global_entries() == old(self).global_entries(),
            r is Ok ==> final(self).schema_entries(schema_id) == Some(
                text_insert(
                    match old(self).schema_entries(schema_id) {
                        Some(e) => e,
                        None => Seq::empty(),
                    },
                    key@,
                    value@,
                ),
            ),
            r is Ok ==> forall|id: i64| id != schema_id ==> #[trigger] final(self).schema_entries(id) == old(self).schema_entries(id),
            r is Ok ==> forall|id: i64| #[trigger] final(self).table_entries(id) == old(self).table_entries(id),
    {
        check_writable_key(key.as_str())?;
        let entry = self.schema.entry(schema_id).or_insert(texts_new());
        texts_insert(entry, key, value);
        Ok(())
    }

    /// Sets a setting of a table (in memory); a read-only key is refused.
    pub fn set_table(&mut self, table_id: i64, key: String, value: String) -> (r: DucklakeResult<()>)
        ensures
            r is Err <==> read_only_key(key@),
            r matches Err(e) ==> (e matches DucklakeError::ReadOnlyMetadata(k) && k@ == key@) && settings_unchanged(*old(self), *final(self)),
            r is Ok ==> final(self).global_entries() == old(self).global_entries(),
            r is Ok ==> final(self).table_entries(table_id) == Some(
                text_insert(
                    match old(self).table_entries(table_id) {
                        Some(e) => e,
                        None => Seq::empty(),
                    },
                    key@,
                    value@,
                ),
            ),
            r is Ok ==> forall|id: i64| id != table_id ==> #[trigger] final(self).table_entries(id) == old(self).table_entries(id),
            r is Ok ==> forall|id: i64| #[trigger] final(self).schema_entries(id) == old(self).schema_entries(id),
    {
        check_writable_key(key.as_str())?;
        let entry = self.table.entry(table_id).or_insert(texts_new());
        texts_insert(entry, key, value);
        Ok(())
    }

    /// Removes a global setting (in memory); a read-only key is refused.
    pub fn unset_global(&mut self, key: &str) -> (r: DucklakeResult<()>)
        ensures
            r is Err <==> read_only_key(key@),
            r matches Err(e) ==> (e matches DucklakeError::ReadOnlyMetadata(k) && k@ == key@) && settings_unchanged(*old(self), *final(self)),
            r is Ok ==> final(self).global_entries() == text_remove(old(self).global_entries(), key@),
            r is Ok ==> forall|id: i64| #[trigger] final(self).schema_entries(id) == old(self).schema_entries(id),
            r is Ok ==> forall|id: i64| #[trigger] final(self).table_entries(id) == old(self).table_entries(id),
    {
        check_writable_key(key)?;
        texts_remove(&mut self.global, key);
        Ok(())
    }

    /// Removes a setting of a schema (in memory), if the schema has settings; a read-only key
    /// is refused.
    pub fn unset_schema(&mut self, schema_id: i64, key: &str) -> (r: DucklakeResult<()>)
        ensures
            r is Err <==> read_only_key(key@),
            r matches Err(e) ==> (e matches DucklakeError::ReadOnlyMetadata(k) && k@ == key@) && settings_unchanged(*old(self), *final(self)),
            r is Ok ==> final(self).global_entries() == old(self).global_entries(),
            r is Ok ==> final(self).schema_entries(schema_id) == match old(self).schema_entries(schema_id) {
                Some(e) => Some(text_remove(e, key@)),
                None => None,
            },
            r is Ok ==> forall|id: i64| id != schema_id ==> #[trigger] final(self).schema_entries(id) == old(self).schema_entries(id),
            r is Ok ==> forall|id: i64| #[trigger] final(self).table_entries(id) == old(self).table_entries(id),
    {
        check_writable_key(key)?;
        if self.schema.contains_key(&schema_id) {
            let entry = self.schema.entry(schema_id).or_insert(texts_new());
            texts_remove(entry, key);
        }
        Ok(())
    }

    /// Removes a setting of a table (in memory), if the table has settings; a read-only key is
    /// refused.
    pub fn unset_table(&mut self, table_id: i64, key: &str) -> (r: DucklakeResult<()>)
        ensures
            r is Err <==> read_only_key(key@),
            r matches Err(e) ==> (e matches DucklakeError::ReadOnlyMetadata(k) && k@ == key@) && settings_unchanged(*old(self), *final(self)),
            r is Ok ==> final(self).global_entries() == old(self).global_entries(),
            r is Ok ==> final(self).table_entries(table_id) == match old(self).table_entries(table_id) {
                Some(e) => Some(text_remove(e, key@)),
                None => None,
            },
            r is Ok ==> forall|id: i64| id != table_id ==> #[trigger] final(self).table_entries(id) == old(self).table_entries(id),
            r is Ok ==> forall|id: i64| #[trigger] final(self).schema_entries(id) == old(self).schema_entries(id),
    {
        check_writable_key(key)?;
        if self.table.contains_key(&table_id) {
            let entry = self.table.entry(table_id).or_insert(texts_new());
            texts_remove(entry, key);
        }
        Ok(())
    }

    /// The catalog's data path (the global `data_path` setting, parsed as a path), or the
    /// empty relative path when it is not set.
    pub fn data_path(&self) -> (r: DucklakePath)
        requires
            match text_lookup(self.global_entries(), "data_path"@) {
                Some(v) => !(url_parse_spec(v) is Invalid),
                None => true,
            },
        ensures
            data_path_spec(text_lookup(self.global_entries(), "data_path"@), r),
    {
        proof {
            reveal_strlit("data_path");
        }
        match texts_get(&self.global, "data_path") {
            Some(v) => match DucklakePath::parse(v.as_str()) {
                Ok(p) => p,
                Err(_) => DucklakePath::default(),
            },
            None => DucklakePath::default(),
        }
    }

    /// The catalog's data path, or `None` when the `data_path` setting is a malformed URL.
    pub fn checked_data_path(&self) -> (r: Option<DucklakePath>)
        ensures
            match text_lookup(self.global_entries(), "data_path"@) {
                Some(v) => if url_parse_spec(v) is Invalid {
                    r is None
                } else {
                    r matches Some(p) && data_path_spec(Some(v), p)
                },
                None => r matches Some(p) && data_path_spec(None, p),
            },
    {
        proof {
            reveal_strlit("data_path");
        }
        match texts_get(&self.global, "data_path") {
            Some(v) => match DucklakePath::parse(v.as_str()) {
                Ok(_) => Some(self.data_path()),
                Err(_) => None,
            },
            None => Some(self.data_path()),
        }
    }
}

/// The data path a `data_path` setting gives: the empty relative path when unset; else the URL
/// it parses as, or (for a relative reference) the text as a relative path or a `file:` URL.
pub open spec fn data_path_spec(setting: Option<Seq<char>>, p: DucklakePath) -> bool {
    match setting {
        None => path_is(p, true, Seq::empty()),
        Some(v) => match url_parse_spec(v) {
            UrlParse::Parsed(u) => path_is(p, false, u),
            UrlParse::RelativeWithoutBase => path_is(p, true, v) || (p matches DucklakePath::Absolute(u) && u@.take(7)
                == "file://"@),
            UrlParse::Invalid => false,
        },
    }
}

/// Checks that a setting may be changed: the catalog's version, creator, table, data path and
/// encryption are fixed.
pub fn check_writable_key(key: &str) -> (r: DucklakeResult<()>)
    ensures
        r is Ok <==> !read_only_key(key@),
        r matches Err(e) ==> (e matches DucklakeError::ReadOnlyMetadata(k) && k@ == key@),
{
    if str_eq(key, "version") || str_eq(key, "created_by") || str_eq(key, "table") || str_eq(key, "data_path") || str_eq(
        key,
        "encrypted",
    ) {
        return Err(DucklakeError::ReadOnlyMetadata(to_owned_string(key)));
    }
    Ok(())
}

/// The settings that apply to writing a table, resolved from its own, its schema's and the
/// global settings, with DuckLake's defaults. The delete-rewrite threshold (a fraction) is
/// kept as its setting's text.
#[derive(Debug)]
pub struct TableSettings {
    pub data_inlining_row_limit: u64,
    pub target_file_size: u64,
    pub parquet_row_group_size_bytes: Option<u64>,
    pub parquet_row_group_size: u64,
    pub parquet_compression: String,
    pub parquet_compression_level: i64,
    pub parquet_version: i64,
    pub hive_file_pattern: bool,
    pub rewrite_delete_threshold: Option<String>,
    pub auto_compact: bool,
}

/// The text of an optional string.
pub open spec fn opt_view(o: Option<String>) -> Option<Seq<char>> {
    match o {
        Some(s) => Some(s@),
        None => None,
    }
}

/// A numeric setting: its value when set and valid, else the default.
pub open spec fn u64_setting(v: Option<Seq<char>>, default: u64) -> u64 {
    match v {
        Some(s) => match u64_text_spec(s) {
            Some(x) => x,
            None => default,
        },
        None => default,
    }
}

pub open spec fn i64_setting(v: Option<Seq<char>>, default: i64) -> i64 {
    match v {
        Some(s) => match i64_text_spec(s) {
            Some(x) => x,
            None => default,
        },
        None => default,
    }
}

/// A flag setting: whether it reads `true` when set, else the default.
pub open spec fn bool_setting(v: Option<Seq<char>>, default: bool) -> bool {
    match v {
        Some(s) => s == "true"@,
        None => default,
    }
}

fn u64_or(v: Option<String>, default: u64) -> (r: u64)
    ensures
        r == u64_setting(opt_view(v), default),
{
    match v {
        Some(s) => match parse_u64(s.as_str()) {
            Some(x) => x,
            None => default,
        },
        None => default,
    }
}

fn i64_or(v: Option<String>, default: i64) -> (r: i64)
    ensures
        r == i64_setting(opt_view(v), default),
{
    match v {
        Some(s) => match parse_i64(s.as_str()) {
            Some(x) => x,
            None => default,
        },
        None => default,
    }
}

fn bool_or(v: Option<String>, default: bool) -> (r: bool)
    ensures
        r == bool_setting(opt_view(v), default),
{
    proof {
        reveal_strlit("true");
    }
    match v {
        Some(s) => str_eq(s.as_str(), "true"),
        None => default,
    }
}

impl Metadata {
    /// The settings that apply to writing a table (see `TableSettings`).
    pub fn table_metadata(&self, schema_id: Option<i64>, table_id: Option<i64>) -> (r: TableSettings)
        ensures
            r.data_inlining_row_limit == u64_setting(self.resolve("data_inlining_row_limit"@, schema_id, table_id), 10),
            r.target_file_size == u64_setting(self.resolve("target_file_size"@, schema_id, table_id), 536870912),
            r.parquet_row_group_size_bytes == match self.resolve("parquet_row_group_size_bytes"@, schema_id, table_id) {
                Some(s) => u64_text_spec(s),
                None => None,
            },
            r.parquet_row_group_size == u64_setting(self.resolve("parquet_row_group_size"@, schema_id, table_id), 122880),
            r.parquet_compression@ == match self.resolve("parquet_compression"@, schema_id, table_id) {
                Some(s) => s,
                None => "snappy"@,
            },
            r.parquet_compression_level == i64_setting(self.resolve("parquet_compression_level"@, schema_id, table_id), 3),
            r.parquet_version == i64_setting(self.resolve("parquet_version"@, schema_id, table_id), 1),
            r.hive_file_pattern == bool_setting(self.resolve("hive_file_pattern"@, schema_id, table_id), true),
            opt_view(r.rewrite_delete_threshold) == self.resolve("rewrite_delete_threshold"@, schema_id, table_id),
            r.auto_compact == bool_setting(self.resolve("auto_compact"@, schema_id, table_id), true),
    {
        let row_group_bytes = match self.get_key("parquet_row_group_size_bytes", schema_id, table_id) {
            Some(s) => parse_u64(s.as_str()),
            None => None,
        };
        let compression = match self.get_key("parquet_compression", schema_id, table_id) {
            Some(s) => s,
            None => to_owned_string("snappy"),
        };
        proof {
            reveal_strlit("snappy");
        }
        TableSettings {
            data_inlining_row_limit: u64_or(self.get_key("data_inlining_row_limit", schema_id, table_id), 10),
            target_file_size: u64_or(self.get_key("target_file_size", schema_id, table_id), 536870912),
            parquet_row_group_size_bytes: row_group_bytes,
            parquet_row_group_size: u64_or(self.get_key("parquet_row_group_size", schema_id, table_id), 122880),
            parquet_compression: compression,
            parquet_compression_level: i64_or(self.get_key("parquet_compression_level", schema_id, table_id), 3),
            parquet_version: i64_or(self.get_key("parquet_version", schema_id, table_id), 1),
            hive_file_pattern: bool_or(self.get_key("hive_file_pattern", schema_id, table_id), true),
            rewrite_delete_threshold: self.get_key("rewrite_delete_threshold", schema_id, table_id),
            auto_compact: bool_or(self.get_key("auto_compact", schema_id, table_id), true),
        }
    }
}

/// A table's setting overrides its schema's, which overrides the global one: after setting a
/// key for a table, resolving it for that table gives the new value, whatever the schema and
/// global settings are.
pub proof fn lemma_table_setting_wins(before: Metadata, after: Metadata, table_id: i64, schema_id: Option<i64>, key: Seq<char>, value: Seq<char>)
    requires
        after.table_entries(table_id) == Some(
            text_insert(
                match before.table_entries(table_id) {
                    Some(e) => e,
                    None => Seq::empty(),
                },
                key,
                value,
            ),
        ),
    ensures
        after.resolve(key, schema_id, Some(table_id)) == Some(value),
{
    let e = match before.table_entries(table_id) {
        Some(e) => e,
        None => Seq::empty(),
    };
    lemma_text_insert(e, key, value, key);
}

/// Without a table setting of its own, a table's setting is its schema's, if set, else the
/// global one.
pub proof fn lemma_schema_setting_wins(m: Metadata, table_id: Option<i64>, schema_id: i64, key: Seq<char>)
    requires
        match table_id {
            Some(t) => match m.table_entries(t) {
                Some(e) => text_lookup(e, key) is None,
                None => true,
            },
            None => true,
        },
        m.schema_entries(schema_id) matches Some(e) && text_lookup(e, key) is Some,
    ensures
        m.resolve(key, Some(schema_id), table_id) == text_lookup(m.schema_entries(schema_id).unwrap(), key),
{
}

/// No key occurs twice.
pub open spec fn text_unique(e: Seq<(Seq<char>, Seq<char>)>) -> bool {
    forall|i: int, j: int| 0 <= i < e.len() && 0 <= j < e.len() && i != j ==> e[i].0 != e[j].0
}

/// Once a key is removed from entries with unique keys, it is no longer found.
proof fn lemma_text_remove(e: Seq<(Seq<char>, Seq<char>)>, key: Seq<char>)
    requires
        text_unique(e),
    ensures
        text_lookup(text_remove(e, key), key) is None,
{
    lemma_text_position(e, key);
    let r = text_remove(e, key);
    lemma_text_position(r, key);
    if let Some(p) = text_position(e, key) {
        if let Some(q) = text_position(r, key) {
            if q < p {
                assert(r[q] == e[q]);
            } else {
                assert(r[q] == e[q + 1]);
            }
        }
    }
}

/// Unsetting a table's setting lets its schema's (or else the global) setting apply again.
pub proof fn lemma_unset_table_setting_falls_back(before: Metadata, after: Metadata, table_id: i64, schema_id: Option<i64>, key: Seq<char>)
    requires
        before.table_entries(table_id) matches Some(e) ==> text_unique(e),
        after.table_entries(table_id) == match before.table_entries(table_id) {
            Some(e) => Some(text_remove(e, key)),
            None => None,
        },
        forall|id: i64| #[trigger] after.schema_entries(id) == before.schema_entries(id),
        after.global_entries() == before.global_entries(),
    ensures
        after.resolve(key, schema_id, Some(table_id)) == before.resolve(key, schema_id, None),
{
    if let Some(e) = before.table_entries(table_id) {
        lemma_text_remove(e, key);
    }
    if let Some(s) = schema_id {
        assert(after.schema_entries(s) == before.schema_entries(s));
    }
}

} // verus!
