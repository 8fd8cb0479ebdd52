//! Key-value tags of schemas, tables and columns: at most one tag per key is kept by upserts.
use vstd::prelude::*;

use crate::dtype::Tag;
use crate::error::{DucklakeError, DucklakeResult};
use crate::text::{str_eq, to_owned_string};

verus! {

/// The tags of `s` whose key is not `k`, in order.
pub open spec fn without_key(s: Seq<Tag>, k: Seq<char>) -> Seq<Tag>
    decreases s.len(),
{
    if s.len() == 0 {
        Seq::empty()
    } else if s.last().key@ == k {
        without_key(s.drop_last(), k)
    } else {
        without_key(s.drop_last(), k).push(s.last())
    }
}

/// Whether some tag of `s` has key `k`.
pub open spec fn has_key(s: Seq<Tag>, k: Seq<char>) -> bool {
    exists|i: int| 0 <= i < s.len() && #[trigger] s[i].key@ == k
}

/// The tags of `s` without those with key `k`, and whether there were any.
fn filter_key(s: &Vec<Tag>, k: &str) -> (r: (Vec<Tag>, bool))
    ensures
        r.0@ == without_key(s@, k@),
        r.1 == has_key(s@, k@),
{
    let mut out: Vec<Tag> = Vec::new();
    let mut found = false;
    let mut i: usize = 0;
    while i < s.len()
        invariant
            i <= s@.len(),
            out@ == without_key(s@.take(i as int), k@),
            found == has_key(s@.take(i as int), k@),
        decreases s@.len() - i,
    {
        let ghost prev = s@.take(i as int);
        assert(s@.take(i + 1).drop_last() =~= prev);
        assert(s@.take(i + 1).last() == s@[i as int]);
        if str_eq(s[i].key.as_str(), k) {
            found = true;
            assert(s@.take(i + 1)[i as int].key@ == k@);
        } else {
            out.push(s[i].duplicate());
            assert(has_key(s@.take(i + 1), k@) ==> has_key(prev, k@)) by {
                if has_key(s@.take(i + 1), k@) {
                    let j = choose|j: int| 0 <= j < i + 1 && #[trigger] s@.take(i + 1)[j].key@ == k@;
                    assert(prev[j].key@ == k@);
                }
            }
        }
        if found {
            assert(has_key(s@.take(i + 1), k@)) by {
                if has_key(prev, k@) {
                    let j = choose|j: int| 0 <= j < i && #[trigger] prev[j].key@ == k@;
                    assert(s@.take(i + 1)[j].key@ == k@);
                } else {
                    assert(s@.take(i + 1)[i as int].key@ == k@);
                }
            }
        }
        i = i + 1;
    }
    assert(s@.take(s@.len() as int) =~= s@);
    (out, found)
}

/// Sets a tag: any tag with the same key is dropped, and the new tag goes last.
pub fn upsert_tag(tags: &mut Vec<Tag>, tag: Tag)
    ensures
        final(tags)@ == without_key(old(tags)@, tag.key@).push(tag),
{
    let (mut kept, _) = filter_key(tags, tag.key.as_str());
    kept.push(tag);
    *tags = kept;
}

/// Removes the tags with the given key; fails when there is none.
pub fn remove_tag(tags: &mut Vec<Tag>, key: &str) -> (r: DucklakeResult<()>)
    ensures
        r is Ok <==> has_key(old(tags)@, key@),
        r is Ok ==> final(tags)@ == without_key(old(tags)@, key@),
        r matches Err(e) ==> final(tags)@ == old(tags)@ && (e matches DucklakeError::NotFound { entity, name } && entity@
            == "tag"@ && name@ == key@),
{
    let (kept, found) = filter_key(tags, key);
    if !found {
        return Err(DucklakeError::NotFound { entity: "tag", name: to_owned_string(key) });
    }
    *tags = kept;
    Ok(())
}

/// No tag of `without_key(s, k)` has key `k`, and every other tag of `s` stays.
pub proof fn lemma_without_key(s: Seq<Tag>, k: Seq<char>)
    ensures
        !has_key(without_key(s, k), k),
        forall|t: Tag| t.key@ != k ==> (#[trigger] without_key(s, k).contains(t) <==> s.contains(t)),
        !has_key(s, k) ==> without_key(s, k) == s,
    decreases s.len(),
{
    if s.len() > 0 {
        let p = s.drop_last();
        lemma_without_key(p, k);
        let w = without_key(s, k);
        let wp = without_key(p, k);
        assert(s =~= p.push(s.last()));
        if s.last().key@ == k {
            assert(w == wp);
            assert forall|t: Tag| t.key@ != k implies (#[trigger] w.contains(t) <==> s.contains(t)) by {
                if s.contains(t) {
                    let i = choose|i: int| 0 <= i < s.len() && s[i] == t;
                    assert(p[i] == t);
                    assert(p.contains(t));
                }
                if p.contains(t) {
                    let i = choose|i: int| 0 <= i < p.len() && p[i] == t;
                    assert(s[i] == t);
                }
            }
            assert(has_key(s, k)) by {
                assert(s[s.len() - 1].key@ == k);
            }
        } else {
            assert(w == wp.push(s.last()));
            assert(!has_key(w, k)) by {
                if has_key(w, k) {
                    let i = choose|i: int| 0 <= i < w.len() && #[trigger] w[i].key@ == k;
                    if i < wp.len() {
                        assert(wp[i].key@ == k);
                    }
                }
            }
            assert forall|t: Tag| t.key@ != k implies (#[trigger] w.contains(t) <==> s.contains(t)) by {
                if s.contains(t) {
                    let i = choose|i: int| 0 <= i < s.len() && s[i] == t;
                    if i < p.len() {
                        assert(p[i] == t);
                        assert(p.contains(t));
                        assert(wp.contains(t));
                        let j = choose|j: int| 0 <= j < wp.len() && wp[j] == t;
                        assert(w[j] == t);
                    } else {
                        assert(w[wp.len() as int] == t);
                    }
                }
                if w.contains(t) {
                    let i = choose|i: int| 0 <= i < w.len() && w[i] == t;
                    if i < wp.len() {
                        assert(wp[i] == t);
                        assert(wp.contains(t));
                        let j = choose|j: int| 0 <= j < p.len() && p[j] == t;
                        assert(s[j] == t);
                    } else {
                        assert(s[s.len() - 1] == t);
                    }
                }
            }
            if !has_key(s, k) {
                assert(!has_key(p, k)) by {
                    if has_key(p, k) {
                        let i = choose|i: int| 0 <= i < p.len() && #[trigger] p[i].key@ == k;
                        assert(s[i].key@ == k);
                    }
                }
            }
        }
    }
}

/// After setting a tag, it is the only one with its key, it comes last, and the tags with
/// other keys are those of before.
pub proof fn lemma_upsert_unique(s: Seq<Tag>, tag: Tag)
    ensures
        ({
            let r = without_key(s, tag.key@).push(tag);
            &&& r.last() == tag
            &&& forall|i: int| 0 <= i < r.len() - 1 ==> #[trigger] r[i].key@ != tag.key@
            &&& forall|t: Tag| t.key@ != tag.key@ ==> (#[trigger] r.contains(t) <==> s.contains(t))
        }),
{
    lemma_without_key(s, tag.key@);
    let w = without_key(s, tag.key@);
    let r = w.push(tag);
    assert forall|i: int| 0 <= i < r.len() - 1 implies #[trigger] r[i].key@ != tag.key@ by {
        assert(r[i] == w[i]);
        if w[i].key@ == tag.key@ {
            assert(has_key(w, tag.key@));
        }
    }
    assert forall|t: Tag| t.key@ != tag.key@ implies (#[trigger] r.contains(t) <==> s.contains(t)) by {
        if r.contains(t) {
            let i = choose|i: int| 0 <= i < r.len() && r[i] == t;
            assert(i < w.len());
            assert(w[i] == t);
            assert(w.contains(t));
        }
        if w.contains(t) {
            let i = choose|i: int| 0 <= i < w.len() && w[i] == t;
            assert(r[i] == t);
        }
    }
}

/// Setting the same tag twice is the same as setting it once.
pub proof fn lemma_upsert_idempotent(s: Seq<Tag>, tag: Tag)
    ensures
        without_key(without_key(s, tag.key@).push(tag), tag.key@).push(tag) == without_key(s, tag.key@).push(tag),
{
    lemma_without_key(s, tag.key@);
    let w = without_key(s, tag.key@);
    let r = w.push(tag);
    assert(r.drop_last() =~= w);
    assert(without_key(r, tag.key@) == without_key(w, tag.key@));
    lemma_without_key(w, tag.key@);
}

/// Removing a key after setting a tag with it leaves exactly the other tags of before.
pub proof fn lemma_remove_after_upsert(s: Seq<Tag>, tag: Tag)
    ensures
        has_key(without_key(s, tag.key@).push(tag), tag.key@),
        without_key(without_key(s, tag.key@).push(tag), tag.key@) == without_key(s, tag.key@),
{
    lemma_without_key(s, tag.key@);
    let w = without_key(s, tag.key@);
    let r = w.push(tag);
    assert(r[r.len() - 1].key@ == tag.key@);
    assert(r.drop_last() =~= w);
    lemma_without_key(w, tag.key@);
}

} // verus!
