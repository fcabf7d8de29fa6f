//! String-keyed tables held as vectors of `(key, value)` pairs.
//!
//! A table maps each key to the value of its first entry; the operations
//! below keep at most one entry per key, so that first entry is the only one.

use vstd::prelude::*;

verus! {

broadcast use vstd::string::group_string_axioms;

/// Position of the first entry with key `k`, or `s.len()` when there is none.
pub open spec fn key_pos<V>(s: Seq<(String, V)>, k: Seq<char>) -> nat
    decreases s.len(),
{
    if s.len() == 0 {
        0
    } else if s[0].0@ == k {
        0
    } else {
        1 + key_pos(s.drop_first(), k)
    }
}

pub open spec fn has_key<V>(s: Seq<(String, V)>, k: Seq<char>) -> bool {
    key_pos(s, k) < s.len()
}

/// The value stored under `k`.
pub open spec fn get<V>(s: Seq<(String, V)>, k: Seq<char>) -> Option<V> {
    if has_key(s, k) {
        Some(s[key_pos(s, k) as int].1)
    } else {
        None
    }
}

/// The table after storing `v` under `k`: the entry is replaced in place, or
/// appended when the key is new.
pub open spec fn put<V>(s: Seq<(String, V)>, k: String, v: V) -> Seq<(String, V)> {
    if has_key(s, k@) {
        s.update(key_pos(s, k@) as int, (s[key_pos(s, k@) as int].0, v))
    } else {
        s.push((k, v))
    }
}

/// The table without the entry of `k`.
pub open spec fn del<V>(s: Seq<(String, V)>, k: Seq<char>) -> Seq<(String, V)> {
    if has_key(s, k) {
        s.remove(key_pos(s, k) as int)
    } else {
        s
    }
}

/// No two entries share a key.
pub open spec fn unique_keys<V>(s: Seq<(String, V)>) -> bool {
    forall|i: int, j: int| 0 <= i < j < s.len() ==> (#[trigger] s[i]).0@ != (#[trigger] s[j]).0@
}

/// The set of keys.
pub open spec fn keys<V>(s: Seq<(String, V)>) -> Set<Seq<char>> {
    Set::new(|k: Seq<char>| has_key(s, k))
}

/// `key_pos` is the first position holding the key.
pub proof fn lemma_key_pos<V>(s: Seq<(String, V)>, k: Seq<char>, i: int)
    requires
        0 <= i <= s.len(),
        forall|j: int| 0 <= j < i ==> (#[trigger] s[j]).0@ != k,
        i == s.len() || s[i].0@ == k,
    ensures
        key_pos(s, k) == i,
    decreases s.len(),
{
    if s.len() > 0 && i > 0 {
        assert forall|j: int| 0 <= j < i - 1 implies (#[trigger] s.drop_first()[j]).0@ != k by {
            assert(s.drop_first()[j] == s[j + 1]);
        }
        lemma_key_pos(s.drop_first(), k, i - 1);
    }
}

/// `key_pos` is at most the length, and no earlier entry carries the key.
pub proof fn lemma_key_pos_facts<V>(s: Seq<(String, V)>, k: Seq<char>)
    ensures
        key_pos(s, k) <= s.len(),
        forall|j: int| 0 <= j < key_pos(s, k) ==> (#[trigger] s[j]).0@ != k,
        key_pos(s, k) < s.len() ==> s[key_pos(s, k) as int].0@ == k,
    decreases s.len(),
{
    if s.len() > 0 && s[0].0@ != k {
        lemma_key_pos_facts(s.drop_first(), k);
        assert forall|j: int| 0 <= j < key_pos(s, k) implies (#[trigger] s[j]).0@ != k by {
            if j > 0 {
                assert(s[j] == s.drop_first()[j - 1]);
            }
        }
    }
}

/// Storing keeps keys unique, and a read of the key gives the stored value.
pub proof fn lemma_put<V>(s: Seq<(String, V)>, k: String, v: V)
    ensures
        unique_keys(s) ==> unique_keys(put(s, k, v)),
        get(put(s, k, v), k@) == Some(v),
        forall|q: Seq<char>| q != k@ ==> get(#[trigger] put(s, k, v), q) == get(s, q),
        keys(put(s, k, v)) == keys(s).insert(k@),
{
    let t = put(s, k, v);
    lemma_key_pos_facts(s, k@);
    if has_key(s, k@) {
        let p = key_pos(s, k@) as int;
        assert(t.len() == s.len());
        assert forall|j: int| 0 <= j < t.len() implies (#[trigger] t[j]).0@ == s[j].0@ by {}
        lemma_key_pos(t, k@, p);
        assert forall|q: Seq<char>| q != k@ implies get(#[trigger] put(s, k, v), q) == get(s, q) by {
            lemma_key_pos_facts(s, q);
            let i = key_pos(s, q) as int;
            lemma_key_pos(t, q, i);
        }
        assert forall|q: Seq<char>| #[trigger] keys(t).contains(q) <==> keys(s).insert(k@).contains(q) by {
            lemma_key_pos_facts(s, q);
            lemma_key_pos(t, q, key_pos(s, q) as int);
        }
    } else {
        assert forall|j: int| 0 <= j < s.len() implies (#[trigger] t[j]) == s[j] by {}
        lemma_key_pos(t, k@, s.len() as int);
        assert forall|q: Seq<char>| q != k@ implies get(#[trigger] put(s, k, v), q) == get(s, q) by {
            lemma_key_pos_facts(s, q);
            let i = key_pos(s, q) as int;
            if i < s.len() {
                lemma_key_pos(t, q, i);
            } else {
                lemma_key_pos(t, q, t.len() as int);
            }
        }
        assert forall|q: Seq<char>| #[trigger] keys(t).contains(q) <==> keys(s).insert(k@).contains(q) by {
            lemma_key_pos_facts(s, q);
            let i = key_pos(s, q) as int;
            if i < s.len() {
                lemma_key_pos(t, q, i);
            } else if q == k@ {
            } else {
                lemma_key_pos(t, q, t.len() as int);
            }
        }
        if unique_keys(s) {
            assert forall|i: int, j: int| 0 <= i < j < t.len() implies (#[trigger] t[i]).0@ != (
            #[trigger] t[j]).0@ by {
                if j == s.len() {
                    assert(t[i] == s[i]);
                }
            }
        }
    }
    assert(keys(t) =~= keys(s).insert(k@));
}

/// Removing keeps keys unique; with unique keys the key is gone afterwards
/// and every other key reads as before.
pub proof fn lemma_del<V>(s: Seq<(String, V)>, k: Seq<char>)
    requires
        unique_keys(s),
    ensures
        unique_keys(del(s, k)),
        get(del(s, k), k) is None,
        forall|q: Seq<char>| q != k ==> get(#[trigger] del(s, k), q) == get(s, q),
        keys(del(s, k)) == keys(s).remove(k),
{
    let t = del(s, k);
    lemma_key_pos_facts(s, k);
    if has_key(s, k) {
        let p = key_pos(s, k) as int;
        assert forall|i: int, j: int| 0 <= i < j < t.len() implies (#[trigger] t[i]).0@ != (
        #[trigger] t[j]).0@ by {
            let a = if i < p { i } else { i + 1 };
            let b = if j < p { j } else { j + 1 };
            assert(t[i] == s[a]);
            assert(t[j] == s[b]);
        }
        assert forall|j: int| 0 <= j < t.len() implies (#[trigger] t[j]).0@ != k by {
            let b = if j < p { j } else { j + 1 };
            assert(t[j] == s[b]);
        }
        lemma_key_pos(t, k, t.len() as int);
        assert forall|q: Seq<char>| q != k implies get(#[trigger] del(s, k), q) == get(s, q) by {
            lemma_key_pos_facts(s, q);
            let i = key_pos(s, q) as int;
            if i < s.len() {
                let ti = if i < p { i } else { i - 1 };
                assert(i != p);
                assert forall|j: int| 0 <= j < ti implies (#[trigger] t[j]).0@ != q by {
                    let b = if j < p { j } else { j + 1 };
                    assert(t[j] == s[b]);
                }
                assert(t[ti] == s[i]);
                lemma_key_pos(t, q, ti);
            } else {
                assert forall|j: int| 0 <= j < t.len() implies (#[trigger] t[j]).0@ != q by {
                    let b = if j < p { j } else { j + 1 };
                    assert(t[j] == s[b]);
                }
                lemma_key_pos(t, q, t.len() as int);
            }
        }
        assert forall|q: Seq<char>| #[trigger] keys(t).contains(q) <==> keys(s).remove(k).contains(q) by {
            if q != k {
                assert(get(del(s, k), q) == get(s, q));
            }
        }
    } else {
        assert forall|q: Seq<char>| #[trigger] keys(t).contains(q) <==> keys(s).remove(k).contains(q) by {}
    }
    assert(keys(t) =~= keys(s).remove(k));
}

/// Position of the entry of `k`.
pub fn find<V>(s: &Vec<(String, V)>, k: &str) -> (r: Option<usize>)
    ensures
        match r {
            Some(i) => i == key_pos(s@, k@) && i < s@.len(),
            None => key_pos(s@, k@) == s@.len(),
        },
{
    let mut i: usize = 0;
    while i < s.len()
        invariant
            i <= s@.len(),
            forall|j: int| 0 <= j < i ==> (#[trigger] s@[j]).0@ != k@,
        decreases s.len() - i,
    {
        if crate::text::str_eq(s[i].0.as_str(), k) {
            proof {
                lemma_key_pos(s@, k@, i as int);
            }
            return Some(i);
        }
        i = i + 1;
    }
    proof {
        lemma_key_pos(s@, k@, i as int);
    }
    None
}

/// Does the table hold `k`?
pub fn contains<V>(s: &Vec<(String, V)>, k: &str) -> (r: bool)
    ensures
        r == has_key(s@, k@),
{
    find(s, k).is_some()
}

/// The value stored under `k`.
pub fn get_ref<'a, V>(s: &'a Vec<(String, V)>, k: &str) -> (r: Option<&'a V>)
    ensures
        match r {
            Some(v) => get(s@, k@) == Some(*v),
            None => get(s@, k@) is None,
        },
{
    match find(s, k) {
        Some(i) => Some(&s[i].1),
        None => None,
    }
}

/// Stores `v` under `k`.
pub fn insert<V>(s: &mut Vec<(String, V)>, k: String, v: V)
    ensures
        final(s)@ == put(old(s)@, k, v),
{
    match find(s, k.as_str()) {
        Some(i) => {
            let key = s.remove(i);
            s.insert(i, (key.0, v));
            assert(s@ =~= put(old(s)@, k, v));
        },
        None => {
            s.push((k, v));
        },
    }
}

/// Removes the entry of `k`, giving back its value.
pub fn remove<V>(s: &mut Vec<(String, V)>, k: &str) -> (r: Option<V>)
    ensures
        final(s)@ == del(old(s)@, k@),
        r == get(old(s)@, k@),
{
    match find(s, k) {
        Some(i) => {
            let entry = s.remove(i);
            Some(entry.1)
        },
        None => None,
    }
}


/// The entries of `a` whose key `b` does not hold.
pub open spec fn keys_not_in<V>(a: Seq<(String, V)>, b: Seq<(String, V)>) -> Seq<(String, V)>
    decreases a.len(),
{
    if a.len() == 0 {
        Seq::empty()
    } else if has_key(b, a[0].0@) {
        keys_not_in(a.drop_first(), b)
    } else {
        seq![a[0]] + keys_not_in(a.drop_first(), b)
    }
}

/// `BTreeMap::extend` on key-ordered entries: the entries of `update`, then
/// those of `existing` under keys that `update` does not have.
pub open spec fn extend<V>(existing: Seq<(String, V)>, update: Seq<(String, V)>) -> Seq<(String, V)> {
    update + keys_not_in(existing, update)
}

// ---------------------------------------------------------------------------
// Tables as plain values
// ---------------------------------------------------------------------------

/// Position of the first entry with key `k` in a table of plain values.
pub open spec fn pos<K, V>(s: Seq<(K, V)>, k: K) -> nat
    decreases s.len(),
{
    if s.len() == 0 {
        0
    } else if s[0].0 == k {
        0
    } else {
        1 + pos(s.drop_first(), k)
    }
}

pub open spec fn vhas<K, V>(s: Seq<(K, V)>, k: K) -> bool {
    pos(s, k) < s.len()
}

pub open spec fn vget<K, V>(s: Seq<(K, V)>, k: K) -> Option<V> {
    if vhas(s, k) {
        Some(s[pos(s, k) as int].1)
    } else {
        None
    }
}

/// Stores `v` under `k`: in place, or appended for a new key.
pub open spec fn vput<K, V>(s: Seq<(K, V)>, k: K, v: V) -> Seq<(K, V)> {
    if vhas(s, k) {
        s.update(pos(s, k) as int, (k, v))
    } else {
        s.push((k, v))
    }
}

/// The keys of a table, as plain values, agree position by position.
pub open spec fn same_keys<V, W>(t: Seq<(String, V)>, v: Seq<(Seq<char>, W)>) -> bool {
    t.len() == v.len() && forall|i: int| 0 <= i < t.len() ==> (#[trigger] t[i]).0@ == v[i].0
}

pub proof fn lemma_pos<K, V>(s: Seq<(K, V)>, k: K, i: int)
    requires
        0 <= i <= s.len(),
        forall|j: int| 0 <= j < i ==> (#[trigger] s[j]).0 != k,
        i == s.len() || s[i].0 == k,
    ensures
        pos(s, k) == i,
    decreases s.len(),
{
    if s.len() > 0 && i > 0 {
        assert forall|j: int| 0 <= j < i - 1 implies (#[trigger] s.drop_first()[j]).0 != k by {
            assert(s.drop_first()[j] == s[j + 1]);
        }
        lemma_pos(s.drop_first(), k, i - 1);
    }
}

/// A table and its plain-value image find a key at the same position.
pub proof fn lemma_same_pos<V, W>(t: Seq<(String, V)>, v: Seq<(Seq<char>, W)>, k: Seq<char>)
    requires
        same_keys(t, v),
    ensures
        pos(v, k) == key_pos(t, k),
{
    lemma_key_pos_facts(t, k);
    let i = key_pos(t, k) as int;
    assert forall|j: int| 0 <= j < i implies (#[trigger] v[j]).0 != k by {
        assert(t[j].0@ == v[j].0);
    }
    if i < t.len() {
        assert(t[i].0@ == v[i].0);
    }
    lemma_pos(v, k, i);
}

/// No two entries of a plain-value table share a key.
pub open spec fn vunique<K, V>(s: Seq<(K, V)>) -> bool {
    forall|i: int, j: int| 0 <= i < j < s.len() ==> (#[trigger] s[i]).0 != (#[trigger] s[j]).0
}

/// `pos` is at most the length, and no earlier entry carries the key.
pub proof fn lemma_pos_facts<K, V>(s: Seq<(K, V)>, k: K)
    ensures
        pos(s, k) <= s.len(),
        forall|j: int| 0 <= j < pos(s, k) ==> (#[trigger] s[j]).0 != k,
        pos(s, k) < s.len() ==> s[pos(s, k) as int].0 == k,
    decreases s.len(),
{
    if s.len() > 0 && s[0].0 != k {
        lemma_pos_facts(s.drop_first(), k);
        assert forall|j: int| 0 <= j < pos(s, k) implies (#[trigger] s[j]).0 != k by {
            if j > 0 {
                assert(s[j] == s.drop_first()[j - 1]);
            }
        }
    }
}

/// Storing into a plain-value table keeps its keys unique.
pub proof fn lemma_vput_unique<K, V>(s: Seq<(K, V)>, k: K, v: V)
    requires
        vunique(s),
    ensures
        vunique(vput(s, k, v)),
{
    lemma_pos_facts(s, k);
    let t = vput(s, k, v);
    if vhas(s, k) {
        let p = pos(s, k) as int;
        assert forall|i: int, j: int| 0 <= i < j < t.len() implies (#[trigger] t[i]).0 != (#[trigger] t[j]).0 by {
            assert(t[i].0 == s[i].0);
            assert(t[j].0 == s[j].0);
        }
    } else {
        assert forall|i: int, j: int| 0 <= i < j < t.len() implies (#[trigger] t[i]).0 != (#[trigger] t[j]).0 by {
            if j == s.len() {
                assert(t[i] == s[i]);
            } else {
                assert(t[i] == s[i] && t[j] == s[j]);
            }
        }
    }
}

/// A table whose plain-value image agrees on keys has unique keys exactly
/// when the image has.
pub proof fn lemma_unique_view<V, W>(t: Seq<(String, V)>, v: Seq<(Seq<char>, W)>)
    requires
        same_keys(t, v),
    ensures
        unique_keys(t) == vunique(v),
{
    if unique_keys(t) {
        assert forall|i: int, j: int| 0 <= i < j < v.len() implies (#[trigger] v[i]).0 != (#[trigger] v[j]).0 by {
            assert(t[i].0@ == v[i].0 && t[j].0@ == v[j].0);
        }
    }
    if vunique(v) {
        assert forall|i: int, j: int| 0 <= i < j < t.len() implies (#[trigger] t[i]).0@ != (#[trigger] t[j]).0@ by {
            assert(t[i].0@ == v[i].0 && t[j].0@ == v[j].0);
        }
    }
}

/// No id is listed twice.
pub open spec fn distinct_ids(ids: Seq<String>) -> bool {
    forall|i: int, j: int| 0 <= i < j < ids.len() ==> (#[trigger] ids[i])@ != (#[trigger] ids[j])@
}

/// Appending an id only when it is new keeps the ids distinct.
pub proof fn lemma_append_unique(ids: Seq<String>, id: String)
    requires
        distinct_ids(ids),
    ensures
        distinct_ids(append_unique(ids, id)),
        forall|x: Seq<char>| listed(append_unique(ids, id), x) <==> (listed(ids, x) || x == id@),
{
    let t = append_unique(ids, id);
    if !(exists|j: int| 0 <= j < ids.len() && (#[trigger] ids[j])@ == id@) {
        assert forall|i: int, j: int| 0 <= i < j < t.len() implies (#[trigger] t[i])@ != (#[trigger] t[j])@ by {
            assert(t[i] == ids[i]);
            if j < ids.len() {
                assert(t[j] == ids[j]);
            }
        }
        assert forall|x: Seq<char>| listed(t, x) <==> (listed(ids, x) || x == id@) by {
            if listed(ids, x) {
                let j = choose|j: int| 0 <= j < ids.len() && (#[trigger] ids[j])@ == x;
                assert(t[j] == ids[j]);
            }
            if x == id@ {
                assert(t[ids.len() as int] == id);
            }
            if listed(t, x) {
                let j = choose|j: int| 0 <= j < t.len() && (#[trigger] t[j])@ == x;
                if j < ids.len() {
                    assert(t[j] == ids[j]);
                }
            }
        }
    }
}

/// Appends `id` unless it is already listed.
pub open spec fn append_unique(ids: Seq<String>, id: String) -> Seq<String> {
    if exists|j: int| 0 <= j < ids.len() && (#[trigger] ids[j])@ == id@ {
        ids
    } else {
        ids.push(id)
    }
}

/// Is `x` listed in `ids`?
pub open spec fn listed(ids: Seq<String>, x: Seq<char>) -> bool {
    exists|j: int| 0 <= j < ids.len() && (#[trigger] ids[j])@ == x
}

/// Is `x` listed in `ids`?
pub fn is_listed(ids: &Vec<String>, x: &str) -> (r: bool)
    ensures
        r == listed(ids@, x@),
{
    let mut i: usize = 0;
    while i < ids.len()
        invariant
            i <= ids@.len(),
            forall|j: int| 0 <= j < i ==> (#[trigger] ids@[j])@ != x@,
        decreases ids.len() - i,
    {
        if crate::text::str_eq(ids[i].as_str(), x) {
            return true;
        }
        i = i + 1;
    }
    false
}

/// Appends `id` to `ids` unless it is already listed.
pub fn push_unique(ids: &mut Vec<String>, id: String)
    ensures
        final(ids)@ == append_unique(old(ids)@, id),
{
    if !is_listed(ids, id.as_str()) {
        ids.push(id);
    }
}

} // verus!
