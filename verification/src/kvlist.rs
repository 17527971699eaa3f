//! Association lists from string keys to values, with a `Map` view.
//!
//! The stores keep small key/value collections as plain vectors of pairs; the
//! spec view is the map a later entry of which overrides an earlier one with
//! the same key.

use vstd::prelude::*;
use vstd::pervasive::VecAdditionalExecFns;
use vstd::string::StringExecFns;
use crate::text::str_eq;

verus! {

/// The map that an association list denotes: later entries win.
pub open spec fn kv_map<V>(s: Seq<(String, V)>) -> Map<Seq<char>, V>
    decreases s.len(),
{
    if s.len() == 0 {
        Map::empty()
    } else {
        kv_map(s.drop_last()).insert(s.last().0@, s.last().1)
    }
}

/// A key is in the map exactly when some entry carries it.
pub proof fn lemma_kv_map_dom<V>(s: Seq<(String, V)>, k: Seq<char>)
    ensures
        kv_map(s).dom().contains(k) <==> exists|i: int| 0 <= i < s.len() && (#[trigger] s[i]).0@ == k,
    decreases s.len(),
{
    if s.len() == 0 {
    } else {
        lemma_kv_map_dom(s.drop_last(), k);
        if s.last().0@ == k {
            assert(s[s.len() - 1].0@ == k);
        } else {
            if kv_map(s).dom().contains(k) {
                let i = choose|i: int| 0 <= i < s.drop_last().len() && (#[trigger] s.drop_last()[i]).0@ == k;
                assert(s[i].0@ == k);
            }
            if exists|i: int| 0 <= i < s.len() && (#[trigger] s[i]).0@ == k {
                let i = choose|i: int| 0 <= i < s.len() && (#[trigger] s[i]).0@ == k;
                assert(i < s.len() - 1);
                assert(s.drop_last()[i].0@ == k);
            }
        }
    }
}

/// If no entry carries `k`, the map has no binding for it.
pub proof fn lemma_kv_map_absent<V>(s: Seq<(String, V)>, k: Seq<char>)
    requires
        forall|i: int| 0 <= i < s.len() ==> (#[trigger] s[i]).0@ != k,
    ensures
        !kv_map(s).dom().contains(k),
{
    lemma_kv_map_dom(s, k);
}

/// The value bound to `k` is the one of the last entry that carries `k`.
pub proof fn lemma_kv_map_last<V>(s: Seq<(String, V)>, i: int, k: Seq<char>)
    requires
        0 <= i < s.len(),
        s[i].0@ == k,
        forall|j: int| i < j < s.len() ==> (#[trigger] s[j]).0@ != k,
    ensures
        kv_map(s).dom().contains(k),
        kv_map(s)[k] == s[i].1,
    decreases s.len(),
{
    if i == s.len() - 1 {
    } else {
        assert(s.last().0@ != k);
        assert(s.drop_last()[i] == s[i]);
        lemma_kv_map_last(s.drop_last(), i, k);
    }
}

/// Replacing the last entry that carries `k` updates the map at `k`.
pub proof fn lemma_kv_map_update<V>(s: Seq<(String, V)>, i: int, p: (String, V))
    requires
        0 <= i < s.len(),
        p.0@ == s[i].0@,
        forall|j: int| i < j < s.len() ==> (#[trigger] s[j]).0@ != s[i].0@,
    ensures
        kv_map(s.update(i, p)) == kv_map(s).insert(s[i].0@, p.1),
    decreases s.len(),
{
    let k = s[i].0@;
    if i == s.len() - 1 {
        assert(s.update(i, p).drop_last() =~= s.drop_last());
        assert(s.update(i, p).last() == p);
        assert(kv_map(s.drop_last()).insert(k, p.1) =~= kv_map(s.drop_last()).insert(
            k,
            s[i].1,
        ).insert(k, p.1));
    } else {
        assert(s.update(i, p).drop_last() =~= s.drop_last().update(i, p));
        assert(s.update(i, p).last() == s.last());
        assert(s.drop_last()[i] == s[i]);
        lemma_kv_map_update(s.drop_last(), i, p);
        assert(kv_map(s.drop_last()).insert(k, p.1).insert(s.last().0@, s.last().1)
            =~= kv_map(s.drop_last()).insert(s.last().0@, s.last().1).insert(k, p.1));
    }
}

/// Appending an entry inserts its binding into the map.
pub proof fn lemma_kv_map_push<V>(s: Seq<(String, V)>, p: (String, V))
    ensures
        kv_map(s.push(p)) == kv_map(s).insert(p.0@, p.1),
{
    assert(s.push(p).drop_last() =~= s);
    assert(s.push(p).last() == p);
}

/// Finds the last entry whose key equals `key`, if any.
pub fn kv_find_last<V>(v: &Vec<(String, V)>, key: &str) -> (r: Option<usize>)
    ensures
        match r {
            Option::None => !kv_map(v@).dom().contains(key@),
            Option::Some(i) => {
                &&& i < v@.len()
                &&& v@[i as int].0@ == key@
                &&& forall|j: int| i < j < v@.len() ==> (#[trigger] v@[j]).0@ != key@
                &&& kv_map(v@).dom().contains(key@)
                &&& kv_map(v@)[key@] == v@[i as int].1
            },
        },
{
    let n = v.len();
    let mut i: usize = n;
    while i > 0
        invariant
            n == v@.len(),
            i <= n,
            forall|j: int| i <= j < n ==> (#[trigger] v@[j]).0@ != key@,
        decreases i,
    {
        i = i - 1;
        if str_eq(v[i].0.as_str(), key) {
            proof {
                lemma_kv_map_last(v@, i as int, key@);
            }
            return Some(i);
        }
    }
    proof {
        lemma_kv_map_absent(v@, key@);
    }
    None
}

/// Binds `key` to `value`: overwrites the last entry with that key, or appends
/// a new entry when the key is absent.
pub fn kv_insert<V>(v: &mut Vec<(String, V)>, key: &str, value: V)
    ensures
        kv_map(final(v)@) == kv_map(old(v)@).insert(key@, value),
{
    let found = kv_find_last(v, key);
    match found {
        Option::Some(i) => {
            let ghost s = v@;
            let k = String::from_str(key);
            v.set(i, (k, value));
            proof {
                lemma_kv_map_update(s, i as int, v@[i as int]);
            }
        },
        Option::None => {
            let ghost s = v@;
            let k = String::from_str(key);
            v.push((k, value));
            proof {
                lemma_kv_map_push(s, v@.last());
            }
        },
    }
}

} // verus!
