//! The parameter table: an ordered mapping from byte-string keys to
//! byte-string values.
//!
//! Keys and values are handed to the native side as C strings, so
//! neither may contain an embedded terminator byte.  Insertion keeps
//! the first occurrence's position; a duplicate key overwrites the
//! value in place.

use vstd::prelude::*;

verus! {

/// The byte sequence holds no embedded terminator (zero byte).
pub open spec fn no_nul(s: Seq<u8>) -> bool {
    forall|i: int| 0 <= i < s.len() ==> s[i] != 0
}

/// Some entry of the table has the given key.
pub open spec fn has_key(params: Seq<(Seq<u8>, Seq<u8>)>, key: Seq<u8>) -> bool {
    exists|i: int| 0 <= i < params.len() && params[i].0 == key
}

/// The position of the entry with the given key.
pub open spec fn key_index(params: Seq<(Seq<u8>, Seq<u8>)>, key: Seq<u8>) -> int {
    choose|i: int| 0 <= i < params.len() && params[i].0 == key
}

/// No two entries of the table share a key.
pub open spec fn keys_unique(params: Seq<(Seq<u8>, Seq<u8>)>) -> bool {
    forall|i: int, j: int|
        0 <= i < j < params.len() ==> params[i].0 != params[j].0
}

/// A well-formed parameter table: unique keys, and no embedded
/// terminator in any key or value.
pub open spec fn params_wf(params: Seq<(Seq<u8>, Seq<u8>)>) -> bool {
    &&& keys_unique(params)
    &&& forall|i: int|
        0 <= i < params.len() ==> no_nul(#[trigger] params[i].0) && no_nul(params[i].1)
}

/// The table after setting the given key: a present key's value is
/// overwritten in place, a fresh key is appended.
pub open spec fn spec_upsert(
    params: Seq<(Seq<u8>, Seq<u8>)>,
    key: Seq<u8>,
    value: Seq<u8>,
) -> Seq<(Seq<u8>, Seq<u8>)> {
    if has_key(params, key) {
        params.update(key_index(params, key), (key, value))
    } else {
        params.push((key, value))
    }
}

/// The value stored under the given key, if any.
pub open spec fn lookup(params: Seq<(Seq<u8>, Seq<u8>)>, key: Seq<u8>) -> Option<Seq<u8>> {
    if has_key(params, key) {
        Some(params[key_index(params, key)].1)
    } else {
        None
    }
}

/// Setting a key stores its value: afterwards the key is bound to the
/// new value and every other key is bound as before, and
/// well-formedness is kept when key and value hold no terminator.
pub proof fn lemma_upsert(params: Seq<(Seq<u8>, Seq<u8>)>, key: Seq<u8>, value: Seq<u8>)
    requires
        params_wf(params),
    ensures
        lookup(spec_upsert(params, key, value), key) == Some(value),
        forall|k: Seq<u8>|
            k != key ==> #[trigger] lookup(spec_upsert(params, key, value), k) == lookup(params, k),
        no_nul(key) && no_nul(value) ==> params_wf(spec_upsert(params, key, value)),
{
    let out = spec_upsert(params, key, value);
    if has_key(params, key) {
        let i = key_index(params, key);
        assert(0 <= i < params.len() && params[i].0 == key);
        assert(out[i] == (key, value));
        assert(has_key(out, key));
        assert(out[key_index(out, key)].0 == key);
        assert forall|j: int| 0 <= j < out.len() && out[j].0 == key implies j == i by {
            if j != i {
                assert(out[j] == params[j]);
            }
        }
        assert(lookup(out, key) == Some(value));
        assert forall|k: Seq<u8>| k != key implies #[trigger] lookup(out, k) == lookup(params, k) by {
            assert forall|j: int| 0 <= j < out.len() && j != i implies out[j] == params[j] by {}
            if has_key(params, k) {
                let j = key_index(params, k);
                assert(params[j].0 == k);
                assert(j != i);
                assert(out[j].0 == k);
                assert(has_key(out, k));
                let j2 = key_index(out, k);
                assert(out[j2].0 == k);
                assert(j2 != i);
                assert(params[j2].0 == k);
                assert(j2 == j);
            } else {
                if has_key(out, k) {
                    let j2 = key_index(out, k);
                    assert(out[j2].0 == k);
                    assert(j2 != i);
                    assert(params[j2].0 == k);
                    assert(has_key(params, k));
                }
            }
        }
    } else {
        let n = params.len() as int;
        assert(out[n] == (key, value));
        assert(has_key(out, key));
        assert forall|j: int| 0 <= j < out.len() && out[j].0 == key implies j == n by {
            if j < n {
                assert(out[j] == params[j]);
                assert(has_key(params, key));
            }
        }
        assert(lookup(out, key) == Some(value));
        assert forall|k: Seq<u8>| k != key implies #[trigger] lookup(out, k) == lookup(params, k) by {
            if has_key(params, k) {
                let j = key_index(params, k);
                assert(out[j].0 == k);
                assert(has_key(out, k));
                let j2 = key_index(out, k);
                assert(out[j2].0 == k);
                assert(j2 != n);
                assert(params[j2].0 == k);
                assert(j2 == j);
            } else {
                if has_key(out, k) {
                    let j2 = key_index(out, k);
                    assert(out[j2].0 == k);
                    assert(j2 != n);
                    assert(params[j2].0 == k);
                    assert(has_key(params, k));
                }
            }
        }
    }
}

/// Setting a key the table does not hold appends the entry.
pub proof fn lemma_upsert_fresh(params: Seq<(Seq<u8>, Seq<u8>)>, key: Seq<u8>, value: Seq<u8>)
    requires
        !has_key(params, key),
    ensures
        spec_upsert(params, key, value) == params.push((key, value)),
{
}

/// Decides equality of two byte vectors.
pub fn bytes_eq(a: &Vec<u8>, b: &Vec<u8>) -> (r: bool)
    ensures
        r == (a@ == b@),
{
    if a.len() != b.len() {
        proof {
            assert(a@ != b@);
        }
        return false;
    }
    let n = a.len();
    let mut i: usize = 0;
    while i < n
        invariant
            n == a@.len() && n == b@.len(),
            i <= n,
            forall|j: int| 0 <= j < i ==> a@[j] == b@[j],
        decreases n - i,
    {
        if a[i] != b[i] {
            proof {
                assert(a@[i as int] != b@[i as int]);
            }
            return false;
        }
        i = i + 1;
    }
    proof {
        assert(a@ =~= b@);
    }
    true
}

/// Decides whether a byte slice holds an embedded terminator.
pub fn has_nul_byte(s: &[u8]) -> (r: bool)
    ensures
        r == !no_nul(s@),
{
    let n = s.len();
    let mut i: usize = 0;
    while i < n
        invariant
            n == s@.len(),
            i <= n,
            forall|j: int| 0 <= j < i ==> s@[j] != 0,
        decreases n - i,
    {
        if s[i] == 0 {
            return true;
        }
        i = i + 1;
    }
    false
}

/// Sets the given key in the table, overwriting in place or appending.
pub fn upsert(params: &mut Vec<(Vec<u8>, Vec<u8>)>, key: Vec<u8>, value: Vec<u8>)
    requires
        params_wf(old(params).deep_view()),
    ensures
        final(params).deep_view() == spec_upsert(old(params).deep_view(), key@, value@),
{
    let ghost orig = params.deep_view();
    let n = params.len();
    let mut i: usize = 0;
    while i < n
        invariant
            n == params@.len(),
            i <= n,
            params_wf(orig),
            orig == old(params).deep_view(),
            params.deep_view() == orig,
            forall|j: int| 0 <= j < i ==> orig[j].0 != key@,
        decreases n - i,
    {
        proof {
            assert(orig[i as int] == (params@[i as int].0@, params@[i as int].1@));
        }
        if bytes_eq(&params[i].0, &key) {
            params[i] = (key, value);
            proof {
                assert(has_key(orig, key@));
                assert(keys_unique(orig));
                assert forall|j: int| 0 <= j < orig.len() && orig[j].0 == key@ implies j == i by {}
                assert(key_index(orig, key@) == i);
                assert(params.deep_view() =~~= spec_upsert(orig, key@, value@));
            }
            return;
        }
        i = i + 1;
    }
    params.push((key, value));
    proof {
        assert(!has_key(orig, key@));
        assert(params.deep_view() =~~= spec_upsert(orig, key@, value@));
    }
}

} // verus!
