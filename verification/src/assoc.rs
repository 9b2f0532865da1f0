//! Association lists keyed by a 128-bit identifier, with the lookup theory
//! the registry's contracts are stated over.

use vstd::prelude::*;

verus! {

/// The value stored under `k`, taking the latest binding when a key repeats.
pub open spec fn lookup<V>(s: Seq<(u128, V)>, k: u128) -> Option<V>
    decreases s.len(),
{
    if s.len() == 0 {
        None
    } else if s.last().0 == k {
        Some(s.last().1)
    } else {
        lookup(s.drop_last(), k)
    }
}

/// Whether some binding for `k` exists.
pub open spec fn has_key<V>(s: Seq<(u128, V)>, k: u128) -> bool {
    lookup(s, k) is Some
}

/// No two bindings share a key.
pub open spec fn unique_keys<V>(s: Seq<(u128, V)>) -> bool {
    forall|i: int, j: int| 0 <= i < j < s.len() ==> (#[trigger] s[i]).0 != (#[trigger] s[j]).0
}

/// A key bound nowhere in the list looks up to nothing.
pub proof fn lemma_lookup_absent<V>(s: Seq<(u128, V)>, k: u128)
    requires
        forall|i: int| 0 <= i < s.len() ==> (#[trigger] s[i]).0 != k,
    ensures
        lookup(s, k) is None,
    decreases s.len(),
{
    if s.len() > 0 {
        lemma_lookup_absent(s.drop_last(), k);
    }
}

/// A key that looks up to nothing is bound nowhere in the list.
pub proof fn lemma_absent_no_index<V>(s: Seq<(u128, V)>, k: u128)
    requires
        lookup(s, k) is None,
    ensures
        forall|i: int| 0 <= i < s.len() ==> (#[trigger] s[i]).0 != k,
    decreases s.len(),
{
    if s.len() > 0 {
        lemma_absent_no_index(s.drop_last(), k);
        assert forall|i: int| 0 <= i < s.len() implies (#[trigger] s[i]).0 != k by {
            if i < s.len() - 1 {
                assert(s.drop_last()[i] == s[i]);
            }
        }
    }
}

/// A value that lookup finds stands, with its key, somewhere in the list.
pub proof fn lemma_lookup_is_entry<V>(s: Seq<(u128, V)>, k: u128)
    requires
        lookup(s, k) is Some,
    ensures
        exists|i: int| 0 <= i < s.len() && #[trigger] s[i] == (k, lookup(s, k)->Some_0),
    decreases s.len(),
{
    if s.last().0 == k {
        assert(s[s.len() - 1] == (k, lookup(s, k)->Some_0));
    } else {
        lemma_lookup_is_entry(s.drop_last(), k);
        let i = choose|i: int|
            0 <= i < s.drop_last().len() && #[trigger] s.drop_last()[i] == (
            k,
            lookup(s.drop_last(), k)->Some_0,
            );
        assert(s[i] == (k, lookup(s, k)->Some_0));
    }
}

/// How every lookup reads after appending one binding.
pub proof fn lemma_lookup_push<V>(s: Seq<(u128, V)>, k: u128, v: V, k2: u128)
    ensures
        lookup(s.push((k, v)), k2) == (if k2 == k {
            Some(v)
        } else {
            lookup(s, k2)
        }),
{
    assert(s.push((k, v)).drop_last() =~= s);
}

/// Appending a binding for a fresh key keeps keys unique.
pub proof fn lemma_unique_push<V>(s: Seq<(u128, V)>, k: u128, v: V)
    requires
        unique_keys(s),
        lookup(s, k) is None,
    ensures
        unique_keys(s.push((k, v))),
{
    lemma_absent_no_index(s, k);
}

/// How every lookup reads after removing the binding at one position.
pub proof fn lemma_lookup_remove<V>(s: Seq<(u128, V)>, i: int, k2: u128)
    requires
        unique_keys(s),
        0 <= i < s.len(),
    ensures
        lookup(s.remove(i), k2) == (if s[i].0 == k2 {
            None
        } else {
            lookup(s, k2)
        }),
    decreases s.len(),
{
    if i == s.len() - 1 {
        assert(s.remove(i) =~= s.drop_last());
        if s[i].0 == k2 {
            lemma_lookup_absent(s.drop_last(), k2);
        }
    } else {
        assert(s.remove(i).drop_last() =~= s.drop_last().remove(i));
        assert(s.remove(i).last() == s.last());
        lemma_lookup_remove(s.drop_last(), i, k2);
    }
}

/// Removing a binding keeps keys unique.
pub proof fn lemma_unique_remove<V>(s: Seq<(u128, V)>, i: int)
    requires
        unique_keys(s),
        0 <= i < s.len(),
    ensures
        unique_keys(s.remove(i)),
{
    assert forall|a: int, b: int| 0 <= a < b < s.remove(i).len() implies (#[trigger] s.remove(i)[a]).0
        != (#[trigger] s.remove(i)[b]).0 by {
        let a0 = if a < i {
            a
        } else {
            a + 1
        };
        let b0 = if b < i {
            b
        } else {
            b + 1
        };
        assert(s.remove(i)[a] == s[a0]);
        assert(s.remove(i)[b] == s[b0]);
    }
}

/// Position of the binding for `k`, scanning like `lookup` does.
pub fn assoc_find<V>(v: &Vec<(u128, V)>, k: u128) -> (r: Option<usize>)
    ensures
        match r {
            Some(i) => i < v@.len() && v@[i as int].0 == k && lookup(v@, k) == Some(
                v@[i as int].1,
            ),
            None => lookup(v@, k) is None,
        },
{
    let mut i: usize = v.len();
    proof {
        assert(v@.subrange(0, i as int) =~= v@);
    }
    while i > 0
        invariant
            i <= v@.len(),
            lookup(v@, k) == lookup(v@.subrange(0, i as int), k),
            forall|j: int| i <= j < v@.len() ==> (#[trigger] v@[j]).0 != k,
        decreases i,
    {
        if v[i - 1].0 == k {
            proof {
                let pre = v@.subrange(0, i as int);
                assert(pre.last() == v@[i - 1]);
            }
            return Some(i - 1);
        }
        proof {
            let pre = v@.subrange(0, i as int);
            assert(pre.drop_last() =~= v@.subrange(0, i - 1));
            assert(pre.last() == v@[i - 1]);
        }
        i -= 1;
    }
    proof {
        assert(v@.subrange(0, 0) =~= Seq::<(u128, V)>::empty());
    }
    None
}

/// Remove the binding for `k`, if there is one, returning its value.
pub fn assoc_remove<V>(v: &mut Vec<(u128, V)>, k: u128) -> (r: Option<V>)
    requires
        unique_keys(old(v)@),
    ensures
        unique_keys(final(v)@),
        r == lookup(old(v)@, k),
        lookup(final(v)@, k) is None,
        forall|k2: u128| k2 != k ==> lookup(final(v)@, k2) == lookup(old(v)@, k2),
        r is Some ==> exists|i: int|
            0 <= i < old(v)@.len() && old(v)@[i].0 == k && final(v)@ == #[trigger] old(v)@.remove(
                i,
            ),
        forall|j: int|
            0 <= j < final(v)@.len() ==> exists|j0: int|
                0 <= j0 < old(v)@.len() && #[trigger] final(v)@[j] == old(v)@[j0],
        r is None ==> *final(v) == *old(v),
{
    match assoc_find(v, k) {
        Some(i) => {
            let (_, val) = v.remove(i);
            proof {
                lemma_unique_remove(old(v)@, i as int);
                assert forall|k2: u128| true implies lookup(final(v)@, k2) == (if k2 == k {
                    None
                } else {
                    lookup(old(v)@, k2)
                }) by {
                    lemma_lookup_remove(old(v)@, i as int, k2);
                }
                assert forall|j: int| 0 <= j < final(v)@.len() implies exists|j0: int|
                    0 <= j0 < old(v)@.len() && #[trigger] final(v)@[j] == old(v)@[j0] by {
                    let j0 = if j < i {
                        j as int
                    } else {
                        j + 1
                    };
                    assert(final(v)@[j] == old(v)@[j0]);
                }
            }
            Some(val)
        },
        None => None,
    }
}

/// Append a binding for a key not yet present.
pub fn assoc_push<V>(v: &mut Vec<(u128, V)>, k: u128, val: V)
    requires
        unique_keys(old(v)@),
        lookup(old(v)@, k) is None,
    ensures
        unique_keys(final(v)@),
        final(v)@ == old(v)@.push((k, val)),
        lookup(final(v)@, k) == Some(val),
        forall|k2: u128| k2 != k ==> lookup(final(v)@, k2) == lookup(old(v)@, k2),
{
    proof {
        lemma_unique_push(old(v)@, k, val);
        assert forall|k2: u128| true implies lookup(old(v)@.push((k, val)), k2) == (if k2 == k {
            Some(val)
        } else {
            lookup(old(v)@, k2)
        }) by {
            lemma_lookup_push(old(v)@, k, val, k2);
        }
    }
    v.push((k, val));
}

} // verus!
