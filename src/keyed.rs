//! Tables indexed by participant identity, where a later entry for the same
//! identity replaces the earlier one.
use vstd::prelude::*;
use crate::keys::PublicKey;

verus! {

/// No identity appears twice.
pub open spec fn distinct_keyed<V>(s: Seq<(PublicKey, V)>) -> bool {
    forall|i: int, j: int| 0 <= i < j < s.len() ==> (#[trigger] s[i]).0.pem@ != (#[trigger] s[j]).0.pem@
}

/// The position of identity `k`, if present.
pub open spec fn keyed_index<V>(s: Seq<(PublicKey, V)>, k: Seq<char>) -> int {
    choose|i: int| 0 <= i < s.len() && (#[trigger] s[i]).0.pem@ == k
}

/// The table as a map from key text to value.
pub open spec fn keyed_map<V>(s: Seq<(PublicKey, V)>) -> Map<Seq<char>, V> {
    Map::new(
        |k: Seq<char>| exists|i: int| 0 <= i < s.len() && (#[trigger] s[i]).0.pem@ == k,
        |k: Seq<char>| s[keyed_index(s, k)].1,
    )
}

/// Stores `v` under `k`, replacing an earlier value for `k`.
pub fn put_keyed<V>(s: &mut Vec<(PublicKey, V)>, k: PublicKey, v: V)
    requires
        distinct_keyed(old(s)@),
    ensures
        distinct_keyed(final(s)@),
        keyed_map(final(s)@) == keyed_map(old(s)@).insert(k.pem@, v),
        final(s)@.len() == old(s)@.len() + if keyed_map(old(s)@).contains_key(k.pem@) {
            0int
        } else {
            1int
        },
{
    let ghost before = s@;
    let ghost kk = k.pem@;
    let ghost vv = v;
    let mut i: usize = 0;
    while i < s.len()
        invariant
            s@ == before,
            kk == k.pem@,
            vv == v,
            i <= before.len(),
            forall|j: int| 0 <= j < i ==> (#[trigger] before[j]).0.pem@ != kk,
        ensures
            s@ == before,
            i <= before.len(),
            i < before.len() ==> before[i as int].0.pem@ == kk,
            forall|j: int| 0 <= j < i ==> (#[trigger] before[j]).0.pem@ != kk,
        decreases before.len() - i,
    {
        if s[i].0.same(&k) {
            break;
        }
        i = i + 1;
    }
    let at = i;
    if at < s.len() {
        s.set(at, (k, v));
    } else {
        s.push((k, v));
    }
    proof {
        let after = s@;
        assert(after[at as int].0.pem@ == kk && after[at as int].1 == vv);
        assert forall|a: int, b: int| 0 <= a < b < after.len() implies (#[trigger] after[a]).0.pem@ != (#[trigger] after[b]).0.pem@ by {
            if a != at && b != at {
                assert(after[a] == before[a] && after[b] == before[b]);
            } else if a == at {
                assert(after[b] == before[b]);
            } else {
                assert(after[a] == before[a]);
            }
        }
        assert(keyed_map(after) =~= keyed_map(before).insert(kk, vv)) by {
            assert forall|x: Seq<char>| #[trigger] keyed_map(after).contains_key(x) <==> keyed_map(before).insert(kk, vv).contains_key(x) by {
                if x == kk {
                    assert(after[at as int].0.pem@ == x);
                } else {
                    if keyed_map(before).contains_key(x) {
                        let j = choose|j: int| 0 <= j < before.len() && (#[trigger] before[j]).0.pem@ == x;
                        assert(after[j] == before[j]);
                    }
                    if keyed_map(after).contains_key(x) {
                        let j = choose|j: int| 0 <= j < after.len() && (#[trigger] after[j]).0.pem@ == x;
                        assert(j != at);
                        assert(after[j] == before[j]);
                    }
                }
            }
            assert forall|x: Seq<char>| #[trigger] keyed_map(after).contains_key(x) implies keyed_map(after)[x] == keyed_map(before).insert(kk, vv)[x] by {
                let j = keyed_index(after, x);
                if x == kk {
                    assert(after[at as int].0.pem@ == x);
                    assert(j == at);
                } else {
                    assert(j != at);
                    assert(after[j] == before[j]);
                    let j2 = keyed_index(before, x);
                    assert(before[j].0.pem@ == x);
                    assert(j2 == j);
                }
            }
        }
        if keyed_map(before).contains_key(kk) {
            let j = choose|j: int| 0 <= j < before.len() && (#[trigger] before[j]).0.pem@ == kk;
            assert(at < before.len());
        }
    }
}

} // verus!
