//! The roster: who takes part in a benchmark, under which alias, and on which
//! transport identifier.
use vstd::prelude::*;
use crate::keys::PublicKey;

verus! {

/// One participant: its identity, its alias and its transport identifier.
pub struct Participant {
    pub key: PublicKey,
    pub alias: String,
    pub peer: Vec<u8>,
}

impl Clone for Participant {
    fn clone(&self) -> (r: Participant)
        ensures
            pview(r) == pview(*self),
    {
        Participant { key: self.key.clone(), alias: self.alias.clone(), peer: self.peer.clone() }
    }
}

/// A participant as plain values: key text, alias and transport identifier.
pub open spec fn pview(p: Participant) -> (Seq<char>, Seq<char>, Seq<u8>) {
    (p.key.pem@, p.alias@, p.peer@)
}

/// A roster as plain values.
pub open spec fn roster_view(r: Seq<Participant>) -> Seq<(Seq<char>, Seq<char>, Seq<u8>)> {
    r.map_values(|p: Participant| pview(p))
}

/// Whether the participant with key text `k` is on the roster.
pub open spec fn is_member(r: Seq<Participant>, k: Seq<char>) -> bool {
    exists|i: int| 0 <= i < r.len() && (#[trigger] r[i]).key.pem@ == k
}

/// No key appears twice on the roster.
pub open spec fn distinct_members(r: Seq<Participant>) -> bool {
    forall|i: int, j: int| 0 <= i < j < r.len() ==> (#[trigger] r[i]).key.pem@ != (#[trigger] r[j]).key.pem@
}

/// The set of keys on the roster.
pub open spec fn member_keys(r: Seq<Participant>) -> Set<Seq<char>> {
    Set::new(|k: Seq<char>| is_member(r, k))
}

/// Whether two byte strings are equal.
pub fn bytes_equal(a: &Vec<u8>, b: &Vec<u8>) -> (r: bool)
    ensures
        r == (a@ == b@),
{
    if a.len() != b.len() {
        return false;
    }
    let mut i: usize = 0;
    while i < a.len()
        invariant
            a@.len() == b@.len(),
            i <= a@.len(),
            forall|j: int| 0 <= j < i ==> a@[j] == b@[j],
        decreases a@.len() - i,
    {
        if a[i] != b[i] {
            return false;
        }
        i = i + 1;
    }
    assert(a@ =~= b@);
    true
}

/// The position of the participant with key `k`.
pub fn find_member(r: &Vec<Participant>, k: &PublicKey) -> (res: Option<usize>)
    ensures
        match res {
            Some(i) => i < r@.len() && r@[i as int].key.pem@ == k.pem@,
            None => !is_member(r@, k.pem@),
        },
{
    let mut i: usize = 0;
    while i < r.len()
        invariant
            i <= r@.len(),
            forall|j: int| 0 <= j < i ==> (#[trigger] r@[j]).key.pem@ != k.pem@,
        decreases r@.len() - i,
    {
        if r[i].key.same(k) {
            return Some(i);
        }
        i = i + 1;
    }
    None
}

/// The position of the first participant on transport identifier `peer`.
pub fn find_peer(r: &Vec<Participant>, peer: &Vec<u8>) -> (res: Option<usize>)
    ensures
        match res {
            Some(i) => i < r@.len() && r@[i as int].peer@ == peer@ && forall|j: int|
                0 <= j < i ==> (#[trigger] r@[j]).peer@ != peer@,
            None => forall|j: int| 0 <= j < r@.len() ==> (#[trigger] r@[j]).peer@ != peer@,
        },
{
    let mut i: usize = 0;
    while i < r.len()
        invariant
            i <= r@.len(),
            forall|j: int| 0 <= j < i ==> (#[trigger] r@[j]).peer@ != peer@,
        decreases r@.len() - i,
    {
        if bytes_equal(&r[i].peer, peer) {
            return Some(i);
        }
        i = i + 1;
    }
    None
}

/// Adds a participant, or replaces the entry with the same key.
pub fn upsert(r: &mut Vec<Participant>, p: Participant)
    requires
        distinct_members(old(r)@),
    ensures
        distinct_members(final(r)@),
        member_keys(final(r)@) == member_keys(old(r)@).insert(p.key.pem@),
        is_member(old(r)@, p.key.pem@) ==> exists|i: int|
            0 <= i < old(r)@.len() && old(r)@[i].key.pem@ == p.key.pem@ && roster_view(final(r)@)
                == roster_view(old(r)@).update(i, pview(p)),
        !is_member(old(r)@, p.key.pem@) ==> roster_view(final(r)@) == roster_view(old(r)@).push(
            pview(p),
        ),
{
    let ghost before = r@;
    let ghost pv = pview(p);
    let ghost k = p.key.pem@;
    match find_member(r, &p.key) {
        Some(i) => {
            r.set(i, p);
            proof {
                assert(roster_view(r@) =~= roster_view(before).update(i as int, pv));
                assert(member_keys(r@) =~= member_keys(before).insert(k)) by {
                    assert forall|x: Seq<char>| is_member(r@, x) <==> (is_member(before, x) || x == k) by {
                        if is_member(before, x) {
                            let j = choose|j: int| 0 <= j < before.len() && (#[trigger] before[j]).key.pem@ == x;
                            if j == i {
                                assert(x == k);
                            }
                            assert(r@[j].key.pem@ == x);
                        }
                        if x == k {
                            assert(r@[i as int].key.pem@ == x);
                        }
                        if is_member(r@, x) {
                            let j = choose|j: int| 0 <= j < r@.len() && (#[trigger] r@[j]).key.pem@ == x;
                            if j != i {
                                assert(before[j].key.pem@ == x);
                            }
                        }
                    }
                }
            }
        },
        None => {
            r.push(p);
            proof {
                assert(roster_view(r@) =~= roster_view(before).push(pv));
                assert(member_keys(r@) =~= member_keys(before).insert(k)) by {
                    assert forall|x: Seq<char>| is_member(r@, x) <==> (is_member(before, x) || x == k) by {
                        if is_member(before, x) {
                            let j = choose|j: int| 0 <= j < before.len() && (#[trigger] before[j]).key.pem@ == x;
                            assert(r@[j].key.pem@ == x);
                        }
                        if x == k {
                            assert(r@[before.len() as int].key.pem@ == x);
                        }
                        if is_member(r@, x) {
                            let j = choose|j: int| 0 <= j < r@.len() && (#[trigger] r@[j]).key.pem@ == x;
                            if j < before.len() {
                                assert(before[j].key.pem@ == x);
                            }
                        }
                    }
                }
            }
        },
    }
}

/// Whether a participant is not on transport identifier `peer`.
pub open spec fn not_on(peer: Seq<u8>) -> spec_fn((Seq<char>, Seq<char>, Seq<u8>)) -> bool {
    |v: (Seq<char>, Seq<char>, Seq<u8>)| v.2 != peer
}

/// Removes every participant on transport identifier `peer`.
pub fn remove_peer(r: &mut Vec<Participant>, peer: &Vec<u8>)
    requires
        distinct_members(old(r)@),
    ensures
        distinct_members(final(r)@),
        roster_view(final(r)@) == roster_view(old(r)@).filter(not_on(peer@)),
        forall|j: int| 0 <= j < final(r)@.len() ==> (#[trigger] final(r)@[j]).peer@ != peer@,
        member_keys(final(r)@).subset_of(member_keys(old(r)@)),
{
    let ghost before = r@;
    let ghost mut idx: Seq<int> = Seq::empty();
    let mut kept: Vec<Participant> = Vec::new();
    let mut i: usize = 0;
    while i < r.len()
        invariant
            r@ == before,
            distinct_members(before),
            i <= before.len(),
            roster_view(kept@) == roster_view(before.subrange(0, i as int)).filter(not_on(peer@)),
            forall|j: int| 0 <= j < kept@.len() ==> (#[trigger] kept@[j]).peer@ != peer@,
            idx.len() == kept@.len(),
            forall|j: int| 0 <= j < idx.len() ==> 0 <= #[trigger] idx[j] < i && before[idx[j]].key.pem@ == kept@[j].key.pem@,
            forall|a: int, b: int| 0 <= a < b < idx.len() ==> #[trigger] idx[a] < #[trigger] idx[b],
        decreases before.len() - i,
    {
        let ghost old_kept = kept@;
        proof {
            assert(roster_view(before.subrange(0, i + 1)) =~= roster_view(before.subrange(0, i as int)).push(pview(before[i as int])));
            roster_view(before.subrange(0, i as int)).lemma_filter_push(pview(before[i as int]), not_on(peer@));
        }
        if !bytes_equal(&r[i].peer, peer) {
            let p = r[i].clone();
            kept.push(p);
            proof {
                idx = idx.push(i as int);
                assert(roster_view(kept@) =~= roster_view(old_kept).push(pview(before[i as int])));
            }
        }
        i = i + 1;
    }
    proof {
        assert(before.subrange(0, i as int) =~= before);
        assert forall|a: int, b: int| 0 <= a < b < kept@.len() implies (#[trigger] kept@[a]).key.pem@ != (#[trigger] kept@[b]).key.pem@ by {
            assert(idx[a] < idx[b]);
        }
        assert forall|x: Seq<char>| is_member(kept@, x) implies is_member(before, x) by {
            let j = choose|j: int| 0 <= j < kept@.len() && (#[trigger] kept@[j]).key.pem@ == x;
            assert(before[idx[j]].key.pem@ == x);
        }
    }
    *r = kept;
}

} // verus!
