//! Additive secret sharing over the ring of 64-bit integers: masking local
//! inputs, folding in received shares, and adding up partial sums.
//!
//! A table is a sequence of `(key, value)` entries.
use vstd::prelude::*;
use crate::arith::{
    column, lemma_rows_columns, lemma_sum_diff, lemma_sum_pointwise, lemma_wrap_add,
    lemma_wrap_neg, lemma_wrap_sum, lemma_wrapping_add, lemma_wrapping_sub, sum, wrap64,
};
use crate::error::ProtocolError;
use crate::order::{
    compare_keys, key_bytes, key_lt, lemma_lex_irreflexive, lemma_lex_total, lemma_lex_transitive,
};

verus! {

/// No two entries of a table share a key.
pub open spec fn unique_keys(t: Seq<(String, i64)>) -> bool {
    forall|i: int, j: int| 0 <= i < j < t.len() ==> t[i].0@ != t[j].0@
}

/// Whether some entry of a table has key `k`.
pub open spec fn has_key(t: Seq<(String, i64)>, k: Seq<char>) -> bool {
    exists|i: int| 0 <= i < t.len() && t[i].0@ == k
}

/// The sum of the values of all entries with key `k`.
pub open spec fn key_total(t: Seq<(String, i64)>, k: Seq<char>) -> int
    decreases t.len(),
{
    if t.len() == 0 {
        0
    } else {
        key_total(t.drop_last(), k) + if t.last().0@ == k {
            t.last().1 as int
        } else {
            0
        }
    }
}

/// The sum of the shares at position `j` of each share list.
pub open spec fn sent_total(sent: Seq<Vec<i64>>, j: int) -> int {
    sum(sent.map_values(|row: Vec<i64>| row@[j] as int))
}

/// A participant's masked value for one key: its input, less every share it
/// sent, plus every share it received.
pub open spec fn masked_value(value: int, sent: Seq<int>, received: Seq<int>) -> int {
    wrap64(value - sum(sent) + sum(received))
}

/// Adding up everyone's masked value cancels the shares: when participant `i`
/// sends `shares[i][j]` to participant `j`, the wrapped sum of all masked
/// values is the wrapped sum of all inputs.
pub proof fn lemma_shares_cancel(values: Seq<int>, shares: Seq<Seq<int>>, masked: Seq<int>)
    requires
        shares.len() == values.len(),
        masked.len() == values.len(),
        forall|i: int| 0 <= i < shares.len() ==> (#[trigger] shares[i]).len() == values.len(),
        forall|i: int|
            0 <= i < masked.len() ==> #[trigger] masked[i] == masked_value(
                values[i],
                shares[i],
                column(shares, i),
            ),
    ensures
        wrap64(sum(masked)) == wrap64(sum(values)),
{
    let n = values.len();
    let rows = shares.map_values(|row: Seq<int>| sum(row));
    let cols = Seq::new(n, |j: int| sum(column(shares, j)));
    lemma_rows_columns(shares, n);
    let out = Seq::new(n, |i: int| values[i] - rows[i]);
    let exact = Seq::new(n, |i: int| out[i] + cols[i]);
    lemma_sum_diff(values, rows);
    lemma_sum_pointwise(out, cols);
    assert(masked =~= exact.map_values(|x: int| wrap64(x)));
    lemma_wrap_sum(exact);
}

pub proof fn lemma_key_total_concat(a: Seq<(String, i64)>, b: Seq<(String, i64)>, k: Seq<char>)
    ensures
        key_total(a + b, k) == key_total(a, k) + key_total(b, k),
    decreases b.len(),
{
    if b.len() > 0 {
        lemma_key_total_concat(a, b.drop_last(), k);
        assert((a + b).drop_last() =~= a + b.drop_last());
    }
}

/// `t` is the partial sum of a participant with inputs `local` that sent the
/// share lists `sent` and received the records `received`.
pub open spec fn is_partial_sum(
    t: Seq<(String, i64)>,
    local: Seq<(String, i64)>,
    sent: Seq<Vec<i64>>,
    received: Seq<(String, i64)>,
) -> bool {
    &&& t.len() == local.len()
    &&& forall|j: int|
        0 <= j < t.len() ==> (#[trigger] t[j]).0@ == local[j].0@ && t[j].1 as int == wrap64(
            local[j].1 - sent_total(sent, j) + key_total(received, local[j].0@),
        )
}

/// `t` is the published result for the partial sums `tables`.
pub open spec fn is_result(t: Seq<(String, i64)>, tables: Seq<Vec<(String, i64)>>) -> bool {
    &&& sorted_keys(t)
    &&& forall|k: Seq<char>| #[trigger] has_key(t, k) <==> appears(tables, k)
    &&& forall|j: int|
        0 <= j < t.len() ==> (#[trigger] t[j]).1 as int == wrap64(grand_total(tables, t[j].0@))
}

/// The index of the entry with key `k`, if there is one.
pub fn find_key(t: &Vec<(String, i64)>, k: &String) -> (r: Option<usize>)
    ensures
        match r {
            Some(j) => j < t@.len() && t@[j as int].0@ == k@,
            None => !has_key(t@, k@),
        },
{
    let mut i: usize = 0;
    while i < t.len()
        invariant
            i <= t@.len(),
            forall|j: int| 0 <= j < i ==> t@[j].0@ != k@,
        decreases t@.len() - i,
    {
        if t[i].0 == *k {
            return Some(i);
        }
        i = i + 1;
    }
    None
}

/// The wrapped sum of the shares at position `j` of each share list.
fn sent_sum(sent: &Vec<Vec<i64>>, j: usize) -> (r: i64)
    requires
        forall|p: int| 0 <= p < sent@.len() ==> j < (#[trigger] sent@[p])@.len(),
    ensures
        r as int == wrap64(sent_total(sent@, j as int)),
{
    let mut acc: i64 = 0;
    let mut p: usize = 0;
    while p < sent.len()
        invariant
            p <= sent@.len(),
            forall|q: int| 0 <= q < sent@.len() ==> j < (#[trigger] sent@[q])@.len(),
            acc as int == wrap64(sent_total(sent@.subrange(0, p as int), j as int)),
        decreases sent@.len() - p,
    {
        let ghost before = sent_total(sent@.subrange(0, p as int), j as int);
        let x = sent[p][j];
        proof {
            lemma_wrapping_add(acc, x);
            lemma_wrap_add(before, x as int);
            assert(sent@.subrange(0, p + 1).drop_last() =~= sent@.subrange(0, p as int));
            assert(sent@.subrange(0, p + 1).map_values(|row: Vec<i64>| row@[j as int] as int).drop_last()
                =~= sent@.subrange(0, p as int).map_values(|row: Vec<i64>| row@[j as int] as int));
        }
        acc = acc.wrapping_add(x);
        p = p + 1;
    }
    assert(sent@.subrange(0, p as int) =~= sent@);
    acc
}

/// This participant's partial sum: for each local key, its input less every
/// share it sent, plus every share it received for that key, all modulo 2^64.
/// `sent` holds one share list per other participant, aligned with `local`;
/// `received` holds every `(key, share)` record decoded from their blobs.
/// A received key that is not among the local keys is refused.
pub fn partial_sum(
    local: &Vec<(String, i64)>,
    sent: &Vec<Vec<i64>>,
    received: &Vec<(String, i64)>,
) -> (r: Result<Vec<(String, i64)>, ProtocolError>)
    requires
        unique_keys(local@),
        forall|p: int| 0 <= p < sent@.len() ==> (#[trigger] sent@[p])@.len() == local@.len(),
    ensures
        match r {
            Ok(t) => {
                &&& forall|q: int| 0 <= q < received@.len() ==> has_key(local@, #[trigger] received@[q].0@)
                &&& is_partial_sum(t@, local@, sent@, received@)
            },
            Err(e) => {
                &&& e == ProtocolError::UnknownKey
                &&& exists|q: int| 0 <= q < received@.len() && !has_key(local@, #[trigger] received@[q].0@)
            },
        },
{
    let n = local.len();
    let mut vals: Vec<i64> = Vec::new();
    let mut j: usize = 0;
    while j < n
        invariant
            n == local@.len(),
            j <= n,
            forall|p: int| 0 <= p < sent@.len() ==> (#[trigger] sent@[p])@.len() == local@.len(),
            vals@.len() == j,
            forall|i: int|
                0 <= i < j ==> #[trigger] vals@[i] as int == wrap64(local@[i].1 - sent_total(sent@, i)),
        decreases n - j,
    {
        let s = sent_sum(sent, j);
        let v = local[j].1;
        proof {
            lemma_wrapping_sub(v, s);
            lemma_wrap_neg(sent_total(sent@, j as int), v as int);
        }
        vals.push(v.wrapping_sub(s));
        j = j + 1;
    }
    let mut q: usize = 0;
    while q < received.len()
        invariant
            n == local@.len(),
            unique_keys(local@),
            vals@.len() == n,
            q <= received@.len(),
            forall|i: int| 0 <= i < q ==> has_key(local@, #[trigger] received@[i].0@),
            forall|i: int|
                0 <= i < n ==> #[trigger] vals@[i] as int == wrap64(
                    local@[i].1 - sent_total(sent@, i) + key_total(
                        received@.subrange(0, q as int),
                        local@[i].0@,
                    ),
                ),
        decreases received@.len() - q,
    {
        let ghost prefix = received@.subrange(0, q as int);
        let ghost next = received@.subrange(0, q + 1);
        assert(next.drop_last() =~= prefix);
        match find_key(local, &received[q].0) {
            None => {
                return Err(ProtocolError::UnknownKey);
            },
            Some(i) => {
                let old_v = vals[i];
                let x = received[q].1;
                proof {
                    lemma_wrapping_add(old_v, x);
                    lemma_wrap_add(
                        local@[i as int].1 - sent_total(sent@, i as int) + key_total(
                            prefix,
                            local@[i as int].0@,
                        ),
                        x as int,
                    );
                }
                vals.set(i, old_v.wrapping_add(x));
                assert forall|m: int| 0 <= m < n implies #[trigger] vals@[m] as int == wrap64(
                    local@[m].1 - sent_total(sent@, m) + key_total(next, local@[m].0@),
                ) by {
                    if m != i {
                        assert(local@[m].0@ != local@[i as int].0@);
                    }
                }
            },
        }
        q = q + 1;
    }
    assert(received@.subrange(0, q as int) =~= received@);
    let mut t: Vec<(String, i64)> = Vec::new();
    let mut k: usize = 0;
    while k < n
        invariant
            n == local@.len(),
            vals@.len() == n,
            k <= n,
            t@.len() == k,
            forall|i: int| 0 <= i < k ==> (#[trigger] t@[i]).0@ == local@[i].0@ && t@[i].1 == vals@[i],
        decreases n - k,
    {
        t.push((local[k].0.clone(), vals[k]));
        k = k + 1;
    }
    Ok(t)
}

/// A copy of a table.
pub fn copy_table(t: &Vec<(String, i64)>) -> (c: Vec<(String, i64)>)
    ensures
        c@ == t@,
{
    let mut c: Vec<(String, i64)> = Vec::new();
    let mut i: usize = 0;
    while i < t.len()
        invariant
            i <= t@.len(),
            c@ == t@.subrange(0, i as int),
        decreases t@.len() - i,
    {
        c.push((t[i].0.clone(), t[i].1));
        i = i + 1;
        assert(c@ =~= t@.subrange(0, i as int));
    }
    assert(t@.subrange(0, i as int) =~= t@);
    c
}

/// The keys of a table are strictly increasing in byte order.
pub open spec fn sorted_keys(t: Seq<(String, i64)>) -> bool {
    forall|i: int, j: int| 0 <= i < j < t.len() ==> key_lt(#[trigger] t[i].0@, #[trigger] t[j].0@)
}

pub proof fn lemma_key_total_single(e: (String, i64), k: Seq<char>)
    ensures
        key_total(seq![e], k) == if e.0@ == k {
            e.1 as int
        } else {
            0
        },
{
    assert(seq![e].drop_last() =~= Seq::<(String, i64)>::empty());
    assert(key_total(Seq::<(String, i64)>::empty(), k) == 0);
}

pub proof fn lemma_key_total_absent(t: Seq<(String, i64)>, k: Seq<char>)
    requires
        !has_key(t, k),
    ensures
        key_total(t, k) == 0,
    decreases t.len(),
{
    if t.len() > 0 {
        assert(!has_key(t.drop_last(), k)) by {
            if has_key(t.drop_last(), k) {
                let i = choose|i: int| 0 <= i < t.len() - 1 && t.drop_last()[i].0@ == k;
                assert(t[i].0@ == k);
            }
        }
        lemma_key_total_absent(t.drop_last(), k);
        assert(t.last().0@ != k) by {
            if t.last().0@ == k {
                assert(t[t.len() - 1].0@ == k);
            }
        }
    }
}

pub proof fn lemma_key_total_unique(t: Seq<(String, i64)>, j: int)
    requires
        unique_keys(t),
        0 <= j < t.len(),
    ensures
        key_total(t, t[j].0@) == t[j].1,
{
    let pre = t.subrange(0, j);
    let post = t.subrange(j + 1, t.len() as int);
    assert(t =~= pre + seq![t[j]] + post);
    lemma_key_total_concat(pre + seq![t[j]], post, t[j].0@);
    lemma_key_total_concat(pre, seq![t[j]], t[j].0@);
    assert(!has_key(pre, t[j].0@)) by {
        if has_key(pre, t[j].0@) {
            let i = choose|i: int| 0 <= i < pre.len() && pre[i].0@ == t[j].0@;
            assert(t[i].0@ == t[j].0@);
        }
    }
    assert(!has_key(post, t[j].0@)) by {
        if has_key(post, t[j].0@) {
            let i = choose|i: int| 0 <= i < post.len() && post[i].0@ == t[j].0@;
            assert(t[j + 1 + i].0@ == t[j].0@);
        }
    }
    lemma_key_total_absent(pre, t[j].0@);
    lemma_key_total_absent(post, t[j].0@);
    lemma_key_total_single(t[j], t[j].0@);
}

pub proof fn lemma_sorted_unique(t: Seq<(String, i64)>)
    requires
        sorted_keys(t),
    ensures
        unique_keys(t),
{
    assert forall|i: int, j: int| 0 <= i < j < t.len() implies t[i].0@ != t[j].0@ by {
        lemma_lex_irreflexive(key_bytes(t[i].0@));
        assert(key_lt(t[i].0@, t[j].0@));
    }
}

/// Adds `v` to the entry with key `k`, modulo 2^64, keeping the keys sorted;
/// a new key gets an entry of its own.
pub fn add_entry(acc: &mut Vec<(String, i64)>, k: &String, v: i64)
    requires
        sorted_keys(old(acc)@),
    ensures
        sorted_keys(final(acc)@),
        forall|key: Seq<char>|
            #[trigger] has_key(final(acc)@, key) <==> (has_key(old(acc)@, key) || key == k@),
        forall|key: Seq<char>|
            #[trigger] key_total(final(acc)@, key) == if key == k@ {
                wrap64(key_total(old(acc)@, key) + v)
            } else {
                key_total(old(acc)@, key)
            },
{
    let ghost t = acc@;
    let len = acc.len();
    let mut pos: usize = 0;
    let mut done = false;
    while !done
        invariant
            acc@ == t,
            len == t.len(),
            pos <= len,
            forall|i: int| 0 <= i < pos ==> key_lt(#[trigger] t[i].0@, k@),
            done ==> pos == len || !key_lt(t[pos as int].0@, k@),
        decreases len - pos + if done { 0int } else { 1int },
    {
        if pos == len {
            done = true;
        } else if compare_keys(&acc[pos].0, k) < 0 {
            pos = pos + 1;
        } else {
            done = true;
        }
    }
    proof {
        lemma_sorted_unique(t);
    }
    let pre = Ghost(t.subrange(0, pos as int));
    if pos < len && compare_keys(&acc[pos].0, k) == 0 {
        let old_v = acc[pos].1;
        let e = (k.clone(), old_v.wrapping_add(v));
        let ghost post = t.subrange(pos + 1, t.len() as int);
        acc.set(pos, e);
        proof {
            lemma_wrapping_add(old_v, v);
            lemma_key_total_unique(t, pos as int);
            assert(t =~= pre@ + seq![t[pos as int]] + post);
            assert(acc@ =~= pre@ + seq![e] + post);
            assert forall|key: Seq<char>|
                #[trigger] key_total(acc@, key) == if key == k@ {
                    wrap64(key_total(t, key) + v)
                } else {
                    key_total(t, key)
                } by {
                lemma_key_total_concat(pre@ + seq![e], post, key);
                lemma_key_total_concat(pre@, seq![e], key);
                lemma_key_total_concat(pre@ + seq![t[pos as int]], post, key);
                lemma_key_total_concat(pre@, seq![t[pos as int]], key);
                lemma_key_total_single(e, key);
                lemma_key_total_single(t[pos as int], key);
            }
            assert forall|key: Seq<char>|
                #[trigger] has_key(acc@, key) <==> (has_key(t, key) || key == k@) by {
                if key == k@ {
                    assert(acc@[pos as int].0@ == key);
                }
                if has_key(t, key) {
                    let i = choose|i: int| 0 <= i < t.len() && t[i].0@ == key;
                    assert(acc@[i].0@ == key);
                }
                if has_key(acc@, key) {
                    let i = choose|i: int| 0 <= i < acc@.len() && acc@[i].0@ == key;
                    if i != pos {
                        assert(t[i].0@ == key);
                    }
                }
            }
        }
    } else {
        let e = (k.clone(), v);
        proof {
            if pos < len {
                lemma_lex_total(key_bytes(t[pos as int].0@), key_bytes(k@));
                assert(key_lt(k@, t[pos as int].0@)) by {
                    if key_bytes(t[pos as int].0@) == key_bytes(k@) {
                        crate::order::lemma_key_bytes_injective(t[pos as int].0@, k@);
                    }
                }
            }
            assert forall|i: int| pos <= i < len implies key_lt(k@, #[trigger] t[i].0@) by {
                if i > pos {
                    lemma_lex_transitive(key_bytes(k@), key_bytes(t[pos as int].0@), key_bytes(t[i].0@));
                }
            }
            assert(!has_key(t, k@)) by {
                if has_key(t, k@) {
                    let i = choose|i: int| 0 <= i < t.len() && t[i].0@ == k@;
                    lemma_lex_irreflexive(key_bytes(k@));
                    if i < pos {
                        assert(key_lt(t[i].0@, k@));
                    } else {
                        assert(key_lt(k@, t[i].0@));
                    }
                }
            }
            lemma_key_total_absent(t, k@);
            crate::arith::lemma_wrap_small(v as int);
        }
        acc.insert(pos, e);
        proof {
            let post = t.subrange(pos as int, t.len() as int);
            assert(t =~= pre@ + post);
            assert(acc@ =~= pre@ + seq![e] + post);
            assert forall|key: Seq<char>|
                #[trigger] key_total(acc@, key) == if key == k@ {
                    wrap64(key_total(t, key) + v)
                } else {
                    key_total(t, key)
                } by {
                lemma_key_total_concat(pre@ + seq![e], post, key);
                lemma_key_total_concat(pre@, seq![e], key);
                lemma_key_total_concat(pre@, post, key);
                lemma_key_total_single(e, key);
            }
            assert forall|key: Seq<char>|
                #[trigger] has_key(acc@, key) <==> (has_key(t, key) || key == k@) by {
                if key == k@ {
                    assert(acc@[pos as int].0@ == key);
                }
                if has_key(t, key) {
                    let i = choose|i: int| 0 <= i < t.len() && t[i].0@ == key;
                    if i < pos {
                        assert(acc@[i].0@ == key);
                    } else {
                        assert(acc@[i + 1].0@ == key);
                    }
                }
                if has_key(acc@, key) {
                    let i = choose|i: int| 0 <= i < acc@.len() && acc@[i].0@ == key;
                    if i < pos {
                        assert(t[i].0@ == key);
                    } else if i > pos {
                        assert(t[i - 1].0@ == key);
                    }
                }
            }
            assert forall|i: int, j: int| 0 <= i < j < acc@.len() implies key_lt(
                #[trigger] acc@[i].0@,
                #[trigger] acc@[j].0@,
            ) by {
                if j < pos {
                } else if j == pos {
                } else if i < pos {
                    assert(acc@[j] == t[j - 1]);
                } else if i == pos {
                    assert(acc@[j] == t[j - 1]);
                } else {
                    assert(acc@[i] == t[i - 1]);
                    assert(acc@[j] == t[j - 1]);
                }
            }
        }
    }
}

/// Whether key `k` appears in some table of `tables`.
pub open spec fn appears(tables: Seq<Vec<(String, i64)>>, k: Seq<char>) -> bool {
    exists|i: int| 0 <= i < tables.len() && has_key(#[trigger] tables[i]@, k)
}

/// The sum, over all tables, of the values with key `k`.
pub open spec fn grand_total(tables: Seq<Vec<(String, i64)>>, k: Seq<char>) -> int {
    sum(tables.map_values(|t: Vec<(String, i64)>| key_total(t@, k)))
}

/// The leader's result: for every key that appears in some partial sum, the
/// sum of all partial sums for that key modulo 2^64, listed in byte order of
/// the keys.
pub fn aggregate(sums: &Vec<Vec<(String, i64)>>) -> (r: Vec<(String, i64)>)
    ensures
        is_result(r@, sums@),
{
    let mut acc: Vec<(String, i64)> = Vec::new();
    let mut i: usize = 0;
    proof {
        assert forall|k: Seq<char>| #[trigger] key_total(acc@, k) == wrap64(
            grand_total(sums@.subrange(0, 0), k),
        ) by {
            assert(sums@.subrange(0, 0).map_values(|t: Vec<(String, i64)>| key_total(t@, k))
                =~= Seq::<int>::empty());
        }
    }
    while i < sums.len()
        invariant
            i <= sums@.len(),
            sorted_keys(acc@),
            forall|k: Seq<char>| #[trigger]
                key_total(acc@, k) == wrap64(grand_total(sums@.subrange(0, i as int), k)),
            forall|k: Seq<char>| #[trigger]
                has_key(acc@, k) <==> appears(sums@.subrange(0, i as int), k),
        decreases sums@.len() - i,
    {
        let table = &sums[i];
        let ghost done = sums@.subrange(0, i as int);
        let mut q: usize = 0;
        proof {
            assert forall|k: Seq<char>| #[trigger] key_total(acc@, k) == wrap64(
                grand_total(done, k) + key_total(table@.subrange(0, 0), k),
            ) by {
                assert(table@.subrange(0, 0) =~= Seq::<(String, i64)>::empty());
            }
        }
        while q < table.len()
            invariant
                i < sums@.len(),
                table == &sums@[i as int],
                done == sums@.subrange(0, i as int),
                q <= table@.len(),
                sorted_keys(acc@),
                forall|k: Seq<char>| #[trigger]
                    key_total(acc@, k) == wrap64(
                        grand_total(done, k) + key_total(table@.subrange(0, q as int), k),
                    ),
                forall|k: Seq<char>| #[trigger]
                    has_key(acc@, k) <==> (appears(done, k) || has_key(
                        table@.subrange(0, q as int),
                        k,
                    )),
            decreases table@.len() - q,
        {
            let ghost before = acc@;
            let ghost seen = table@.subrange(0, q as int);
            let ghost next = table@.subrange(0, q + 1);
            add_entry(&mut acc, &table[q].0, table[q].1);
            proof {
                assert(next =~= seen + seq![table@[q as int]]);
                assert forall|k: Seq<char>| #[trigger]
                    key_total(acc@, k) == wrap64(grand_total(done, k) + key_total(next, k)) by {
                    lemma_key_total_concat(seen, seq![table@[q as int]], k);
                    lemma_key_total_single(table@[q as int], k);
                    if k == table@[q as int].0@ {
                        lemma_wrap_add(grand_total(done, k) + key_total(seen, k), table@[q as int].1 as int);
                    }
                }
                assert forall|k: Seq<char>| #[trigger]
                    has_key(acc@, k) <==> (appears(done, k) || has_key(next, k)) by {
                    if has_key(seen, k) {
                        let x = choose|x: int| 0 <= x < seen.len() && seen[x].0@ == k;
                        assert(next[x].0@ == k);
                    }
                    if k == table@[q as int].0@ {
                        assert(next[q as int].0@ == k);
                    }
                    if has_key(next, k) {
                        let x = choose|x: int| 0 <= x < next.len() && next[x].0@ == k;
                        if x < q {
                            assert(seen[x].0@ == k);
                        }
                    }
                }
            }
            q = q + 1;
        }
        proof {
            let upto = sums@.subrange(0, i + 1);
            assert(table@.subrange(0, q as int) =~= table@);
            assert(upto.drop_last() =~= done);
            assert forall|k: Seq<char>| #[trigger]
                key_total(acc@, k) == wrap64(grand_total(upto, k)) by {
                assert(upto.map_values(|t: Vec<(String, i64)>| key_total(t@, k)).drop_last()
                    =~= done.map_values(|t: Vec<(String, i64)>| key_total(t@, k)));
            }
            assert forall|k: Seq<char>| #[trigger]
                has_key(acc@, k) <==> appears(upto, k) by {
                if appears(done, k) {
                    let x = choose|x: int| 0 <= x < done.len() && has_key(#[trigger] done[x]@, k);
                    assert(upto[x] == done[x]);
                }
                if has_key(table@, k) {
                    assert(upto[i as int] == sums@[i as int]);
                }
                if appears(upto, k) {
                    let x = choose|x: int| 0 <= x < upto.len() && has_key(#[trigger] upto[x]@, k);
                    if x < i {
                        assert(done[x] == upto[x]);
                    }
                }
            }
        }
        i = i + 1;
    }
    proof {
        assert(sums@.subrange(0, i as int) =~= sums@);
        lemma_sorted_unique(acc@);
        assert forall|j: int| 0 <= j < acc@.len() implies (#[trigger] acc@[j]).1 as int == wrap64(
            grand_total(sums@, acc@[j].0@),
        ) by {
            lemma_key_total_unique(acc@, j);
        }
    }
    acc
}

/// Correctness of the exchange for one key `k`. Participant `i` holds input
/// `locals[i]`, sent the share lists `sents[i]` and received the records
/// `receiveds[i]`, and `partials[i]` is its partial sum as `partial_sum`
/// states it. When what `i` sent for `k` adds up to the row `shares[i]`
/// and what it received for `k` adds up to the column `i` of `shares`, the
/// wrapped total of the partial sums for `k`, and so the entry for `k` of
/// any result that `aggregate` may report for them, is the sum of the inputs
/// for `k` modulo 2^64.
pub proof fn lemma_exchange_correct(
    locals: Seq<Seq<(String, i64)>>,
    sents: Seq<Seq<Vec<i64>>>,
    receiveds: Seq<Seq<(String, i64)>>,
    partials: Seq<Vec<(String, i64)>>,
    result: Seq<(String, i64)>,
    k: Seq<char>,
    pos: Seq<int>,
    shares: Seq<Seq<int>>,
)
    requires
        locals.len() == sents.len(),
        locals.len() == receiveds.len(),
        locals.len() == partials.len(),
        locals.len() == pos.len(),
        locals.len() == shares.len(),
        forall|i: int| 0 <= i < shares.len() ==> (#[trigger] shares[i]).len() == locals.len(),
        forall|i: int|
            0 <= i < locals.len() ==> {
                &&& unique_keys(#[trigger] locals[i])
                &&& 0 <= pos[i] < locals[i].len()
                &&& locals[i][pos[i]].0@ == k
                &&& is_partial_sum(partials[i]@, locals[i], sents[i], receiveds[i])
                &&& sent_total(sents[i], pos[i]) == sum(shares[i])
                &&& key_total(receiveds[i], k) == sum(column(shares, i))
            },
        is_result(result, partials),
    ensures
        wrap64(grand_total(partials, k)) == wrap64(
            sum(Seq::new(locals.len(), |i: int| locals[i][pos[i]].1 as int)),
        ),
        forall|j: int|
            0 <= j < result.len() && (#[trigger] result[j]).0@ == k ==> result[j].1 as int
                == wrap64(sum(Seq::new(locals.len(), |i: int| locals[i][pos[i]].1 as int))),
{
    let n = locals.len();
    let values = Seq::new(n, |i: int| locals[i][pos[i]].1 as int);
    let masked = partials.map_values(|t: Vec<(String, i64)>| key_total(t@, k));
    assert forall|i: int| 0 <= i < n implies #[trigger] masked[i] == masked_value(
        values[i],
        shares[i],
        column(shares, i),
    ) by {
        assert(is_partial_sum(partials[i]@, locals[i], sents[i], receiveds[i]));
        assert(unique_keys(partials[i]@)) by {
            assert forall|a: int, b: int| 0 <= a < b < partials[i]@.len() implies partials[i]@[a].0@
                != partials[i]@[b].0@ by {
                assert(partials[i]@[a].0@ == locals[i][a].0@);
                assert(partials[i]@[b].0@ == locals[i][b].0@);
            }
        }
        assert(partials[i]@[pos[i]].0@ == k);
        lemma_key_total_unique(partials[i]@, pos[i]);
    }
    lemma_shares_cancel(values, shares, masked);
}

} // verus!
