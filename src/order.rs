//! Lexicographic order on the UTF-8 bytes of keys, the order in which a
//! published result lists its keys.
use vstd::prelude::*;
use vstd::utf8::{encode_utf8, encode_utf8_decode_utf8};

verus! {

/// The UTF-8 bytes of a key.
pub open spec fn key_bytes(k: Seq<char>) -> Seq<u8> {
    encode_utf8(k)
}

/// `a` comes strictly before `b` in lexicographic byte order.
pub open spec fn lex_lt(a: Seq<u8>, b: Seq<u8>) -> bool
    decreases a.len(),
{
    if a.len() == 0 {
        b.len() > 0
    } else if b.len() == 0 {
        false
    } else if a[0] != b[0] {
        a[0] < b[0]
    } else {
        lex_lt(a.drop_first(), b.drop_first())
    }
}

/// Key `a` comes strictly before key `b`.
pub open spec fn key_lt(a: Seq<char>, b: Seq<char>) -> bool {
    lex_lt(key_bytes(a), key_bytes(b))
}

pub proof fn lemma_lex_irreflexive(a: Seq<u8>)
    ensures
        !lex_lt(a, a),
    decreases a.len(),
{
    if a.len() > 0 {
        lemma_lex_irreflexive(a.drop_first());
    }
}

pub proof fn lemma_lex_asymmetric(a: Seq<u8>, b: Seq<u8>)
    ensures
        !(lex_lt(a, b) && lex_lt(b, a)),
    decreases a.len(),
{
    if a.len() > 0 && b.len() > 0 && a[0] == b[0] {
        lemma_lex_asymmetric(a.drop_first(), b.drop_first());
    }
}

pub proof fn lemma_lex_transitive(a: Seq<u8>, b: Seq<u8>, c: Seq<u8>)
    requires
        lex_lt(a, b),
        lex_lt(b, c),
    ensures
        lex_lt(a, c),
    decreases a.len(),
{
    if a.len() > 0 && b.len() > 0 && c.len() > 0 && a[0] == b[0] && b[0] == c[0] {
        lemma_lex_transitive(a.drop_first(), b.drop_first(), c.drop_first());
    }
}

pub proof fn lemma_lex_total(a: Seq<u8>, b: Seq<u8>)
    requires
        a != b,
    ensures
        lex_lt(a, b) || lex_lt(b, a),
    decreases a.len(),
{
    if a.len() > 0 && b.len() > 0 && a[0] == b[0] {
        if a.drop_first() == b.drop_first() {
            assert(a =~= seq![a[0]] + a.drop_first());
            assert(b =~= seq![b[0]] + b.drop_first());
        }
        lemma_lex_total(a.drop_first(), b.drop_first());
    } else if a.len() == 0 && b.len() == 0 {
        assert(a =~= b);
    }
}

/// Two keys with the same bytes are the same key.
pub proof fn lemma_key_bytes_injective(a: Seq<char>, b: Seq<char>)
    requires
        key_bytes(a) == key_bytes(b),
    ensures
        a == b,
{
    encode_utf8_decode_utf8(a);
    encode_utf8_decode_utf8(b);
}

/// Past a common prefix, the order is decided by what follows it.
proof fn lemma_lex_skip(a: Seq<u8>, b: Seq<u8>, i: int)
    requires
        0 <= i <= a.len(),
        i <= b.len(),
        a.subrange(0, i) == b.subrange(0, i),
    ensures
        lex_lt(a, b) == lex_lt(a.subrange(i, a.len() as int), b.subrange(i, b.len() as int)),
    decreases i,
{
    if i > 0 {
        assert(a[0] == a.subrange(0, i)[0]);
        assert(b[0] == b.subrange(0, i)[0]);
        assert(a.drop_first().subrange(0, i - 1) =~= a.subrange(0, i).drop_first());
        assert(b.drop_first().subrange(0, i - 1) =~= b.subrange(0, i).drop_first());
        lemma_lex_skip(a.drop_first(), b.drop_first(), i - 1);
        assert(a.drop_first().subrange(i - 1, a.len() - 1) =~= a.subrange(i, a.len() as int));
        assert(b.drop_first().subrange(i - 1, b.len() - 1) =~= b.subrange(i, b.len() as int));
    } else {
        assert(a.subrange(0, a.len() as int) =~= a);
        assert(b.subrange(0, b.len() as int) =~= b);
    }
}

/// Compares two keys: negative when `a` comes first, zero when they are
/// equal, positive when `b` comes first.
pub fn compare_keys(a: &String, b: &String) -> (r: i8)
    ensures
        r < 0 <==> key_lt(a@, b@),
        r == 0 <==> a@ == b@,
        r > 0 <==> key_lt(b@, a@),
{
    let x = a.as_str().as_bytes();
    let y = b.as_str().as_bytes();
    let ghost xs = key_bytes(a@);
    let ghost ys = key_bytes(b@);
    assert(x@ == xs);
    assert(y@ == ys);
    let mut i: usize = 0;
    while i < x.len() && i < y.len()
        invariant
            xs == key_bytes(a@),
            ys == key_bytes(b@),
            x@ == xs,
            y@ == ys,
            i <= xs.len(),
            i <= ys.len(),
            xs.subrange(0, i as int) == ys.subrange(0, i as int),
        decreases xs.len() - i,
    {
        if x[i] != y[i] {
            proof {
                lemma_lex_skip(xs, ys, i as int);
                lemma_lex_skip(ys, xs, i as int);
                lemma_lex_asymmetric(xs, ys);
                let xr = xs.subrange(i as int, xs.len() as int);
                let yr = ys.subrange(i as int, ys.len() as int);
                assert(xr[0] == xs[i as int]);
                assert(yr[0] == ys[i as int]);
                assert(xr.len() > 0 && yr.len() > 0);
                assert(lex_lt(xr, yr) == (xs[i as int] < ys[i as int]));
                assert(lex_lt(yr, xr) == (ys[i as int] < xs[i as int]));
                if a@ == b@ {
                    assert(key_bytes(a@) == key_bytes(b@));
                    assert(xs == ys);
                }
            }
            if x[i] < y[i] {
                return -1;
            } else {
                return 1;
            }
        }
        assert(xs.subrange(0, i + 1) =~= xs.subrange(0, i as int).push(xs[i as int]));
        assert(ys.subrange(0, i + 1) =~= ys.subrange(0, i as int).push(ys[i as int]));
        i = i + 1;
    }
    proof {
        lemma_lex_skip(xs, ys, i as int);
        lemma_lex_skip(ys, xs, i as int);
        lemma_lex_irreflexive(xs);
        let xr = xs.subrange(i as int, xs.len() as int);
        let yr = ys.subrange(i as int, ys.len() as int);
        if xs.len() < ys.len() {
            assert(xr.len() == 0 && yr.len() > 0);
        } else if ys.len() < xs.len() {
            assert(yr.len() == 0 && xr.len() > 0);
        }
        if xs.len() == ys.len() {
            assert(xs =~= xs.subrange(0, i as int));
            assert(ys =~= ys.subrange(0, i as int));
            lemma_key_bytes_injective(a@, b@);
        } else {
            if a@ == b@ {
                assert(xs == ys);
            }
        }
    }
    if x.len() == y.len() {
        0
    } else if x.len() < y.len() {
        -1
    } else {
        1
    }
}

} // verus!
