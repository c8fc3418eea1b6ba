//! Two's-complement 64-bit arithmetic as used by the masking algebra, and the
//! sums that the protocol's correctness rests on.
use vstd::prelude::*;
use vstd::arithmetic::div_mod::{lemma_fundamental_div_mod, lemma_mod_multiples_vanish};

verus! {

/// The size of the ring in which all shares and sums live.
pub open spec fn ring() -> int {
    0x1_0000_0000_0000_0000
}

/// The signed 64-bit value congruent to `x` modulo 2^64.
pub open spec fn wrap64(x: int) -> int {
    let m = x % ring();
    if m > i64::MAX as int {
        m - ring()
    } else {
        m
    }
}

/// The sum of a sequence of integers.
pub open spec fn sum(s: Seq<int>) -> int
    decreases s.len(),
{
    if s.len() == 0 {
        0
    } else {
        sum(s.drop_last()) + s.last()
    }
}

pub proof fn lemma_wrap_small(x: int)
    requires
        i64::MIN <= x <= i64::MAX,
    ensures
        wrap64(x) == x,
{
    if x >= 0 {
        assert(x % ring() == x);
    } else {
        lemma_fundamental_div_mod(x, ring());
        assert(x % ring() == x + ring());
    }
}

pub proof fn lemma_wrap_shift(x: int, k: int)
    ensures
        wrap64(x + k * ring()) == wrap64(x),
{
    lemma_mod_multiples_vanish(k, x, ring());
    assert(k * ring() + x == x + k * ring());
}

/// Wrapping an intermediate result does not change the final value.
pub proof fn lemma_wrap_add(x: int, y: int)
    ensures
        wrap64(wrap64(x) + y) == wrap64(x + y),
{
    lemma_fundamental_div_mod(x, ring());
    let q = x / ring();
    if x % ring() > i64::MAX as int {
        assert(wrap64(x) + y == (x + y) + (-q - 1) * ring()) by (nonlinear_arith)
            requires
                wrap64(x) == x % ring() - ring(),
                x == ring() * q + x % ring(),
        ;
        lemma_wrap_shift(x + y, -q - 1);
    } else {
        assert(wrap64(x) + y == (x + y) + (-q) * ring()) by (nonlinear_arith)
            requires
                wrap64(x) == x % ring(),
                x == ring() * q + x % ring(),
        ;
        lemma_wrap_shift(x + y, -q);
    }
}

pub proof fn lemma_wrap_neg(x: int, y: int)
    ensures
        wrap64(y - wrap64(x)) == wrap64(y - x),
{
    lemma_fundamental_div_mod(x, ring());
    let q = x / ring();
    if x % ring() > i64::MAX as int {
        assert(y - wrap64(x) == (y - x) + (q + 1) * ring()) by (nonlinear_arith)
            requires
                wrap64(x) == x % ring() - ring(),
                x == ring() * q + x % ring(),
        ;
        lemma_wrap_shift(y - x, q + 1);
    } else {
        assert(y - wrap64(x) == (y - x) + q * ring()) by (nonlinear_arith)
            requires
                wrap64(x) == x % ring(),
                x == ring() * q + x % ring(),
        ;
        lemma_wrap_shift(y - x, q);
    }
}

pub proof fn lemma_wrapping_add(a: i64, b: i64)
    ensures
        a.wrapping_add(b) as int == wrap64(a + b),
{
    let s = a + b;
    if s > i64::MAX {
        lemma_wrap_small(s - ring());
        lemma_wrap_shift(s - ring(), 1);
    } else if s < i64::MIN {
        lemma_wrap_small(s + ring());
        lemma_wrap_shift(s + ring(), -1);
    } else {
        lemma_wrap_small(s);
    }
}

pub proof fn lemma_wrapping_sub(a: i64, b: i64)
    ensures
        a.wrapping_sub(b) as int == wrap64(a - b),
{
    let s = a - b;
    if s > i64::MAX {
        lemma_wrap_small(s - ring());
        lemma_wrap_shift(s - ring(), 1);
    } else if s < i64::MIN {
        lemma_wrap_small(s + ring());
        lemma_wrap_shift(s + ring(), -1);
    } else {
        lemma_wrap_small(s);
    }
}

/// Column `j` of a matrix given as a sequence of rows.
pub open spec fn column(m: Seq<Seq<int>>, j: int) -> Seq<int> {
    m.map_values(|row: Seq<int>| row[j])
}

pub proof fn lemma_sum_pointwise(a: Seq<int>, b: Seq<int>)
    requires
        a.len() == b.len(),
    ensures
        sum(Seq::new(a.len(), |i: int| a[i] + b[i])) == sum(a) + sum(b),
    decreases a.len(),
{
    let c = Seq::new(a.len(), |i: int| a[i] + b[i]);
    if a.len() > 0 {
        let a2 = a.drop_last();
        let b2 = b.drop_last();
        lemma_sum_pointwise(a2, b2);
        assert(c.drop_last() =~= Seq::new(a2.len(), |i: int| a2[i] + b2[i]));
    }
}

pub proof fn lemma_sum_diff(a: Seq<int>, b: Seq<int>)
    requires
        a.len() == b.len(),
    ensures
        sum(Seq::new(a.len(), |i: int| a[i] - b[i])) == sum(a) - sum(b),
    decreases a.len(),
{
    let c = Seq::new(a.len(), |i: int| a[i] - b[i]);
    if a.len() > 0 {
        let a2 = a.drop_last();
        let b2 = b.drop_last();
        lemma_sum_diff(a2, b2);
        assert(c.drop_last() =~= Seq::new(a2.len(), |i: int| a2[i] - b2[i]));
    }
}

/// Adding up a matrix by rows or by columns gives the same total.
pub proof fn lemma_rows_columns(m: Seq<Seq<int>>, c: nat)
    requires
        forall|i: int| 0 <= i < m.len() ==> (#[trigger] m[i]).len() == c,
    ensures
        sum(m.map_values(|row: Seq<int>| sum(row))) == sum(
            Seq::new(c, |j: int| sum(column(m, j))),
        ),
    decreases m.len(),
{
    let cols = Seq::new(c, |j: int| sum(column(m, j)));
    if m.len() == 0 {
        assert forall|j: int| 0 <= j < c implies cols[j] == 0 by {
            assert(column(m, j).len() == 0);
        }
        lemma_sum_zeros(cols);
    } else {
        let m2 = m.drop_last();
        let last = m.last();
        lemma_rows_columns(m2, c);
        let cols2 = Seq::new(c, |j: int| sum(column(m2, j)));
        assert forall|j: int| 0 <= j < c implies cols[j] == cols2[j] + last[j] by {
            assert(column(m, j).drop_last() =~= column(m2, j));
        }
        assert(cols =~= Seq::new(cols2.len(), |j: int| cols2[j] + last[j]));
        lemma_sum_pointwise(cols2, last);
        assert(m.map_values(|row: Seq<int>| sum(row)).drop_last() =~= m2.map_values(
            |row: Seq<int>| sum(row),
        ));
    }
}

pub proof fn lemma_sum_zeros(s: Seq<int>)
    requires
        forall|i: int| 0 <= i < s.len() ==> s[i] == 0,
    ensures
        sum(s) == 0,
    decreases s.len(),
{
    if s.len() > 0 {
        lemma_sum_zeros(s.drop_last());
    }
}

/// Wrapping each summand does not change the wrapped total.
pub proof fn lemma_wrap_sum(s: Seq<int>)
    ensures
        wrap64(sum(s.map_values(|x: int| wrap64(x)))) == wrap64(sum(s)),
    decreases s.len(),
{
    let w = s.map_values(|x: int| wrap64(x));
    if s.len() > 0 {
        let s2 = s.drop_last();
        lemma_wrap_sum(s2);
        assert(w.drop_last() =~= s2.map_values(|x: int| wrap64(x)));
        let a = sum(w.drop_last());
        let b = sum(s2);
        // wrap(a + wrap(l)) == wrap(wrap(a) + wrap(l)) == wrap(wrap(b) + wrap(l)) == wrap(b + l)
        lemma_wrap_add(a, wrap64(s.last()));
        lemma_wrap_add(b, wrap64(s.last()));
        lemma_wrap_add(s.last(), b);
        lemma_wrap_add(wrap64(s.last()), b);
        assert(wrap64(s.last()) + b == b + wrap64(s.last()));
        assert(s.last() + b == b + s.last());
    }
}

} // verus!
