//! Positional numerals: the value of a big-endian digit string in a given
//! base, and how the order of such strings relates to the order of their values.

use vstd::prelude::*;

verus! {

/// The number that the digits `d` denote in base `base`, most significant digit first.
pub open spec fn be_value(d: Seq<int>, base: int) -> int
    decreases d.len(),
{
    if d.len() == 0 {
        0
    } else {
        be_value(d.drop_last(), base) * base + d.last()
    }
}

/// Every digit lies in `0..base`.
pub open spec fn in_base(d: Seq<int>, base: int) -> bool {
    forall|i: int| 0 <= i < d.len() ==> 0 <= #[trigger] d[i] < base
}

/// `a` and `b` hold the same digits at every place before `k`.
pub open spec fn agree_before(a: Seq<int>, b: Seq<int>, k: int) -> bool {
    forall|j: int| 0 <= j < k ==> #[trigger] a[j] == b[j]
}

/// Place `k` is the first at which `a` and `b` differ, and `a` is smaller there.
pub open spec fn first_less_at(a: Seq<int>, b: Seq<int>, k: int) -> bool {
    &&& 0 <= k < a.len()
    &&& k < b.len()
    &&& a[k] < b[k]
    &&& agree_before(a, b, k)
}

/// `a` comes before `b` in dictionary order, for strings of one length.
pub open spec fn lex_less(a: Seq<int>, b: Seq<int>) -> bool {
    exists|k: int| first_less_at(a, b, k)
}

/// `base` raised to the power `n`.
pub open spec fn power(base: int, n: nat) -> int
    decreases n,
{
    if n == 0 {
        1
    } else {
        base * power(base, (n - 1) as nat)
    }
}

/// A numeral of `n` digits denotes a number in `0..base^n`.
pub proof fn lemma_value_bound(d: Seq<int>, base: int)
    requires
        in_base(d, base),
    ensures
        0 <= be_value(d, base) < power(base, d.len()),
    decreases d.len(),
{
    if d.len() > 0 {
        let p = d.drop_last();
        lemma_value_bound(p, base);
        let v = be_value(p, base);
        let q = power(base, p.len());
        assert(0 <= d.last() < base);
        assert(power(base, d.len()) == base * q);
        assert(0 <= v * base && v * base + base <= base * q) by (nonlinear_arith)
            requires
                0 <= v < q,
                base > 0,
        ;
    }
}

/// Among numerals of one length, equal values mean equal digits, and the
/// smaller value belongs to the numeral that comes first in dictionary order.
pub proof fn lemma_value_order(a: Seq<int>, b: Seq<int>, base: int)
    requires
        a.len() == b.len(),
        in_base(a, base),
        in_base(b, base),
    ensures
        be_value(a, base) == be_value(b, base) <==> a == b,
        be_value(a, base) < be_value(b, base) <==> lex_less(a, b),
    decreases a.len(),
{
    if a.len() == 0 {
        assert(a =~= b);
    } else {
        let n = a.len() - 1;
        let a1 = a.drop_last();
        let b1 = b.drop_last();
        lemma_value_order(a1, b1, base);
        lemma_value_order(b1, a1, base);
        let va = be_value(a1, base);
        let vb = be_value(b1, base);
        assert(0 <= a[n] < base && 0 <= b[n] < base);
        if a1 == b1 {
            assert(agree_before(a, b, n)) by {
                assert forall|j: int| 0 <= j < n implies #[trigger] a[j] == b[j] by {
                    assert(a1[j] == a[j] && b1[j] == b[j]);
                }
            }
            if a[n] < b[n] {
                assert(first_less_at(a, b, n));
            }
            if a[n] == b[n] {
                assert(a =~= (a1.push(a[n])));
                assert(b =~= (b1.push(b[n])));
            }
            if lex_less(a, b) {
                let k = choose|k: int| first_less_at(a, b, k);
                if k < n {
                    assert(a1[k] == a[k] && b1[k] == b[k]);
                }
            }
        } else if va < vb {
            let k = choose|k: int| first_less_at(a1, b1, k);
            assert(first_less_at(a, b, k)) by {
                assert(a1[k] == a[k] && b1[k] == b[k]);
                assert forall|j: int| 0 <= j < k implies #[trigger] a[j] == b[j] by {
                    assert(a1[j] == a[j] && b1[j] == b[j]);
                }
            }
            assert(va * base + base <= vb * base) by (nonlinear_arith)
                requires
                    va + 1 <= vb,
                    base > 0,
            ;
        } else {
            let k = choose|k: int| first_less_at(b1, a1, k);
            assert(b1[k] == b[k] && a1[k] == a[k]);
            assert(vb * base + base <= va * base) by (nonlinear_arith)
                requires
                    vb + 1 <= va,
                    base > 0,
            ;
            if lex_less(a, b) {
                let k2 = choose|k2: int| first_less_at(a, b, k2);
                if k2 < k {
                    assert(b1[k2] == b[k2] && a1[k2] == a[k2]);
                } else if k < k2 {
                    assert(a[k] == b[k]);
                }
            }
        }
    }
}

} // verus!
