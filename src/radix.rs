//! Mixed-radix numbering: a counter stands for one combination of
//! per-dimension indices, the first dimension varying fastest.
use vstd::arithmetic::div_mod::{
    lemma_div_denominator, lemma_fundamental_div_mod, lemma_fundamental_div_mod_converse,
    lemma_multiply_divide_lt,
};
use vstd::arithmetic::mul::lemma_mul_inequality;
use vstd::prelude::*;

verus! {

/// The number of combinations: the product of the radices.
pub open spec fn product(sizes: Seq<nat>) -> nat
    decreases sizes.len(),
{
    if sizes.len() == 0 {
        1
    } else {
        sizes[0] * product(sizes.drop_first())
    }
}

/// The digits of `k` in the mixed radix `sizes`, least significant first.
pub open spec fn radix_digits(k: nat, sizes: Seq<nat>) -> Seq<nat>
    decreases sizes.len(),
{
    if sizes.len() == 0 {
        seq![]
    } else {
        seq![k % sizes[0]] + radix_digits(k / sizes[0], sizes.drop_first())
    }
}

/// The number whose mixed-radix digits are `digits`.
pub open spec fn radix_value(digits: Seq<nat>, sizes: Seq<nat>) -> nat
    decreases sizes.len(),
{
    if digits.len() == 0 || sizes.len() == 0 {
        0
    } else {
        digits[0] + sizes[0] * radix_value(digits.drop_first(), sizes.drop_first())
    }
}

/// Whether `digits` is a digit sequence in the radix `sizes`.
pub open spec fn digits_in_range(digits: Seq<nat>, sizes: Seq<nat>) -> bool {
    &&& digits.len() == sizes.len()
    &&& forall|i: int| 0 <= i < digits.len() ==> #[trigger] digits[i] < sizes[i]
}

/// Decoding has one digit per radix.
pub proof fn lemma_radix_len(k: nat, sizes: Seq<nat>)
    requires
        forall|i: int| 0 <= i < sizes.len() ==> #[trigger] sizes[i] > 0,
    ensures
        radix_digits(k, sizes).len() == sizes.len(),
    decreases sizes.len(),
{
    if sizes.len() > 0 {
        let rest = sizes.drop_first();
        assert(sizes[0] > 0);
        assert forall|i: int| 0 <= i < rest.len() implies #[trigger] rest[i] > 0 by {
            assert(sizes[i + 1] > 0);
        }
        lemma_radix_len(k / sizes[0], rest);
    }
}

/// Every digit sequence in range is the decoding of one counter below the
/// product.
pub proof fn lemma_radix_encode(digits: Seq<nat>, sizes: Seq<nat>)
    requires
        digits_in_range(digits, sizes),
    ensures
        radix_value(digits, sizes) < product(sizes),
        radix_digits(radix_value(digits, sizes), sizes) == digits,
    decreases sizes.len(),
{
    if sizes.len() > 0 {
        let rest_d = digits.drop_first();
        let rest_s = sizes.drop_first();
        assert(digits_in_range(rest_d, rest_s)) by {
            assert forall|i: int| 0 <= i < rest_d.len() implies #[trigger] rest_d[i] < rest_s[i] by {
                assert(digits[i + 1] < sizes[i + 1]);
            }
        }
        lemma_radix_encode(rest_d, rest_s);
        let v = radix_value(rest_d, rest_s);
        let n = sizes[0];
        let d0 = digits[0];
        assert(d0 < n);
        let x = d0 + n * v;
        assert(x == radix_value(digits, sizes));
        assert(x == v * n + d0) by (nonlinear_arith)
            requires
                x == d0 + n * v,
        ;
        lemma_fundamental_div_mod_converse(x as int, n as int, v as int, d0 as int);
        lemma_mul_inequality((v + 1) as int, product(rest_s) as int, n as int);
        assert((v + 1) * n == n * v + n) by (nonlinear_arith);
        assert(product(rest_s) * n == n * product(rest_s)) by (nonlinear_arith);
        assert(radix_digits(x, sizes) =~= digits);
    }
}

/// Decoding a counter below the product gives digits in range, from which
/// the counter is recovered.
pub proof fn lemma_radix_decode(k: nat, sizes: Seq<nat>)
    requires
        k < product(sizes),
    ensures
        digits_in_range(radix_digits(k, sizes), sizes),
        radix_value(radix_digits(k, sizes), sizes) == k,
    decreases sizes.len(),
{
    if sizes.len() > 0 {
        let n = sizes[0];
        let rest = sizes.drop_first();
        assert(n > 0) by {
            if n == 0 {
                assert(product(sizes) == 0 * product(rest));
            }
        }
        let q = k / n;
        lemma_multiply_divide_lt(k as int, n as int, product(rest) as int);
        lemma_radix_decode(q, rest);
        lemma_fundamental_div_mod(k as int, n as int);
        let ds = radix_digits(k, sizes);
        assert(ds.drop_first() =~= radix_digits(q, rest));
        assert forall|i: int| 0 <= i < ds.len() implies #[trigger] ds[i] < sizes[i] by {
            if i > 0 {
                assert(ds[i] == radix_digits(q, rest)[i - 1]);
            }
        }
    }
}

/// The digits from position `m` on depend only on the counter divided by
/// the product of the radices below `m`.
pub proof fn lemma_radix_high(k: nat, sizes: Seq<nat>, m: nat)
    requires
        m <= sizes.len(),
        forall|i: int| 0 <= i < sizes.len() ==> #[trigger] sizes[i] > 0,
    ensures
        radix_digits(k, sizes).subrange(m as int, sizes.len() as int) == radix_digits(
            k / product(sizes.take(m as int)),
            sizes.skip(m as int),
        ),
    decreases m,
{
    lemma_radix_len(k, sizes);
    if m == 0 {
        assert(sizes.take(0) =~= Seq::<nat>::empty());
        assert(product(sizes.take(0)) == 1);
        assert(sizes.skip(0) =~= sizes);
        assert(radix_digits(k, sizes).subrange(0, sizes.len() as int) =~= radix_digits(k, sizes));
    } else {
        let n = sizes[0];
        let rest = sizes.drop_first();
        assert(n > 0);
        assert forall|i: int| 0 <= i < rest.len() implies #[trigger] rest[i] > 0 by {
            assert(sizes[i + 1] > 0);
        }
        let q = k / n;
        lemma_radix_high(q, rest, (m - 1) as nat);
        lemma_radix_len(q, rest);
        assert(radix_digits(k, sizes) == seq![k % n] + radix_digits(q, rest));
        assert(radix_digits(k, sizes).subrange(m as int, sizes.len() as int) =~= radix_digits(
            q,
            rest,
        ).subrange(m - 1, rest.len() as int));
        assert(rest.skip(m - 1) =~= sizes.skip(m as int));
        assert(sizes.take(m as int).drop_first() =~= rest.take(m - 1));
        let p = product(rest.take(m - 1));
        assert(product(sizes.take(m as int)) == n * p);
        assert forall|i: int| 0 <= i < rest.take(m - 1).len() implies #[trigger] rest.take(
            m - 1,
        )[i] > 0 by {
            assert(rest[i] > 0);
        }
        lemma_product_positive(rest.take(m - 1));
        lemma_div_denominator(k as int, n as int, p as int);
        assert(q / p == k / (n * p));
    }
}

/// Appending a radix multiplies the product by it.
pub proof fn lemma_product_push(sizes: Seq<nat>, n: nat)
    ensures
        product(sizes.push(n)) == product(sizes) * n,
    decreases sizes.len(),
{
    if sizes.len() == 0 {
        assert(sizes.push(n).drop_first() =~= Seq::<nat>::empty());
        assert(product(Seq::<nat>::empty()) == 1);
        assert(product(sizes.push(n)) == n * product(sizes.push(n).drop_first()));
        assert(product(sizes) == 1);
        assert(product(sizes.push(n)) == n);
    } else {
        let rest = sizes.drop_first();
        assert(sizes.push(n).drop_first() =~= rest.push(n));
        lemma_product_push(rest, n);
        let a = sizes[0];
        let b = product(rest);
        assert(product(sizes.push(n)) == a * product(rest.push(n)));
        assert(a * (b * n) == (a * b) * n) by (nonlinear_arith);
        assert(product(sizes) == a * b);
    }
}

/// The product of the first `m + 1` radices.
pub proof fn lemma_product_take(sizes: Seq<nat>, m: int)
    requires
        0 <= m < sizes.len(),
    ensures
        product(sizes.take(m + 1)) == product(sizes.take(m)) * sizes[m],
{
    assert(sizes.take(m + 1) =~= sizes.take(m).push(sizes[m]));
    lemma_product_push(sizes.take(m), sizes[m]);
}

/// One step of decoding: the lowest digit, and the digits of the quotient
/// in the remaining radices.
pub proof fn lemma_radix_step(k: nat, sizes: Seq<nat>, j: int)
    requires
        0 <= j < sizes.len(),
        sizes[j] > 0,
    ensures
        radix_digits(k, sizes.skip(j)) == seq![k % sizes[j]] + radix_digits(
            k / sizes[j],
            sizes.skip(j + 1),
        ),
{
    assert(sizes.skip(j).drop_first() =~= sizes.skip(j + 1));
    assert(sizes.skip(j)[0] == sizes[j]);
}

/// A product of positive radices is positive.
pub proof fn lemma_product_positive(sizes: Seq<nat>)
    requires
        forall|i: int| 0 <= i < sizes.len() ==> #[trigger] sizes[i] > 0,
    ensures
        product(sizes) > 0,
    decreases sizes.len(),
{
    if sizes.len() > 0 {
        let rest = sizes.drop_first();
        assert forall|i: int| 0 <= i < rest.len() implies #[trigger] rest[i] > 0 by {
            assert(sizes[i + 1] > 0);
        }
        lemma_product_positive(rest);
        let a = sizes[0];
        let b = product(rest);
        assert(a * b > 0) by (nonlinear_arith)
            requires
                a > 0,
                b > 0,
        ;
    }
}

} // verus!
