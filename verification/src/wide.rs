//! Products of machine integers that no machine integer can hold, kept as
//! 64-bit digits, least significant first, and their comparison.

use vstd::prelude::*;

verus! {

/// The base of the digits: two to the power of 64.
pub open spec fn base() -> int {
    0x1_0000_0000_0000_0000
}

/// The weight of digit `k`: the base to the power of `k`.
pub open spec fn weight(k: nat) -> int
    decreases k,
{
    if k == 0 {
        1
    } else {
        base() * weight((k - 1) as nat)
    }
}

/// The number that the digits stand for.
pub open spec fn value(digits: Seq<u64>) -> int
    decreases digits.len(),
{
    if digits.len() == 0 {
        0
    } else {
        value(digits.drop_last()) + digits.last() * weight((digits.len() - 1) as nat)
    }
}

/// The product of the factors; 1 for none.
pub open spec fn product(factors: Seq<usize>) -> int
    decreases factors.len(),
{
    if factors.len() == 0 {
        1
    } else {
        product(factors.drop_last()) * factors.last()
    }
}

proof fn lemma_weight_positive(k: nat)
    ensures
        weight(k) >= 1,
    decreases k,
{
    if k > 0 {
        lemma_weight_positive((k - 1) as nat);
        assert(base() * weight((k - 1) as nat) >= 1) by (nonlinear_arith)
            requires
                weight((k - 1) as nat) >= 1,
                base() >= 1,
        ;
    }
}

/// Digits stand for a number below the weight of the next digit.
proof fn lemma_value_bound(digits: Seq<u64>)
    ensures
        0 <= value(digits) < weight(digits.len()),
    decreases digits.len(),
{
    if digits.len() > 0 {
        let rest = digits.drop_last();
        let top = digits.last() as int;
        let w = weight(rest.len());
        lemma_value_bound(rest);
        lemma_weight_positive(rest.len());
        assert(0 <= top * w && top * w + w <= base() * w) by (nonlinear_arith)
            requires
                0 <= top < base(),
                w >= 1,
        ;
    }
}

/// Where two numbers of equal length differ first from the top, the digit
/// there decides which is smaller.
proof fn lemma_top_difference_decides(a: Seq<u64>, b: Seq<u64>, i: int)
    requires
        a.len() == b.len(),
        0 <= i < a.len(),
        a[i] < b[i],
        forall|j: int| i < j < a.len() ==> a[j] == b[j],
    ensures
        value(a) < value(b),
    decreases a.len(),
{
    let w = weight((a.len() - 1) as nat);
    if i == a.len() - 1 {
        lemma_value_bound(a.drop_last());
        lemma_value_bound(b.drop_last());
        let x = a.last() as int;
        let y = b.last() as int;
        assert(x * w + w <= y * w) by (nonlinear_arith)
            requires
                x + 1 <= y,
                w >= 0,
        ;
    } else {
        lemma_top_difference_decides(a.drop_last(), b.drop_last(), i);
    }
}

/// The digits of `digits` times `factor`.
fn times(digits: &Vec<u64>, factor: u64) -> (result: Vec<u64>)
    ensures
        value(result@) == value(digits@) * factor,
        result@.len() == digits@.len() + 1,
{
    let mut result: Vec<u64> = Vec::new();
    let mut carry: u64 = 0;
    let mut i: usize = 0;
    assert(digits@.take(0) =~= Seq::<u64>::empty());
    assert(value(digits@.take(0)) * factor == 0);
    while i < digits.len()
        invariant
            i <= digits.len(),
            result@.len() == i,
            value(result@) + carry * weight(i as nat) == value(digits@.take(i as int)) * factor,
        decreases digits.len() - i,
    {
        let digit = digits[i];
        assert(digit * factor + carry <= 0xffff_ffff_ffff_ffff_0000_0000_0000_0000) by (nonlinear_arith)
            requires
                0 <= digit <= 0xffff_ffff_ffff_ffff,
                0 <= factor <= 0xffff_ffff_ffff_ffff,
                0 <= carry <= 0xffff_ffff_ffff_ffff,
        ;
        let wide: u128 = digit as u128 * factor as u128 + carry as u128;
        let low: u64 = (wide % 0x1_0000_0000_0000_0000u128) as u64;
        let high: u64 = (wide / 0x1_0000_0000_0000_0000u128) as u64;
        proof {
            let w = weight(i as nat);
            let before = value(result@);
            let taken = value(digits@.take(i as int));
            assert(digits@.take(i + 1).drop_last() =~= digits@.take(i as int));
            assert(result@.push(low).drop_last() =~= result@);
            assert(wide == low + high * base());
            assert(value(digits@.take(i + 1)) == taken + digit * w);
            assert(value(result@.push(low)) == before + low * w);
            assert(weight((i + 1) as nat) == base() * w);
            assert(before + low * w + high * (base() * w) == (taken + digit * w) * factor) by (nonlinear_arith)
                requires
                    before + carry * w == taken * factor,
                    digit * factor + carry == low + high * base(),
            ;
        }
        result.push(low);
        carry = high;
        i += 1;
    }
    proof {
        assert(digits@.take(digits@.len() as int) =~= digits@);
        assert(result@.push(carry).drop_last() =~= result@);
    }
    result.push(carry);
    result
}

/// The digits of the product of the factors.
fn product_digits(factors: &[usize]) -> (digits: Vec<u64>)
    ensures
        value(digits@) == product(factors@),
        digits@.len() == factors@.len() + 1,
{
    let mut digits: Vec<u64> = Vec::new();
    digits.push(1);
    proof {
        assert(digits@.drop_last() =~= Seq::<u64>::empty());
        assert(value(digits@.drop_last()) == 0);
        assert(weight(0) == 1);
        assert(factors@.take(0) =~= Seq::<usize>::empty());
    }
    let mut i: usize = 0;
    while i < factors.len()
        invariant
            i <= factors.len(),
            digits@.len() == i + 1,
            value(digits@) == product(factors@.take(i as int)),
        decreases factors.len() - i,
    {
        proof {
            assert(factors@.take(i + 1).drop_last() =~= factors@.take(i as int));
        }
        digits = times(&digits, factors[i] as u64);
        i += 1;
    }
    proof {
        assert(factors@.take(factors@.len() as int) =~= factors@);
    }
    digits
}

/// Whether the number of `a` is smaller than that of `b`.
fn digits_less(a: &Vec<u64>, b: &Vec<u64>) -> (less: bool)
    requires
        a@.len() == b@.len(),
    ensures
        less == (value(a@) < value(b@)),
{
    let mut i: usize = a.len();
    while i > 0
        invariant
            i <= a.len(),
            a@.len() == b@.len(),
            forall|j: int| i <= j < a.len() ==> a@[j] == b@[j],
        decreases i,
    {
        i -= 1;
        if a[i] < b[i] {
            proof {
                lemma_top_difference_decides(a@, b@, i as int);
            }
            return true;
        }
        if a[i] > b[i] {
            proof {
                lemma_top_difference_decides(b@, a@, i as int);
            }
            return false;
        }
    }
    assert(a@ =~= b@);
    false
}

/// Whether the product of `a` is smaller than the product of `b`, for as
/// many factors on one side as on the other.
pub(crate) fn product_less(a: &[usize], b: &[usize]) -> (less: bool)
    requires
        a@.len() == b@.len(),
    ensures
        less == (product(a@) < product(b@)),
{
    let left = product_digits(a);
    let right = product_digits(b);
    digits_less(&left, &right)
}

} // verus!
