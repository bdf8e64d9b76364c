//! Natural numbers of any size, as far as an exact sum of products needs
//! them: adding a shifted amount and comparing.

use vstd::prelude::*;
use vstd::arithmetic::power2::{lemma2_to64, lemma_pow2_adds, lemma_pow2_pos, lemma_pow2_unfold, pow2};

verus! {

/// The weight of limb `j`: `2^(32 j)`.
pub open spec fn weight(j: nat) -> nat {
    pow2(32 * j)
}

/// The number that the limbs stand for, the least significant limb first,
/// each limb worth `2^32` times the one before it.
pub open spec fn limbs_value(limbs: Seq<u32>) -> nat
    decreases limbs.len(),
{
    if limbs.len() == 0 {
        0
    } else {
        limbs_value(limbs.drop_last()) + limbs.last() as nat * weight((limbs.len() - 1) as nat)
    }
}

proof fn lemma_weight_step(j: nat)
    ensures
        weight(j + 1) == 0x1_0000_0000 * weight(j),
        weight(j) > 0,
        weight(0) == 1,
{
    lemma_pow2_adds(32, 32 * j);
    lemma_pow2_pos(32 * j);
    lemma2_to64();
}

/// Limbs are digits: the number is below the weight of the next limb.
proof fn lemma_value_bound(limbs: Seq<u32>)
    ensures
        limbs_value(limbs) < weight(limbs.len()),
    decreases limbs.len(),
{
    if limbs.len() == 0 {
        lemma_weight_step(0);
    } else {
        let n = (limbs.len() - 1) as nat;
        lemma_value_bound(limbs.drop_last());
        lemma_weight_step(n);
        let w = weight(n) as int;
        let d = limbs.last() as int;
        assert(d * w <= 0xFFFF_FFFF * w) by (nonlinear_arith)
            requires
                d <= 0xFFFF_FFFF,
                w > 0,
        ;
    }
}

/// A changed limb changes the number by the change times the limb's weight.
proof fn lemma_value_update(limbs: Seq<u32>, j: int, digit: u32)
    requires
        0 <= j < limbs.len(),
    ensures
        limbs_value(limbs.update(j, digit)) == limbs_value(limbs) + (digit as int - limbs[j] as int)
            * weight(j as nat),
    decreases limbs.len(),
{
    let changed = limbs.update(j, digit);
    let w = weight(j as nat) as int;
    if j == limbs.len() - 1 {
        assert(changed.drop_last() =~= limbs.drop_last());
        assert((digit as int - limbs[j] as int) * w == digit as int * w - limbs[j] as int * w)
            by (nonlinear_arith);
    } else {
        lemma_value_update(limbs.drop_last(), j, digit);
        assert(changed.drop_last() =~= limbs.drop_last().update(j, digit));
    }
}

/// A limb of zero at the top changes nothing.
proof fn lemma_value_push_zero(limbs: Seq<u32>)
    ensures
        limbs_value(limbs.push(0)) == limbs_value(limbs),
{
    let longer = limbs.push(0);
    assert(longer.drop_last() =~= limbs);
    assert(longer.last() == 0);
    assert(longer.last() as nat * weight((longer.len() - 1) as nat) == 0) by (nonlinear_arith)
        requires
            longer.last() == 0,
    ;
}

/// `2^e` for a small `e`.
fn small_power(e: u32) -> (p: u128)
    requires
        e < 32,
    ensures
        p == pow2(e as nat),
        p < 0x1_0000_0000,
{
    proof {
        lemma2_to64();
    }
    let mut p: u128 = 1;
    let mut i: u32 = 0;
    while i < e
        invariant
            i <= e,
            e < 32,
            p == pow2(i as nat),
            p <= 0x8000_0000,
            i < 31 ==> p <= 0x4000_0000,
        decreases e - i,
    {
        proof {
            lemma_pow2_unfold((i + 1) as nat);
            lemma2_to64();
        }
        p = p * 2;
        i += 1;
    }
    p
}

/// Adds `amount * 2^shift` to the number in `limbs`.
pub fn add_shifted(limbs: &mut Vec<u32>, amount: u64, shift: u32)
    ensures
        limbs_value(final(limbs)@) == limbs_value(old(limbs)@) + amount * pow2(shift as nat),
{
    let first = (shift / 32) as usize;
    let within = shift % 32;
    let factor = small_power(within);
    assert(amount * factor < 0x1_0000_0000_0000_0000_0000_0000_0000) by (nonlinear_arith)
        requires
            amount < 0x1_0000_0000_0000_0000,
            factor < 0x1_0000_0000,
    ;
    let mut carry: u128 = amount as u128 * factor;
    let ghost target: int = limbs_value(limbs@) + amount * pow2(shift as nat);
    proof {
        lemma_pow2_adds(within as nat, (32 * first) as nat);
        assert(shift == within + 32 * first);
        let a = amount as int;
        let f = pow2(within as nat) as int;
        let w = weight(first as nat) as int;
        assert(a * (f * w) == (a * f) * w) by (nonlinear_arith);
    }
    while limbs.len() < first
        invariant
            limbs_value(limbs@) + carry * weight(first as nat) == target,
        decreases first - limbs.len(),
    {
        proof {
            lemma_value_push_zero(limbs@);
        }
        limbs.push(0);
    }
    let mut j: usize = first;
    while j < limbs.len()
        invariant
            first <= j <= limbs.len(),
            carry < 0x1_0000_0000_0000_0000_0000_0000_0000,
            limbs_value(limbs@) + carry * weight(j as nat) == target,
        decreases limbs.len() - j,
    {
        let ghost before = limbs@;
        let sum: u128 = limbs[j] as u128 + carry;
        let low = (sum % 0x1_0000_0000) as u32;
        let high = sum / 0x1_0000_0000;
        limbs.set(j, low);
        proof {
            lemma_value_update(before, j as int, low);
            lemma_weight_step(j as nat);
            let w = weight(j as nat) as int;
            let l = low as int;
            let h = high as int;
            let d = before[j as int] as int;
            let c = carry as int;
            assert(l + 0x1_0000_0000 * h == d + c);
            assert((l - d) * w + h * (0x1_0000_0000 * w) == c * w) by (nonlinear_arith)
                requires
                    l + 0x1_0000_0000 * h == d + c,
            ;
        }
        carry = high;
        j += 1;
    }
    while carry > 0
        invariant
            carry < 0x1_0000_0000_0000_0000_0000_0000_0000,
            limbs_value(limbs@) + carry * weight(limbs.len() as nat) == target,
        decreases carry,
    {
        let ghost before = limbs@;
        let low = (carry % 0x1_0000_0000) as u32;
        let high = carry / 0x1_0000_0000;
        limbs.push(low);
        proof {
            assert(limbs@.drop_last() =~= before);
            lemma_weight_step(before.len());
            let w = weight(before.len()) as int;
            let l = low as int;
            let h = high as int;
            let c = carry as int;
            assert(l * w + h * (0x1_0000_0000 * w) == c * w) by (nonlinear_arith)
                requires
                    l + 0x1_0000_0000 * h == c,
            ;
        }
        carry = high;
    }
}

/// Limb `j` of the number, which is zero above the top limb.
fn limb(limbs: &Vec<u32>, j: usize) -> (d: u32)
    ensures
        d == if j < limbs.len() { limbs[j as int] } else { 0 },
{
    if j < limbs.len() {
        limbs[j]
    } else {
        0
    }
}

/// The limbs of `limbs` below limb `k`, with zeros where `limbs` ends.
spec fn low_part(limbs: Seq<u32>, k: nat) -> Seq<u32> {
    Seq::new(k, |i: int| if i < limbs.len() { limbs[i] } else { 0 })
}

proof fn lemma_low_part(limbs: Seq<u32>, k: nat)
    requires
        k >= limbs.len(),
    ensures
        limbs_value(low_part(limbs, k)) == limbs_value(limbs),
    decreases k,
{
    if k == limbs.len() {
        assert(low_part(limbs, k) =~= limbs);
    } else {
        lemma_low_part(limbs, (k - 1) as nat);
        let longer = low_part(limbs, k);
        assert(longer.drop_last() =~= low_part(limbs, (k - 1) as nat));
        assert(longer.last() == 0);
        assert(longer.last() as nat * weight((longer.len() - 1) as nat) == 0) by (nonlinear_arith)
            requires
                longer.last() == 0,
        ;
    }
}

/// Whether the number in `a` is at least the number in `b`.
pub fn at_least(a: &Vec<u32>, b: &Vec<u32>) -> (r: bool)
    ensures
        r == (limbs_value(a@) >= limbs_value(b@)),
{
    let top = if a.len() > b.len() {
        a.len()
    } else {
        b.len()
    };
    proof {
        lemma_low_part(a@, top as nat);
        lemma_low_part(b@, top as nat);
    }
    let mut k: usize = top;
    while k > 0
        invariant
            k <= top,
            limbs_value(a@) - limbs_value(b@) == limbs_value(low_part(a@, k as nat)) - limbs_value(
                low_part(b@, k as nat),
            ),
        decreases k,
    {
        k -= 1;
        let x = limb(a, k);
        let y = limb(b, k);
        proof {
            let la = low_part(a@, (k + 1) as nat);
            let lb = low_part(b@, (k + 1) as nat);
            assert(la.drop_last() =~= low_part(a@, k as nat));
            assert(lb.drop_last() =~= low_part(b@, k as nat));
            assert(la.last() == x && lb.last() == y);
            lemma_value_bound(low_part(a@, k as nat));
            lemma_value_bound(low_part(b@, k as nat));
            let w = weight(k as nat) as int;
            let xi = x as int;
            let yi = y as int;
            if x > y {
                assert(xi * w - yi * w >= w) by (nonlinear_arith)
                    requires
                        xi > yi,
                        w > 0,
                ;
            }
            if x < y {
                assert(yi * w - xi * w >= w) by (nonlinear_arith)
                    requires
                        yi > xi,
                        w > 0,
                ;
            }
            lemma_weight_step(k as nat);
        }
        if x > y {
            return true;
        }
        if x < y {
            return false;
        }
    }
    assert(low_part(a@, 0) =~= low_part(b@, 0));
    true
}

} // verus!
