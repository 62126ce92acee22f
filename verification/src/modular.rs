//! Arithmetic modulo the core size.
//!
//! Every address and every field in the core is a residue of the core size:
//! sums, differences and products are taken modulo it, so none is ever
//! negative or out of range.

use vstd::prelude::*;
use vstd::arithmetic::div_mod::{
    lemma_div_pos_is_pos,
    lemma_fundamental_div_mod,
    lemma_mod_add_multiples_vanish,
    lemma_mod_pos_bound,
    lemma_small_mod,
};
use vstd::arithmetic::mul::lemma_mul_inequality;

verus! {

/// The largest core size: every address fits a field of sixteen bits.
pub const MAX_CORE_SIZE: u32 = 65535;

/// The residue of `x` modulo `n`, in `0 .. n` for a positive `n` whatever the
/// sign of `x`.
pub open spec fn wrap(x: int, n: int) -> int {
    x % n
}

/// A residue is in range.
pub proof fn lemma_wrap_range(x: int, n: int)
    requires
        0 < n,
    ensures
        0 <= wrap(x, n) < n,
{
    vstd::arithmetic::div_mod::lemma_mod_bound(x, n);
}

/// A value in range is its own residue.
pub proof fn lemma_wrap_small(x: int, n: int)
    requires
        0 <= x < n,
    ensures
        wrap(x, n) == x,
{
    lemma_small_mod(x as nat, n as nat);
}

/// Going once more round the core changes nothing.
pub proof fn lemma_wrap_period(x: int, n: int)
    requires
        0 < n,
    ensures
        wrap(n + x, n) == wrap(x, n),
        wrap(x + n, n) == wrap(x, n),
{
    lemma_mod_add_multiples_vanish(x, n);
}

/// Reducing a term of a sum beforehand does not change the residue of the sum.
pub proof fn lemma_wrap_add(x: int, y: int, n: int)
    requires
        0 < n,
    ensures
        wrap(wrap(x, n) + y, n) == wrap(x + y, n),
        wrap(wrap(x, n), n) == wrap(x, n),
{
    vstd::arithmetic::div_mod::lemma_add_mod_noop_right(y, x, n);
    assert(wrap(x, n) + y == y + x % n);
    assert(x + y == y + x);
    vstd::arithmetic::div_mod::lemma_mod_twice(x, n);
}

/// One below zero is the last residue.
pub proof fn lemma_wrap_minus_one(n: int)
    requires
        0 < n,
    ensures
        wrap(-1, n) == n - 1,
{
    lemma_wrap_period(-1, n);
    lemma_wrap_small(n - 1, n);
}

/// `x` reduced modulo `n`.
pub fn reduce(x: u32, n: u32) -> (r: u32)
    requires
        0 < n,
    ensures
        r == wrap(x as int, n as int),
        r < n,
{
    proof {
        lemma_mod_pos_bound(x as int, n as int);
    }
    x % n
}

/// The sum of two residues.
pub fn add_mod(x: u32, y: u32, n: u32) -> (r: u32)
    requires
        0 < n <= MAX_CORE_SIZE,
        x < n,
        y < n,
    ensures
        r == wrap(x + y, n as int),
        r < n,
{
    let s: u32 = x + y;
    if s >= n {
        proof {
            lemma_wrap_period(s - n, n as int);
            lemma_wrap_small(s - n, n as int);
        }
        s - n
    } else {
        proof {
            lemma_wrap_small(s as int, n as int);
        }
        s
    }
}

/// The difference of two residues.
pub fn sub_mod(x: u32, y: u32, n: u32) -> (r: u32)
    requires
        0 < n <= MAX_CORE_SIZE,
        x < n,
        y < n,
    ensures
        r == wrap(x - y, n as int),
        r < n,
{
    if x >= y {
        proof {
            lemma_wrap_small(x - y, n as int);
        }
        x - y
    } else {
        proof {
            lemma_wrap_period(x - y, n as int);
            lemma_wrap_small(n + (x - y), n as int);
        }
        x + n - y
    }
}

/// The residue after `x`.
pub fn inc_mod(x: u32, n: u32) -> (r: u32)
    requires
        0 < n <= MAX_CORE_SIZE,
        x < n,
    ensures
        r == wrap(x + 1, n as int),
        r < n,
{
    if x + 1 == n {
        proof {
            lemma_wrap_period(0, n as int);
            lemma_wrap_small(0, n as int);
        }
        0
    } else {
        proof {
            lemma_wrap_small(x + 1, n as int);
        }
        x + 1
    }
}

/// The residue before `x`: the last one before zero.
pub fn dec_mod(x: u32, n: u32) -> (r: u32)
    requires
        0 < n <= MAX_CORE_SIZE,
        x < n,
    ensures
        r == wrap(x - 1, n as int),
        r < n,
{
    if x == 0 {
        proof {
            lemma_wrap_minus_one(n as int);
        }
        n - 1
    } else {
        proof {
            lemma_wrap_small(x - 1, n as int);
        }
        x - 1
    }
}

/// The product of two residues.
pub fn mul_mod(x: u32, y: u32, n: u32) -> (r: u32)
    requires
        0 < n <= MAX_CORE_SIZE,
        x < n,
        y < n,
    ensures
        r == wrap(x * y, n as int),
        r < n,
{
    assert(x * y <= 65535 * 65535) by (nonlinear_arith)
        requires
            x <= 65535,
            y <= 65535,
    ;
    assert(0 <= x * y) by (nonlinear_arith);
    proof {
        lemma_mod_pos_bound(x * y, n as int);
    }
    (x * y) % n
}

/// The quotient of a residue by a non-zero residue is a residue.
pub proof fn lemma_quotient_range(x: int, y: int, n: int)
    requires
        0 <= x < n,
        0 < y,
    ensures
        0 <= x / y <= x,
        0 <= x % y < y,
        x % y <= x,
{
    lemma_div_pos_is_pos(x, y);
    lemma_mod_pos_bound(x, y);
    lemma_fundamental_div_mod(x, y);
    if x / y >= 1 {
        lemma_mul_inequality(1, x / y, y);
        assert(y * (x / y) == (x / y) * y) by (nonlinear_arith);
    } else {
        assert(x / y == 0);
        assert(y * (x / y) == 0) by (nonlinear_arith)
            requires
                x / y == 0,
        ;
    }
}

} // verus!
