//! Addition, multiplication and Gray code on 32-bit words, by bit operations.

use vstd::arithmetic::div_mod::{lemma_add_mod_noop, lemma_mul_mod_noop_left};
use vstd::prelude::*;

verus! {

/// The sum of two words, reduced to 32 bits.
pub open spec fn wrapping_sum(a: u32, b: u32) -> u32 {
    ((a + b) % 0x1_0000_0000) as u32
}

/// The product of two words, reduced to 32 bits.
pub open spec fn wrapping_product(a: u32, b: u32) -> u32 {
    ((a * b) % 0x1_0000_0000) as u32
}

/// The Gray code of a word.
pub open spec fn gray(n: u32) -> u32 {
    n ^ (n >> 1)
}

/// Adds two words with `^`, `&` and `<<` alone; a carry out of the top bit
/// is dropped.
pub fn adder(a: u32, b: u32) -> (res: u32)
    ensures
        res == wrapping_sum(a, b),
{
    let mut x: u32 = a;
    let mut y: u32 = b;
    let ghost mut low: u64 = 0;
    proof {
        assert(((y as u64) >> low) << low == y as u64) by (bit_vector)
            requires
                low == 0,
        ;
    }
    while y != 0
        invariant
            low <= 32,
            ((y as u64) >> low) << low == y as u64,
            wrapping_sum(x, y) == wrapping_sum(a, b),
        decreases 32 - low,
    {
        let carry: u32 = x & y;
        let sum: u32 = x ^ y;
        let shifted: u32 = carry << 1;
        proof {
            assert(low < 32) by (bit_vector)
                requires
                    low <= 32,
                    y != 0,
                    ((y as u64) >> low) << low == y as u64,
            ;
            assert((sum as u64 + shifted as u64) % 0x1_0000_0000 == (x as u64 + y as u64)
                % 0x1_0000_0000) by (bit_vector)
                requires
                    sum == x ^ y,
                    shifted == (x & y) << 1,
            ;
            assert(((shifted as u64) >> ((low + 1) as u64)) << ((low + 1) as u64) == shifted as u64) by (bit_vector)
                requires
                    low < 32,
                    ((y as u64) >> low) << low == y as u64,
                    shifted == (x & y) << 1,
            ;
            low = (low + 1) as u64;
        }
        x = sum;
        y = shifted;
    }
    x
}

/// Multiplies two words by shifting and adding; what does not fit in 32
/// bits is dropped.
pub fn multiplier(a: u32, b: u32) -> (res: u32)
    ensures
        res == wrapping_product(a, b),
{
    let mut acc: u32 = 0;
    let mut x: u32 = a;
    let mut y: u32 = b;
    while y != 0
        invariant
            (acc + x * y) % 0x1_0000_0000 == (a * b) % 0x1_0000_0000,
        decreases y,
    {
        let ghost (acc0, x0, y0) = (acc, x, y);
        let odd: bool = y & 1 == 1;
        if odd {
            acc = adder(acc, x);
        }
        x = x << 1;
        y = y >> 1;
        proof {
            let m: int = 0x1_0000_0000;
            let r: int = if odd {
                1
            } else {
                0
            };
            assert(y0 & 1 == y0 % 2) by (bit_vector);
            assert(y0 >> 1 == y0 / 2) by (bit_vector);
            assert((x0 << 1) as u64 == (x0 as u64 * 2) % 0x1_0000_0000) by (bit_vector);
            assert(acc as int == (acc0 + r * x0) % m);
            assert(x as int == (2 * x0) % m);
            assert(y0 as int == 2 * y + r);
            let first: int = acc0 + r * x0;
            let second: int = (2 * x0) * y;
            lemma_mul_mod_noop_left(2 * x0, y as int, m);
            lemma_add_mod_noop(first, x * y, m);
            lemma_add_mod_noop(first, second, m);
            lemma_add_mod_noop(first % m, x * y, m);
            vstd::arithmetic::div_mod::lemma_mod_twice(first, m);
            assert(first + second == acc0 + x0 * y0) by (nonlinear_arith)
                requires
                    first == acc0 + r * x0,
                    second == (2 * x0) * y,
                    y0 == 2 * y + r,
            ;
        }
    }
    acc
}

/// The Gray code of a word.
pub fn grey_code(n: u32) -> (res: u32)
    ensures
        res == gray(n),
{
    n ^ (n >> 1)
}

} // verus!
