//! Work-group sizing: how many groups of a given width cover a given number
//! of elements.

use vstd::prelude::*;
use vstd::arithmetic::div_mod::lemma_fundamental_div_mod;
use vstd::arithmetic::div_mod::lemma_fundamental_div_mod_converse;

verus! {

/// Number of work-groups of width `local` needed to cover `size` elements.
pub open spec fn ceil_div(size: int, local: int) -> int {
    (size + local - 1) / local
}

/// The covering facts about `ceil_div`: enough groups are launched, no group
/// beyond the last is, and the group count never exceeds the element count.
pub proof fn lemma_ceil_div(size: int, local: int)
    requires
        size >= 1,
        local >= 1,
    ensures
        ceil_div(size, local) >= 1,
        ceil_div(size, local) * local >= size,
        (ceil_div(size, local) - 1) * local < size,
        ceil_div(size, local) <= size,
{
    let q = ceil_div(size, local);
    lemma_fundamental_div_mod(size + local - 1, local);
    let m = (size + local - 1) % local;
    assert(size + local - 1 == local * q + m);
    assert(q * local >= size && (q - 1) * local < size) by (nonlinear_arith)
        requires
            size + local - 1 == local * q + m,
            0 <= m < local,
            size >= 1,
            local >= 1;
    assert(q >= 1) by (nonlinear_arith)
        requires
            q * local >= size,
            size >= 1,
            local >= 1;
    assert(q <= size) by (nonlinear_arith)
        requires
            size + local - 1 == local * q + m,
            0 <= m < local,
            size >= 1,
            local >= 1;
}

/// Work-group count for a one-dimensional launch over `size` elements with
/// work-groups of width `num_threads`.
pub fn calc_num_blocks(size: usize, num_threads: usize) -> (r: usize)
    requires
        num_threads >= 1,
    ensures
        r == ceil_div(size as int, num_threads as int),
{
    if size == 0 {
        assert(ceil_div(0, num_threads as int) == 0) by (nonlinear_arith)
            requires num_threads >= 1;
        0
    } else {
        let q = (size - 1) / num_threads;
        proof {
            lemma_fundamental_div_mod(size as int - 1, num_threads as int);
            assert(size as int + num_threads as int - 1
                == (q as int + 1) * num_threads as int
                    + (size as int - 1) % num_threads as int) by (nonlinear_arith)
                requires
                    size as int - 1 == num_threads as int * q as int
                        + (size as int - 1) % num_threads as int;
            lemma_fundamental_div_mod_converse(
                size as int + num_threads as int - 1,
                num_threads as int,
                q as int + 1,
                (size as int - 1) % num_threads as int,
            );
            lemma_ceil_div(size as int, num_threads as int);
        }
        1 + q
    }
}

/// `calc_num_blocks` over the device's 32-bit size arguments; the count of
/// groups never exceeds the element count, so it stays in range.
pub fn num_blocks_u32(size: u32, local: u32) -> (r: u32)
    requires
        size >= 1,
        local >= 1,
    ensures
        r == ceil_div(size as int, local as int),
        r >= 1,
        r <= size,
        r * local >= size,
        (r - 1) * local < size,
{
    proof {
        lemma_ceil_div(size as int, local as int);
    }
    ((size as u64 + local as u64 - 1) / local as u64) as u32
}

} // verus!
