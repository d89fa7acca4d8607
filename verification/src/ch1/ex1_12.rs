//! The triangle of binomial coefficients, by recursion on rows.

use vstd::prelude::*;

use crate::arith::spec_pow;
use crate::arith::lemma_pow_increases;
use crate::arith::lemma_pow_pos;

verus! {

/// The triangle entry: ones on both edges, and above-left plus above
/// inside.
pub open spec fn spec_yanghui(row: int, col: int) -> int
    decreases row,
{
    if col == 1 || row == col {
        1
    } else if row < 1 {
        0
    } else {
        spec_yanghui(row - 1, col - 1) + spec_yanghui(row - 1, col)
    }
}

/// Inside the triangle every entry is positive and bounded by the
/// matching power of two.
pub proof fn lemma_yanghui_bound(row: int, col: int)
    requires
        1 <= col <= row,
    ensures
        1 <= spec_yanghui(row, col) <= spec_pow(2, row as nat),
    decreases row,
{
    lemma_pow_pos(2, row as nat);
    if col == 1 || row == col {
    } else {
        lemma_yanghui_bound(row - 1, col - 1);
        lemma_yanghui_bound(row - 1, col);
        assert(spec_pow(2, row as nat) == 2 * spec_pow(2, (row - 1) as nat));
    }
}

/// One entry of the triangle.
pub fn yanghui_rec(row: i64, col: i64) -> (r: i64)
    requires
        1 <= col <= row,
        row <= 61,
    ensures
        r == spec_yanghui(row as int, col as int),
    decreases row,
{
    if col == 1 || row == col {
        return 1;
    }
    proof {
        lemma_yanghui_bound(row - 1, col - 1);
        lemma_yanghui_bound(row - 1, col as int);
        lemma_pow_increases(2, (row - 1) as nat, 61);
        lemma_pow2_61();
    }
    let a = yanghui_rec(row - 1, col - 1);
    let b = yanghui_rec(row - 1, col);
    a + b
}

/// The sixty-first power of two, small enough that a sum of two
/// triangle entries fits the machine word.
proof fn lemma_pow2_61()
    ensures
        spec_pow(2, 61) == 0x2000_0000_0000_0000,
{
    lemma_pow2_step(0, 1);
    lemma_pow2_step(1, 2);
    lemma_pow2_step(2, 4);
    lemma_pow2_step(3, 8);
    lemma_pow2_step(4, 16);
    lemma_pow2_step(5, 32);
    lemma_pow2_step(6, 64);
    lemma_pow2_step(7, 128);
    lemma_pow2_step(8, 256);
    lemma_pow2_step(9, 512);
    lemma_pow2_step(10, 1024);
    lemma_pow2_step(11, 2048);
    lemma_pow2_step(12, 4096);
    lemma_pow2_step(13, 8192);
    lemma_pow2_step(14, 16384);
    lemma_pow2_step(15, 32768);
    lemma_pow2_step(16, 65536);
    lemma_pow2_step(17, 131072);
    lemma_pow2_step(18, 262144);
    lemma_pow2_step(19, 524288);
    lemma_pow2_step(20, 1048576);
    lemma_pow2_step(21, 2097152);
    lemma_pow2_step(22, 4194304);
    lemma_pow2_step(23, 8388608);
    lemma_pow2_step(24, 16777216);
    lemma_pow2_step(25, 33554432);
    lemma_pow2_step(26, 67108864);
    lemma_pow2_step(27, 134217728);
    lemma_pow2_step(28, 268435456);
    lemma_pow2_step(29, 536870912);
    lemma_pow2_step(30, 1073741824);
    lemma_pow2_step(31, 2147483648);
    lemma_pow2_step(32, 4294967296);
    lemma_pow2_step(33, 8589934592);
    lemma_pow2_step(34, 17179869184);
    lemma_pow2_step(35, 34359738368);
    lemma_pow2_step(36, 68719476736);
    lemma_pow2_step(37, 137438953472);
    lemma_pow2_step(38, 274877906944);
    lemma_pow2_step(39, 549755813888);
    lemma_pow2_step(40, 1099511627776);
    lemma_pow2_step(41, 2199023255552);
    lemma_pow2_step(42, 4398046511104);
    lemma_pow2_step(43, 8796093022208);
    lemma_pow2_step(44, 17592186044416);
    lemma_pow2_step(45, 35184372088832);
    lemma_pow2_step(46, 70368744177664);
    lemma_pow2_step(47, 140737488355328);
    lemma_pow2_step(48, 281474976710656);
    lemma_pow2_step(49, 562949953421312);
    lemma_pow2_step(50, 1125899906842624);
    lemma_pow2_step(51, 2251799813685248);
    lemma_pow2_step(52, 4503599627370496);
    lemma_pow2_step(53, 9007199254740992);
    lemma_pow2_step(54, 18014398509481984);
    lemma_pow2_step(55, 36028797018963968);
    lemma_pow2_step(56, 72057594037927936);
    lemma_pow2_step(57, 144115188075855872);
    lemma_pow2_step(58, 288230376151711744);
    lemma_pow2_step(59, 576460752303423488);
    lemma_pow2_step(60, 1152921504606846976);
}

/// One doubling step in evaluating a power of two.
proof fn lemma_pow2_step(n: nat, v: int)
    requires
        spec_pow(2, n) == v,
    ensures
        spec_pow(2, n + 1) == 2 * v,
{
    crate::arith::lemma_pow_adds(2, n, 1);
    assert(spec_pow(2, 1) == 2 * spec_pow(2, 0));
}

} // verus!
