use vstd::prelude::*;

use crate::layout::NONCE_SIZE;
use crate::partition::NonceRange;

verus! {

/// The finaliser of the SplitMix64 generator: a bijection on 64-bit words
/// that spreads every input bit over the output.
pub open spec fn mix(x: u64) -> u64 {
    let a = (x ^ (x >> 30u64)).wrapping_mul(0xbf58_476d_1ce4_e5b9u64);
    let b = (a ^ (a >> 27u64)).wrapping_mul(0x94d0_49bb_1331_11ebu64);
    b ^ (b >> 31u64)
}

/// The seed of a nonce's block: identity and nonce mixed together.
pub open spec fn block_seed(identity: u64, nonce: u64) -> u64 {
    mix(identity.wrapping_mul(0x9e37_79b9_7f4a_7c15u64) ^ mix(nonce))
}

/// Word `k` of the block of `nonce` for `identity`.
pub open spec fn block_word(identity: u64, nonce: u64, k: u64) -> u64 {
    mix(block_seed(identity, nonce).wrapping_add(((k + 1) * 0x9e37_79b9) as u64))
}

/// Byte `i` of the block of `nonce` for `identity`: words in order, each
/// little-endian.
pub open spec fn block_byte(identity: u64, nonce: u64, i: u64) -> u8 {
    (block_word(identity, nonce, i / 8) >> (8 * (i % 8))) as u8
}

/// The blocks of the `count` nonces from `start`, one after another.
pub open spec fn blocks(identity: u64, start: int, count: int) -> Seq<u8> {
    Seq::new(
        (count * NONCE_SIZE) as nat,
        |i: int| block_byte(identity, (start + i / NONCE_SIZE as int) as u64, (i % NONCE_SIZE as int) as u64),
    )
}

fn mix_exec(x: u64) -> (r: u64)
    ensures
        r == mix(x),
{
    let a = (x ^ (x >> 30u64)).wrapping_mul(0xbf58_476d_1ce4_e5b9u64);
    let b = (a ^ (a >> 27u64)).wrapping_mul(0x94d0_49bb_1331_11ebu64);
    b ^ (b >> 31u64)
}

/// CPU hash backend: writes the blocks of the nonces in `range` into `out`,
/// which has room for exactly those blocks. The bytes depend on the identity
/// and each nonce alone.
pub fn fill(identity: u64, range: NonceRange, out: &mut Vec<u8>)
    requires
        range.start <= range.end,
        old(out)@.len() == (range.end - range.start) * NONCE_SIZE,
    ensures
        final(out)@ == blocks(identity, range.start as int, range.end - range.start),
{
    let count = range.end - range.start;
    let len = out.len();
    let ghost target = blocks(identity, range.start as int, count as int);
    let mut n: u64 = 0;
    let mut at: usize = 0;
    while n < count
        invariant
            count == range.end - range.start,
            range.start <= range.end,
            len == out@.len(),
            len == count * NONCE_SIZE,
            n <= count,
            at == n * NONCE_SIZE,
            target == blocks(identity, range.start as int, count as int),
            forall|j: int| 0 <= j < at ==> #[trigger] out@[j] == target[j],
        decreases count - n,
    {
        let nonce = range.start + n;
        let seed = mix_exec(identity.wrapping_mul(0x9e37_79b9_7f4a_7c15u64) ^ mix_exec(nonce));
        proof {
            assert((n + 1) * NONCE_SIZE <= count * NONCE_SIZE) by (nonlinear_arith)
                requires
                    n + 1 <= count,
            ;
            assert((n + 1) * NONCE_SIZE == n * NONCE_SIZE + NONCE_SIZE) by (nonlinear_arith);
        }
        let mut i: u64 = 0;
        while i < NONCE_SIZE as u64
            invariant
                len == out@.len(),
                len == count * NONCE_SIZE,
                n < count,
                at == n * NONCE_SIZE,
                at + NONCE_SIZE <= len,
                nonce == range.start + n,
                seed == block_seed(identity, nonce),
                i <= NONCE_SIZE,
                target == blocks(identity, range.start as int, count as int),
                forall|j: int| 0 <= j < at + i ==> #[trigger] out@[j] == target[j],
            decreases NONCE_SIZE - i,
        {
            proof {
                assert((i / 8 + 1) * 0x9e37_79b9 <= 32769 * 0x9e37_79b9) by (nonlinear_arith)
                    requires
                        i < 262144,
                ;
            }
            let word = mix_exec(seed.wrapping_add((i / 8 + 1) * 0x9e37_79b9u64));
            let byte = (word >> (8 * (i % 8))) as u8;
            let pos = at + i as usize;
            out.set(pos, byte);
            proof {
                vstd::arithmetic::div_mod::lemma_fundamental_div_mod_converse(
                    pos as int,
                    NONCE_SIZE as int,
                    n as int,
                    i as int,
                );
                assert(target[pos as int] == byte);
            }
            i = i + 1;
        }
        at = at + NONCE_SIZE;
        n = n + 1;
    }
    proof {
        assert(out@ =~= target);
    }
}

/// Filling is deterministic and does not depend on how the work is split:
/// the blocks of a sub-range are exactly the matching part of the blocks of
/// the whole range, so any backend given any part writes the same bytes.
pub proof fn lemma_fill_split(identity: u64, start: int, count: int, k: int, m: int)
    requires
        0 <= k,
        0 <= m,
        k + m <= count,
    ensures
        blocks(identity, start, count).subrange(k * NONCE_SIZE as int, (k + m) * NONCE_SIZE as int)
            == blocks(identity, start + k, m),
{
    let whole = blocks(identity, start, count);
    let part = blocks(identity, start + k, m);
    let z = NONCE_SIZE as int;
    assert((k + m) * z <= count * z && 0 <= k * z) by (nonlinear_arith)
        requires
            k + m <= count,
            0 <= k,
            z > 0,
    ;
    assert((k + m) * z - k * z == m * z) by (nonlinear_arith);
    assert forall|i: int| 0 <= i < m * z implies whole[k * z + i] == #[trigger] part[i] by {
        vstd::arithmetic::div_mod::lemma_fundamental_div_mod(i, z);
        let q = i / z;
        let r = i % z;
        assert(k * z + i == (k + q) * z + r) by (nonlinear_arith)
            requires
                i == z * q + r,
        ;
        assert(0 <= k * z + i) by (nonlinear_arith)
            requires
                0 <= k,
                0 <= i,
                z > 0,
        ;
        vstd::arithmetic::div_mod::lemma_fundamental_div_mod_converse(k * z + i, z, k + q, r);
    }
    assert(whole.subrange(k * z, (k + m) * z) =~= part);
}

} // verus!
