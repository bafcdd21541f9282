use vstd::prelude::*;

use crate::error::PlotError;

verus! {

/// The nonces `start <= n < end`.
#[derive(Clone, Copy, Debug, PartialEq, Eq, Structural)]
pub struct NonceRange {
    pub start: u64,
    pub end: u64,
}

/// The sum of the first `k` shares.
pub open spec fn share_sum(shares: Seq<u32>, k: int) -> int
    decreases k,
{
    if k <= 0 || k > shares.len() {
        0
    } else {
        share_sum(shares, k - 1) + shares[k - 1]
    }
}

/// The total of all shares.
pub open spec fn total_share(shares: Seq<u32>) -> int {
    share_sum(shares, shares.len() as int)
}

/// Where the part of backend `k` begins: the first `k` backends together
/// take `count * (their shares) / (all shares)` nonces, rounded down.
pub open spec fn boundary(start: int, count: int, shares: Seq<u32>, k: int) -> int {
    start + count * share_sum(shares, k) / total_share(shares)
}

/// `parts` gives backend `k` the nonces from `boundary(k)` to `boundary(k + 1)`.
pub open spec fn is_split(parts: Seq<NonceRange>, start: int, count: int, shares: Seq<u32>) -> bool {
    &&& parts.len() == shares.len()
    &&& forall|k: int|
        0 <= k < parts.len() ==> #[trigger] parts[k].start == boundary(start, count, shares, k)
            && parts[k].end == boundary(start, count, shares, k + 1)
}

proof fn lemma_share_sum_nonneg(shares: Seq<u32>, k: int)
    ensures
        share_sum(shares, k) >= 0,
    decreases k,
{
    if k > 0 && k <= shares.len() {
        lemma_share_sum_nonneg(shares, k - 1);
    }
}

proof fn lemma_share_sum_monotone(shares: Seq<u32>, j: int, k: int)
    requires
        0 <= j <= k <= shares.len(),
    ensures
        0 <= share_sum(shares, j) <= share_sum(shares, k),
    decreases k - j,
{
    if j < k {
        lemma_share_sum_monotone(shares, j, k - 1);
    } else {
        lemma_share_sum_nonneg(shares, j);
    }
}

proof fn lemma_boundary_monotone(start: int, count: int, shares: Seq<u32>, j: int, k: int)
    requires
        0 <= j <= k <= shares.len(),
        count >= 0,
        total_share(shares) > 0,
    ensures
        start <= boundary(start, count, shares, j) <= boundary(start, count, shares, k),
        boundary(start, count, shares, 0) == start,
        boundary(start, count, shares, shares.len() as int) == start + count,
{
    lemma_share_sum_monotone(shares, j, k);
    lemma_share_sum_monotone(shares, k, shares.len() as int);
    let t = total_share(shares);
    let a = share_sum(shares, j);
    let b = share_sum(shares, k);
    assert(count * a <= count * b) by (nonlinear_arith)
        requires
            count >= 0,
            a <= b,
    ;
    assert(count * a >= 0) by (nonlinear_arith)
        requires
            count >= 0,
            a >= 0,
    ;
    vstd::arithmetic::div_mod::lemma_div_is_ordered(count * a, count * b, t);
    vstd::arithmetic::div_mod::lemma_div_pos_is_pos(count * a, t);
    vstd::arithmetic::div_mod::lemma_div_by_multiple(count, t);
}

/// The sum of all shares.
pub fn share_total(shares: &Vec<u32>) -> (r: u128)
    ensures
        r == total_share(shares@),
{
    let n = shares.len();
    let mut total: u128 = 0;
    let mut i: usize = 0;
    while i < n
        invariant
            n == shares@.len(),
            i <= n,
            total == share_sum(shares@, i as int),
            total <= i * 0xffff_ffffu128,
        decreases n - i,
    {
        proof {
            assert(i * 0xffff_ffffu128 + 0xffff_ffffu128 == (i + 1) * 0xffff_ffffu128)
                by (nonlinear_arith);
            assert((i + 1) * 0xffff_ffffu128 <= 0x1_0000_0000_0000_0000u128 * 0xffff_ffffu128)
                by (nonlinear_arith)
                requires
                    i < 0x1_0000_0000_0000_0000u128,
            ;
        }
        total = total + shares[i] as u128;
        i = i + 1;
    }
    total
}

/// Work partitioning: splits `count` nonces from `start` over backends in
/// proportion to their shares. Backend `k` gets the nonces from
/// `boundary(k)` up to `boundary(k + 1)`. Refused when no backend has a share
/// (or the shares do not fit in 64 bits together).
pub fn split_range(start: u64, count: u64, shares: &Vec<u32>) -> (r: Result<
    Vec<NonceRange>,
    PlotError,
>)
    requires
        start + count <= u64::MAX,
    ensures
        r is Err <==> (total_share(shares@) == 0 || total_share(shares@) > u64::MAX),
        r is Err ==> r == Err::<Vec<NonceRange>, PlotError>(PlotError::Configuration),
        r matches Ok(v) ==> is_split(v@, start as int, count as int, shares@),
{
    let n = shares.len();
    let total = share_total(shares);
    if total == 0 || total > u64::MAX as u128 {
        return Err(PlotError::Configuration);
    }
    let mut parts: Vec<NonceRange> = Vec::new();
    let mut prefix: u128 = 0;
    let mut lo: u64 = start;
    let mut k: usize = 0;
    while k < n
        invariant
            n == shares@.len(),
            k <= n,
            total == total_share(shares@),
            0 < total <= u64::MAX,
            start + count <= u64::MAX,
            prefix == share_sum(shares@, k as int),
            lo == boundary(start as int, count as int, shares@, k as int),
            parts@.len() == k,
            forall|j: int|
                0 <= j < k ==> #[trigger] parts@[j].start == boundary(
                    start as int,
                    count as int,
                    shares@,
                    j,
                ) && parts@[j].end == boundary(start as int, count as int, shares@, j + 1),
        decreases n - k,
    {
        proof {
            lemma_share_sum_monotone(shares@, k as int + 1, n as int);
            lemma_boundary_monotone(start as int, count as int, shares@, k as int + 1, n as int);
            let p1 = share_sum(shares@, k as int + 1);
            assert(count * p1 <= 0xffff_ffff_ffff_ffffu128 * 0xffff_ffff_ffff_ffffu128)
                by (nonlinear_arith)
                requires
                    0 <= count <= 0xffff_ffff_ffff_ffffu128,
                    0 <= p1 <= 0xffff_ffff_ffff_ffffu128,
            ;
            assert(count * p1 >= 0) by (nonlinear_arith)
                requires
                    count >= 0,
                    p1 >= 0,
            ;
        }
        prefix = prefix + shares[k] as u128;
        let hi = start + ((count as u128) * prefix / total) as u64;
        parts.push(NonceRange { start: lo, end: hi });
        lo = hi;
        k = k + 1;
    }
    assert(parts@.len() == shares@.len());
    assert(is_split(parts@, start as int, count as int, shares@));
    Ok(parts)
}

/// The parts never overlap: every part ends where or before a later one
/// begins, and each part begins no later than it ends.
pub proof fn lemma_parts_disjoint(start: int, count: int, shares: Seq<u32>, j: int, k: int)
    requires
        count >= 0,
        total_share(shares) > 0,
        0 <= j < k < shares.len(),
    ensures
        boundary(start, count, shares, j) <= boundary(start, count, shares, j + 1),
        boundary(start, count, shares, j + 1) <= boundary(start, count, shares, k),
{
    lemma_boundary_monotone(start, count, shares, j, j + 1);
    lemma_boundary_monotone(start, count, shares, j + 1, k);
}

proof fn lemma_cover_below(start: int, count: int, shares: Seq<u32>, n: int, k: int)
    requires
        count >= 0,
        total_share(shares) > 0,
        0 <= k <= shares.len(),
        start <= n < boundary(start, count, shares, k),
    ensures
        exists|i: int|
            0 <= i < k && boundary(start, count, shares, i) <= n < #[trigger] boundary(
                start,
                count,
                shares,
                i + 1,
            ),
    decreases k,
{
    lemma_boundary_monotone(start, count, shares, 0, k);
    if k > 0 {
        if n >= boundary(start, count, shares, k - 1) {
            assert(boundary(start, count, shares, (k - 1) + 1) == boundary(start, count, shares, k));
        } else {
            lemma_cover_below(start, count, shares, n, k - 1);
        }
    }
}

/// Coverage without overlap: every nonce of the range lies in exactly one
/// backend's part.
pub proof fn lemma_parts_cover_once(start: int, count: int, shares: Seq<u32>, n: int)
    requires
        count >= 0,
        total_share(shares) > 0,
        start <= n < start + count,
    ensures
        exists|i: int|
            0 <= i < shares.len() && boundary(start, count, shares, i) <= n < #[trigger] boundary(
                start,
                count,
                shares,
                i + 1,
            ),
        forall|i: int, j: int|
            #![trigger boundary(start, count, shares, i), boundary(start, count, shares, j)]
            0 <= i < shares.len() && 0 <= j < shares.len() && boundary(start, count, shares, i)
                <= n < boundary(start, count, shares, i + 1) && boundary(start, count, shares, j)
                <= n < boundary(start, count, shares, j + 1) ==> i == j,
{
    lemma_boundary_monotone(start, count, shares, 0, shares.len() as int);
    lemma_cover_below(start, count, shares, n, shares.len() as int);
    assert forall|i: int, j: int|
        #![trigger boundary(start, count, shares, i), boundary(start, count, shares, j)]
        0 <= i < shares.len() && 0 <= j < shares.len() && boundary(start, count, shares, i) <= n
            < boundary(start, count, shares, i + 1) && boundary(start, count, shares, j) <= n
            < boundary(start, count, shares, j + 1) implies i == j by {
        if i < j {
            lemma_parts_disjoint(start, count, shares, i, j);
        } else if j < i {
            lemma_parts_disjoint(start, count, shares, j, i);
        }
    }
}

} // verus!
