use vstd::prelude::*;

use crate::error::PlotError;
use crate::layout::{NONCE_SIZE, SCOOP_SIZE};
use crate::writer::spec_write_offset;

verus! {

/// Chunk size, in nonces, picked when the memory budget is left unset.
pub const DEFAULT_CHUNK_NONCES: u64 = 1024;

/// The step that chunk sizes and file sizes are kept to: with aligned I/O a
/// chunk's run of one scoop (`nonces * SCOOP_SIZE` bytes) must fill whole
/// transfer units.
pub open spec fn spec_granule(aligned: bool, unit: int) -> int {
    if aligned {
        unit / SCOOP_SIZE as int
    } else {
        1
    }
}

/// Whether the transfer unit is usable: scoops fill it exactly.
pub open spec fn unit_ok(aligned: bool, unit: int) -> bool {
    !aligned || (unit > 0 && unit % SCOOP_SIZE as int == 0)
}

/// `x` rounded down to a multiple of `g`.
pub open spec fn round_down(x: int, g: int) -> int {
    x - x % g
}

/// The most nonces one buffer can hold under a nonzero budget shared by
/// `buffers` buffers.
pub open spec fn budget_cap(budget: int, buffers: int) -> int {
    budget / buffers / NONCE_SIZE as int
}

/// `d` is a chunk size that splits `total` into equal chunks on the granule.
pub open spec fn even_chunk(d: int, total: int, g: int) -> bool {
    d > 0 && d % g == 0 && total % d == 0
}

/// The chunk size for a nonzero budget: as many nonces as a buffer holds,
/// no more than the run needs, rounded down to the granule.
pub open spec fn budget_chunk(budget: int, buffers: int, total: int, g: int) -> int {
    let cap = budget_cap(budget, buffers);
    round_down(if cap < total { cap } else { total }, g)
}

/// The limit that the default chunk size is chosen under: the default
/// (raised to one granule) or the run's size, whichever is smaller, on the
/// granule.
pub open spec fn default_limit(total: int, g: int) -> int {
    let cap = if (DEFAULT_CHUNK_NONCES as int) < g { g } else { DEFAULT_CHUNK_NONCES as int };
    round_down(if cap < total { cap } else { total }, g)
}

proof fn lemma_round_down(x: int, g: int)
    requires
        x >= 0,
        g > 0,
    ensures
        0 <= round_down(x, g) <= x,
        round_down(x, g) % g == 0,
        x >= g ==> round_down(x, g) >= g,
{
    vstd::arithmetic::div_mod::lemma_fundamental_div_mod(x, g);
    let q = x / g;
    assert(q >= 0) by (nonlinear_arith)
        requires
            x >= 0,
            g > 0,
            q == x / g,
    ;
    assert(round_down(x, g) == g * q);
    vstd::arithmetic::div_mod::lemma_mod_multiples_basic(q, g);
    assert(g * q == q * g) by (nonlinear_arith);
    assert(x >= g ==> q >= 1) by (nonlinear_arith)
        requires
            x == g * q + x % g,
            x % g < g,
            q >= 0,
    ;
    assert(q >= 1 ==> g * q >= g) by (nonlinear_arith)
        requires
            g > 0,
    ;
}

/// What a default chunk size must be: the largest even chunk size within
/// the limit when one reaches at least half of it, else the limit itself.
pub open spec fn is_default_chunk(c: int, total: int, g: int) -> bool {
    let limit = default_limit(total, g);
    if exists|d: int| limit / 2 < d <= limit && #[trigger] even_chunk(d, total, g) {
        even_chunk(c, total, g) && limit / 2 < c <= limit && forall|d: int|
            c < d <= limit ==> !#[trigger] even_chunk(d, total, g)
    } else {
        c == limit
    }
}

/// Picks the default chunk size: the largest multiple of `g` in
/// `(limit / 2, limit]` that divides `total`, or `limit` when there is none.
pub fn default_chunk_nonces(total: u64, g: u64) -> (c: u64)
    requires
        g > 0,
    ensures
        is_default_chunk(c as int, total as int, g as int),
{
    let cap = if DEFAULT_CHUNK_NONCES < g { g } else { DEFAULT_CHUNK_NONCES };
    let m = if cap < total { cap } else { total };
    proof {
        lemma_round_down(m as int, g as int);
    }
    let limit = m - m % g;
    let mut d = limit;
    while d > limit / 2
        invariant
            limit == default_limit(total as int, g as int),
            g > 0,
            limit / 2 <= d <= limit,
            forall|e: int| d < e <= limit ==> !#[trigger] even_chunk(e, total as int, g as int),
        decreases d,
    {
        if d % g == 0 && total % d == 0 {
            proof {
                assert(even_chunk(d as int, total as int, g as int));
            }
            return d;
        }
        d = d - 1;
    }
    proof {
        assert(forall|e: int|
            limit / 2 < e <= limit ==> !#[trigger] even_chunk(e, total as int, g as int));
    }
    limit
}

/// The chunk size that sizing settles on, or the configuration error.
pub open spec fn spec_chunk_nonces(
    budget: int,
    buffers: int,
    total: int,
    aligned: bool,
    unit: int,
    c: int,
) -> bool {
    let g = spec_granule(aligned, unit);
    if budget == 0 {
        is_default_chunk(c, total, g)
    } else {
        c == budget_chunk(budget, buffers, total, g)
    }
}

/// Whether sizing has to refuse the run.
pub open spec fn sizing_fails(budget: int, buffers: int, total: int, aligned: bool, unit: int) -> bool {
    let g = spec_granule(aligned, unit);
    ||| total == 0
    ||| !unit_ok(aligned, unit)
    ||| total % g != 0
    ||| (budget != 0 && budget_chunk(budget, buffers, total, g) == 0)
}

/// Sizing: how many nonces one chunk holds. `buffers` is 2 with overlapped
/// writing and 1 without; `unit` is the storage transfer unit used when
/// `aligned` is set. A run whose nonce count is not a multiple of the granule,
/// or whose chunk would hold no nonce, is refused.
pub fn chunk_nonces(budget: u64, overlapped: bool, total: u64, aligned: bool, unit: u64) -> (r:
    Result<u64, PlotError>)
    ensures
        r is Err <==> sizing_fails(
            budget as int,
            if overlapped { 2 } else { 1 },
            total as int,
            aligned,
            unit as int,
        ),
        r is Err ==> r == Err::<u64, PlotError>(PlotError::Configuration),
        r matches Ok(c) ==> c > 0 && c <= total && spec_chunk_nonces(
            budget as int,
            if overlapped { 2 } else { 1 },
            total as int,
            aligned,
            unit as int,
            c as int,
        ),
{
    let buffers: u64 = if overlapped { 2 } else { 1 };
    if total == 0 {
        return Err(PlotError::Configuration);
    }
    if aligned && (unit == 0 || unit % (SCOOP_SIZE as u64) != 0) {
        return Err(PlotError::Configuration);
    }
    let g: u64 = if aligned { unit / (SCOOP_SIZE as u64) } else { 1 };
    if total % g != 0 {
        return Err(PlotError::Configuration);
    }
    if budget == 0 {
        let c = default_chunk_nonces(total, g);
        proof {
            let cap = if (DEFAULT_CHUNK_NONCES as int) < g { g as int } else { DEFAULT_CHUNK_NONCES as int };
            let m = if cap < total { cap } else { total as int };
            vstd::arithmetic::div_mod::lemma_mod_self_0(total as int);
            assert(total >= g) by (nonlinear_arith)
                requires
                    total % g == 0,
                    total > 0,
                    g > 0,
            ;
            lemma_round_down(m, g as int);
        }
        return Ok(c);
    }
    let cap = budget / buffers / (NONCE_SIZE as u64);
    let m = if cap < total { cap } else { total };
    proof {
        lemma_round_down(m as int, g as int);
    }
    let c = m - m % g;
    if c == 0 {
        return Err(PlotError::Configuration);
    }
    Ok(c)
}

/// The length of the chunk that starts at nonce index `first` when chunks
/// hold `c` nonces: `c`, or what is left of the file.
pub open spec fn chunk_len(file_nonces: int, c: int, first: int) -> int {
    if c < file_nonces - first {
        c
    } else {
        file_nonces - first
    }
}

/// Alignment: with a transfer unit that scoops fill, a file and a chunk size
/// on the granule (as sizing makes them), every chunk `k` writes each scoop
/// at an offset, and with a length, that are whole transfer units.
pub proof fn lemma_writes_aligned(unit: int, file_nonces: int, c: int, k: int, scoop: int)
    requires
        unit_ok(true, unit),
        file_nonces % spec_granule(true, unit) == 0,
        c > 0,
        c % spec_granule(true, unit) == 0,
        k >= 0,
        k * c < file_nonces,
        0 <= scoop,
    ensures
        spec_write_offset(file_nonces, k * c, scoop) % unit == 0,
        (chunk_len(file_nonces, c, k * c) * SCOOP_SIZE as int) % unit == 0,
{
    let g = spec_granule(true, unit);
    vstd::arithmetic::div_mod::lemma_fundamental_div_mod(unit, 64);
    assert(unit == 64 * g);
    assert(g > 0) by (nonlinear_arith)
        requires
            unit == 64 * g,
            unit > 0,
    ;
    vstd::arithmetic::div_mod::lemma_fundamental_div_mod(file_nonces, g);
    vstd::arithmetic::div_mod::lemma_fundamental_div_mod(c, g);
    let a = file_nonces / g;
    let x = c / g;
    let o = scoop * a + k * x;
    assert(spec_write_offset(file_nonces, k * c, scoop) == o * unit) by (nonlinear_arith)
        requires
            file_nonces == g * a,
            c == g * x,
            unit == 64 * g,
            o == scoop * a + k * x,
            spec_write_offset(file_nonces, k * c, scoop) == (scoop * file_nonces + k * c) * 64,
    ;
    vstd::arithmetic::div_mod::lemma_mod_multiples_basic(o, unit);
    let l = chunk_len(file_nonces, c, k * c);
    let y = if c < file_nonces - k * c { x } else { a - k * x };
    assert(l * 64 == y * unit) by (nonlinear_arith)
        requires
            file_nonces == g * a,
            c == g * x,
            unit == 64 * g,
            l == (if c < file_nonces - k * c { c } else { file_nonces - k * c }),
            y == (if c < file_nonces - k * c { x } else { a - k * x }),
    ;
    vstd::arithmetic::div_mod::lemma_mod_multiples_basic(y, unit);
}

/// Writer's guard: in aligned mode a write whose offset or length is not a
/// whole number of transfer units is refused as an alignment error.
pub fn check_write(offset: u64, len: u64, aligned: bool, unit: u64) -> (r: Result<(), PlotError>)
    ensures
        r is Err <==> aligned && (unit == 0 || offset % unit != 0 || len % unit != 0),
        r is Err ==> r == Err::<(), PlotError>(PlotError::Alignment),
{
    if aligned && (unit == 0 || offset % unit != 0 || len % unit != 0) {
        Err(PlotError::Alignment)
    } else {
        Ok(())
    }
}

} // verus!
