use vstd::prelude::*;
use vstd::string::*;

use crate::error::PlotError;
use crate::layout::SCOOPS_PER_NONCE;

verus! {

/// One plot file of a run: its first nonce, its nonce count, and the index
/// of the destination it goes to.
#[derive(Clone, Copy, Debug, PartialEq, Eq, Structural)]
pub struct PlotFile {
    pub start_nonce: u64,
    pub nonces: u64,
    pub drive: u64,
}

/// File `k` of a run of `total` nonces from `start`, cut into files of at
/// most `per_file` nonces handed to `drives` destinations in turn.
pub open spec fn planned_file(start: int, total: int, per_file: int, drives: int, k: int) -> PlotFile {
    let done = k * per_file;
    PlotFile {
        start_nonce: (start + done) as u64,
        nonces: (if per_file < total - done { per_file } else { total - done }) as u64,
        drive: (k % drives) as u64,
    }
}

/// Whether the plan cannot be made: no destination, files of no nonce, or a
/// nonce range past the largest nonce.
pub open spec fn plan_fails(start: int, total: int, per_file: int, drives: int) -> bool {
    drives == 0 || (per_file == 0 && total > 0) || start + total > u64::MAX
}

/// Splits a run of `total` nonces from `start` into plot files of at most
/// `per_file` nonces, each file going to the next destination in turn.
pub fn plan_files(start: u64, total: u64, per_file: u64, drives: u64) -> (r: Result<
    Vec<PlotFile>,
    PlotError,
>)
    ensures
        r is Err <==> plan_fails(start as int, total as int, per_file as int, drives as int),
        r is Err ==> r == Err::<Vec<PlotFile>, PlotError>(PlotError::Configuration),
        r matches Ok(files) ==> files@.len() * per_file >= total && (files@.len() == 0 || (
        files@.len() - 1) * per_file < total) && forall|k: int|
            0 <= k < files@.len() ==> #[trigger] files@[k] == planned_file(
                start as int,
                total as int,
                per_file as int,
                drives as int,
                k,
            ),
{
    if drives == 0 || (per_file == 0 && total > 0) || total > u64::MAX - start {
        return Err(PlotError::Configuration);
    }
    let mut files: Vec<PlotFile> = Vec::new();
    let mut remaining: u64 = total;
    let mut current: u64 = start;
    let mut drive: u64 = 0;
    proof {
        assert(0 * per_file == 0) by (nonlinear_arith);
    }
    while remaining > 0
        invariant
            drives > 0,
            per_file > 0 || remaining == 0,
            start + total <= u64::MAX,
            remaining <= total,
            remaining > 0 ==> files@.len() * per_file == total - remaining,
            remaining == 0 ==> files@.len() * per_file >= total,
            files@.len() == 0 || (files@.len() - 1) * per_file < total,
            current == start + (total - remaining),
            drive == (files@.len() as int) % (drives as int),
            forall|k: int|
                0 <= k < files@.len() ==> #[trigger] files@[k] == planned_file(
                    start as int,
                    total as int,
                    per_file as int,
                    drives as int,
                    k,
                ),
        decreases remaining,
    {
        let this = if remaining < per_file { remaining } else { per_file };
        let ghost k = files@.len() as int;
        files.push(PlotFile { start_nonce: current, nonces: this, drive });
        proof {
            assert(files@[k] == planned_file(
                start as int,
                total as int,
                per_file as int,
                drives as int,
                k,
            ));
            assert((k + 1) * per_file == k * per_file + per_file) by (nonlinear_arith);
            let d = drives as int;
            vstd::arithmetic::div_mod::lemma_fundamental_div_mod(k, d);
            let q = k / d;
            if drive + 1 < drives {
                assert(k + 1 == q * d + (drive + 1)) by (nonlinear_arith)
                    requires
                        k == d * q + k % d,
                        drive == k % d,
                ;
                vstd::arithmetic::div_mod::lemma_fundamental_div_mod_converse(k + 1, d, q, drive + 1);
            } else {
                assert(k + 1 == (q + 1) * d + 0) by (nonlinear_arith)
                    requires
                        k == d * q + k % d,
                        drive == k % d,
                        drive + 1 == d,
                ;
                vstd::arithmetic::div_mod::lemma_fundamental_div_mod_converse(k + 1, d, q + 1, 0);
            }
        }
        remaining = remaining - this;
        current = current + this;
        drive = if drive + 1 < drives { drive + 1 } else { 0 };
        proof {
            if remaining > 0 {
                assert(this == per_file);
            }
        }
    }
    proof {
        assert forall|k: int| 0 <= k < files@.len() implies #[trigger] files@[k] == planned_file(
            start as int,
            total as int,
            per_file as int,
            drives as int,
            k,
        ) by {}
    }
    Ok(files)
}

/// Nonce `x` lies in file `k` of the plan.
pub open spec fn in_file(start: int, total: int, per_file: int, drives: int, k: int, x: int) -> bool {
    let f = planned_file(start, total, per_file, drives, k);
    f.start_nonce <= x < f.start_nonce + f.nonces
}

/// The planned files cover the run exactly once: every nonce from `start`
/// up to `start + total` lies in one file of the plan, and in no other.
pub proof fn lemma_files_cover_once(
    start: int,
    total: int,
    per_file: int,
    drives: int,
    files: int,
    x: int,
)
    requires
        per_file > 0,
        drives > 0,
        start >= 0,
        start + total <= u64::MAX,
        files * per_file >= total,
        files == 0 || (files - 1) * per_file < total,
        start <= x < start + total,
    ensures
        0 <= (x - start) / per_file < files,
        in_file(start, total, per_file, drives, (x - start) / per_file, x),
        forall|j: int|
            0 <= j < files && j != (x - start) / per_file ==> !#[trigger] in_file(
                start,
                total,
                per_file,
                drives,
                j,
                x,
            ),
{
    let d = x - start;
    let k = d / per_file;
    vstd::arithmetic::div_mod::lemma_fundamental_div_mod(d, per_file);
    assert(0 <= k) by (nonlinear_arith)
        requires
            d >= 0,
            per_file > 0,
            k == d / per_file,
    ;
    assert(k * per_file <= d < k * per_file + per_file) by (nonlinear_arith)
        requires
            d == per_file * k + d % per_file,
            0 <= d % per_file < per_file,
    ;
    assert(k < files) by (nonlinear_arith)
        requires
            k * per_file <= d,
            d < total,
            files * per_file >= total,
            per_file > 0,
    ;
    assert forall|j: int| 0 <= j < files implies #[trigger] in_file(start, total, per_file, drives, j, x)
        == (j == k) by {
        assert(j * per_file >= 0) by (nonlinear_arith)
            requires
                j >= 0,
                per_file > 0,
        ;
        assert(j * per_file < total) by (nonlinear_arith)
            requires
                0 <= j < files,
                files == 0 || (files - 1) * per_file < total,
                per_file > 0,
        ;
        if j < k {
            assert(j * per_file + per_file <= k * per_file) by (nonlinear_arith)
                requires
                    j < k,
                    per_file > 0,
            ;
        } else if j > k {
            assert(k * per_file + per_file <= j * per_file) by (nonlinear_arith)
                requires
                    j > k,
                    per_file > 0,
            ;
        }
    }
}

/// The decimal digits of `n`.
pub open spec fn decimal(n: nat) -> Seq<char>
    decreases n,
{
    if n < 10 {
        seq![digit_char(n)]
    } else {
        decimal(n / 10).push(digit_char(n % 10))
    }
}

/// The character of a digit below ten.
pub open spec fn digit_char(d: nat) -> char {
    (('0' as u8) + (d as u8)) as char
}

/// The name of a plot file: identity, first nonce, nonce count and scoop
/// count in decimal, joined by underscores.
pub open spec fn spec_file_name(identity: u64, start: u64, nonces: u64) -> Seq<char> {
    decimal(identity as nat) + seq!['_'] + decimal(start as nat) + seq!['_'] + decimal(
        nonces as nat,
    ) + seq!['_'] + decimal(SCOOPS_PER_NONCE as nat)
}

/// Relies on the `Display` of `u64` (through `to_string`): the number in
/// decimal, without sign or padding.
#[verifier::external_body]
fn decimal_text(n: u64) -> (r: String)
    ensures
        r@ == decimal(n as nat),
{
    n.to_string()
}

/// The name of the plot file of `nonces` nonces from `start` for `identity`.
pub fn plot_file_name(identity: u64, start: u64, nonces: u64) -> (r: String)
    ensures
        r@ == spec_file_name(identity, start, nonces),
{
    proof {
        reveal_strlit("_");
    }
    let mut name = decimal_text(identity);
    name.append("_");
    name.append(decimal_text(start).as_str());
    name.append("_");
    name.append(decimal_text(nonces).as_str());
    name.append("_");
    name.append(decimal_text(SCOOPS_PER_NONCE as u64).as_str());
    name
}

/// The CPU worker count for a run: the requested count capped at twice the
/// cores, the core count when none was requested, and none when only GPU
/// devices were asked for.
pub open spec fn spec_cpu_threads(requested: u8, cpu_given: bool, gpu_given: bool, cores: u8) -> u8 {
    if gpu_given && !cpu_given {
        0
    } else if requested == 0 {
        cores
    } else if requested as int > 2 * cores {
        (2 * cores) as u8
    } else {
        requested
    }
}

/// Resolves the CPU worker count; see `spec_cpu_threads`.
pub fn cpu_threads(requested: u8, cpu_given: bool, gpu_given: bool, cores: u8) -> (r: u8)
    ensures
        r == spec_cpu_threads(requested, cpu_given, gpu_given, cores),
{
    if gpu_given && !cpu_given {
        0
    } else if requested == 0 {
        cores
    } else if requested as u16 > 2 * (cores as u16) {
        (2 * (cores as u16)) as u8
    } else {
        requested
    }
}

} // verus!
