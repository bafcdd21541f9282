use vstd::prelude::*;

use crate::error::PlotError;

verus! {

/// An ASCII decimal digit.
pub open spec fn is_digit(b: u8) -> bool {
    48 <= b <= 57
}

/// Every byte is a digit.
pub open spec fn all_digits(s: Seq<u8>) -> bool {
    forall|i: int| 0 <= i < s.len() ==> is_digit(#[trigger] s[i])
}

/// The number that a run of digits writes in decimal.
pub open spec fn digits_value(s: Seq<u8>) -> nat
    decreases s.len(),
{
    if s.len() == 0 {
        0
    } else {
        digits_value(s.drop_last()) * 10 + (s.last() - 48) as nat
    }
}

/// `s` is a decimal number that fits in 64 bits.
pub open spec fn is_u64_text(s: Seq<u8>) -> bool {
    s.len() > 0 && all_digits(s) && digits_value(s) <= u64::MAX
}

proof fn lemma_digits_grow(s: Seq<u8>, k: int)
    requires
        0 <= k <= s.len(),
        all_digits(s),
    ensures
        digits_value(s.subrange(0, k)) <= digits_value(s),
    decreases s.len() - k,
{
    if k < s.len() {
        lemma_digits_grow(s, k + 1);
        let p = s.subrange(0, k + 1);
        assert(p.drop_last() =~= s.subrange(0, k));
        assert(is_digit(s[k]));
    } else {
        assert(s.subrange(0, k) =~= s);
    }
}

/// Reads the decimal number in `s[from..to]`: `None` unless that is a
/// non-empty run of digits whose value fits in 64 bits.
pub fn parse_decimal(s: &[u8], from: usize, to: usize) -> (r: Option<u64>)
    requires
        from <= to <= s@.len(),
    ensures
        r is Some <==> is_u64_text(s@.subrange(from as int, to as int)),
        r matches Some(v) ==> v == digits_value(s@.subrange(from as int, to as int)),
{
    let ghost d = s@.subrange(from as int, to as int);
    if from == to {
        return None;
    }
    let mut value: u64 = 0;
    let mut i: usize = from;
    while i < to
        invariant
            from <= i <= to <= s@.len(),
            d == s@.subrange(from as int, to as int),
            all_digits(s@.subrange(from as int, i as int)),
            value == digits_value(s@.subrange(from as int, i as int)),
        decreases to - i,
    {
        let b = s[i];
        let ghost next = s@.subrange(from as int, i + 1);
        proof {
            assert(next.drop_last() =~= s@.subrange(from as int, i as int));
        }
        if b < 48 || b > 57 {
            proof {
                assert(!is_digit(d[i - from]));
            }
            return None;
        }
        let digit = (b - 48) as u64;
        if value > (u64::MAX - digit) / 10 {
            proof {
                assert(digits_value(next) > u64::MAX);
                if all_digits(d) {
                    assert(next =~= d.subrange(0, i + 1 - from));
                    lemma_digits_grow(d, i + 1 - from);
                }
            }
            return None;
        }
        value = value * 10 + digit;
        i = i + 1;
        proof {
            assert(all_digits(next));
        }
    }
    Some(value)
}

/// Bytes in one unit of a memory size suffix: none or `B` for bytes; `K`,
/// `KB`, `KiB` for 1024; `M`, `MB`, `MiB`; `G`, `GB`, `GiB`; `T`, `TB`,
/// `TiB` (all binary).
pub open spec fn unit_factor(u: Seq<u8>) -> Option<nat> {
    if u.len() == 0 || u == seq![66u8] {
        Some(1)
    } else if u.len() >= 1 && u.len() <= 3 && (u.len() == 1 || (u.len() == 2 && u[1] == 66u8) || (
    u.len() == 3 && u[1] == 105u8 && u[2] == 66u8)) {
        if u[0] == 75u8 {
            Some(1024)
        } else if u[0] == 77u8 {
            Some(1024 * 1024)
        } else if u[0] == 71u8 {
            Some(1024 * 1024 * 1024)
        } else if u[0] == 84u8 {
            Some(1024 * 1024 * 1024 * 1024)
        } else {
            None
        }
    } else {
        None
    }
}

/// Where the leading digits of `s` end.
pub open spec fn digits_end(s: Seq<u8>, k: int) -> bool {
    0 <= k <= s.len() && all_digits(s.subrange(0, k)) && (k == s.len() || !is_digit(s[k]))
}

/// The size that a memory text gives: a decimal number and an optional unit,
/// when the product fits in 64 bits.
pub open spec fn memory_value(s: Seq<u8>, k: int) -> Option<nat> {
    let num = s.subrange(0, k);
    let unit = s.subrange(k, s.len() as int);
    if is_u64_text(num) && unit_factor(unit) is Some && digits_value(num) * unit_factor(
        unit,
    )->Some_0 <= u64::MAX {
        Some(digits_value(num) * unit_factor(unit)->Some_0)
    } else {
        None
    }
}

fn unit_bytes(s: &[u8], k: usize) -> (r: Option<u64>)
    requires
        k <= s@.len(),
    ensures
        r matches Some(f) ==> unit_factor(s@.subrange(k as int, s@.len() as int)) == Some(f as nat),
        r is None ==> unit_factor(s@.subrange(k as int, s@.len() as int)) is None,
{
    let ghost u = s@.subrange(k as int, s@.len() as int);
    let n = s.len() - k;
    if n == 0 {
        return Some(1);
    }
    if n == 1 && s[k] == 66u8 {
        proof {
            assert(u =~= seq![66u8]);
        }
        return Some(1);
    }
    proof {
        assert(u.len() == 1 ==> u != seq![66u8] || u[0] == 66u8);
        if u == seq![66u8] {
            assert(u[0] == 66u8);
        }
    }
    if !(n == 1 || (n == 2 && s[k + 1] == 66u8) || (n == 3 && s[k + 1] == 105u8 && s[k + 2]
        == 66u8)) {
        return None;
    }
    let c = s[k];
    if c == 75u8 {
        Some(1024)
    } else if c == 77u8 {
        Some(1024 * 1024)
    } else if c == 71u8 {
        Some(1024 * 1024 * 1024)
    } else if c == 84u8 {
        Some(1024 * 1024 * 1024 * 1024)
    } else {
        None
    }
}

/// Reads a memory budget such as `0B`, `512MiB`, `4G` or `1048576` into
/// bytes; anything else, or a size past 64 bits, is a configuration error.
pub fn parse_memory(s: &[u8]) -> (r: Result<u64, PlotError>)
    ensures
        forall|k: int| #[trigger]
            digits_end(s@, k) ==> (r is Ok <==> memory_value(s@, k) is Some) && (r matches Ok(v)
                ==> memory_value(s@, k) == Some(v as nat)),
        r is Err ==> r == Err::<u64, PlotError>(PlotError::Configuration),
{
    let mut k: usize = 0;
    while k < s.len() && s[k] >= 48 && s[k] <= 57
        invariant
            k <= s@.len(),
            all_digits(s@.subrange(0, k as int)),
        decreases s@.len() - k,
    {
        proof {
            assert(all_digits(s@.subrange(0, k + 1)));
        }
        k = k + 1;
    }
    proof {
        assert(digits_end(s@, k as int));
        assert forall|j: int| #[trigger] digits_end(s@, j) implies j == k by {
            if j < k {
                assert(is_digit(s@.subrange(0, k as int)[j]));
            } else if j > k {
                assert(is_digit(s@.subrange(0, j)[k as int]));
            }
        }
    }
    let num = parse_decimal(s, 0, k);
    let unit = unit_bytes(s, k);
    match (num, unit) {
        (Some(v), Some(f)) => {
            if f > 0 && v > u64::MAX / f {
                proof {
                    assert(v * f > u64::MAX) by (nonlinear_arith)
                        requires
                            f > 0,
                            v > u64::MAX / f,
                    ;
                }
                Err(PlotError::Configuration)
            } else {
                proof {
                    assert(v * f <= u64::MAX) by (nonlinear_arith)
                        requires
                            f > 0,
                            v <= u64::MAX / f,
                    ;
                }
                Ok(v * f)
            }
        },
        _ => Err(PlotError::Configuration),
    }
}

/// A GPU device named by platform index, device index and the share of
/// work (its core count) it takes.
#[derive(Clone, Copy, Debug, PartialEq, Eq, Structural)]
pub struct GpuSelector {
    pub platform: u64,
    pub device: u64,
    pub cores: u32,
}

/// `i` and `j` are the positions of the first two colons of `s`.
pub open spec fn colons_at(s: Seq<u8>, i: int, j: int) -> bool {
    &&& 0 <= i < j < s.len()
    &&& s[i] == 58u8
    &&& s[j] == 58u8
    &&& forall|k: int| 0 <= k < j && k != i ==> #[trigger] s[k] != 58u8
}

/// The selector that `platform:device:cores` describes, when each part is a
/// decimal number in range.
pub open spec fn selector_value(s: Seq<u8>, i: int, j: int) -> Option<GpuSelector> {
    let a = s.subrange(0, i);
    let b = s.subrange(i + 1, j);
    let c = s.subrange(j + 1, s.len() as int);
    if is_u64_text(a) && is_u64_text(b) && is_u64_text(c) && digits_value(c) <= u32::MAX {
        Some(
            GpuSelector {
                platform: digits_value(a) as u64,
                device: digits_value(b) as u64,
                cores: digits_value(c) as u32,
            },
        )
    } else {
        None
    }
}

fn find_colon(s: &[u8], from: usize) -> (r: usize)
    requires
        from <= s@.len(),
    ensures
        from <= r <= s@.len(),
        r < s@.len() ==> s@[r as int] == 58u8,
        forall|k: int| from <= k < r ==> #[trigger] s@[k] != 58u8,
{
    let mut k = from;
    while k < s.len() && s[k] != 58u8
        invariant
            from <= k <= s@.len(),
            forall|m: int| from <= m < k ==> #[trigger] s@[m] != 58u8,
        decreases s@.len() - k,
    {
        k = k + 1;
    }
    k
}

/// Reads a GPU selector `platform:device:cores`. Text with fewer than two
/// colons, or a part that is not a number in range, is a configuration
/// error.
pub fn parse_gpu_selector(s: &[u8]) -> (r: Result<GpuSelector, PlotError>)
    ensures
        forall|i: int, j: int| #[trigger]
            colons_at(s@, i, j) ==> (r is Ok <==> selector_value(s@, i, j) is Some) && (r matches Ok(
                g,
            ) ==> selector_value(s@, i, j) == Some(g)),
        r is Ok ==> exists|i: int, j: int| #[trigger] colons_at(s@, i, j),
        r is Err ==> r == Err::<GpuSelector, PlotError>(PlotError::Configuration),
{
    let i = find_colon(s, 0);
    if i >= s.len() {
        proof {
            assert forall|a: int, b: int| #[trigger] colons_at(s@, a, b) implies false by {
                assert(s@[a] == 58u8);
            }
        }
        return Err(PlotError::Configuration);
    }
    let j = find_colon(s, i + 1);
    if j >= s.len() {
        proof {
            assert forall|a: int, b: int| #[trigger] colons_at(s@, a, b) implies false by {
                assert(s@[a] == 58u8);
                assert(s@[b] == 58u8);
                if a != i {
                    assert(s@[i as int] == 58u8);
                }
            }
        }
        return Err(PlotError::Configuration);
    }
    proof {
        assert(colons_at(s@, i as int, j as int));
        assert forall|a: int, b: int| #[trigger] colons_at(s@, a, b) implies a == i && b == j by {
            if a < i {
                assert(s@[a] != 58u8);
            }
            if i < a {
                assert(s@[i as int] != 58u8);
            }
            if b < j {
                assert(s@[b] != 58u8);
            }
            if j < b {
                assert(s@[j as int] != 58u8);
            }
        }
    }
    let platform = parse_decimal(s, 0, i);
    let device = parse_decimal(s, i + 1, j);
    let cores = parse_decimal(s, j + 1, s.len());
    match (platform, device, cores) {
        (Some(p), Some(d), Some(c)) => {
            if c > u32::MAX as u64 {
                Err(PlotError::Configuration)
            } else {
                Ok(GpuSelector { platform: p, device: d, cores: c as u32 })
            }
        },
        _ => Err(PlotError::Configuration),
    }
}

/// Whether every selector names a device that exists: `devices[p]` is the
/// number of devices on platform `p`.
pub open spec fn selectors_exist(gpus: Seq<GpuSelector>, devices: Seq<u64>) -> bool {
    forall|k: int|
        0 <= k < gpus.len() ==> #[trigger] gpus[k].platform < devices.len() && gpus[k].device
            < devices[gpus[k].platform as int]
}

/// Checks the selectors against the devices found, failing fast with a
/// configuration error when one names no device.
pub fn check_selectors(gpus: &Vec<GpuSelector>, devices: &Vec<u64>) -> (r: Result<(), PlotError>)
    ensures
        r is Ok <==> selectors_exist(gpus@, devices@),
        r is Err ==> r == Err::<(), PlotError>(PlotError::Configuration),
{
    let mut k: usize = 0;
    while k < gpus.len()
        invariant
            k <= gpus@.len(),
            forall|m: int|
                0 <= m < k ==> #[trigger] gpus@[m].platform < devices@.len() && gpus@[m].device
                    < devices@[gpus@[m].platform as int],
        decreases gpus@.len() - k,
    {
        let g = gpus[k];
        if g.platform >= devices.len() as u64 || g.device >= devices[g.platform as usize] {
            return Err(PlotError::Configuration);
        }
        k = k + 1;
    }
    Ok(())
}

} // verus!
