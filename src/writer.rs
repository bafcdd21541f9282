use vstd::prelude::*;

use crate::layout::{
    grid_index, lemma_join_index, lemma_split_index, lemma_transposed_cell, scoop_major,
    to_scoop_major, NONCE_SIZE, SCOOPS_PER_NONCE, SCOOP_SIZE,
};

verus! {

/// How many times one write is tried before a transient storage error
/// fails the run.
pub const WRITE_ATTEMPTS: u32 = 3;

/// Whether a write that just failed is tried again: only a transient storage
/// error is, and only while attempts are left.
pub fn retry_write(attempts: u32, transient: bool) -> (r: bool)
    ensures
        r == (transient && attempts < WRITE_ATTEMPTS),
{
    transient && attempts < WRITE_ATTEMPTS
}

/// The bytes that one scoop takes across all `nonces` nonces of a file.
pub open spec fn row_bytes(nonces: int) -> int {
    nonces * SCOOP_SIZE as int
}

/// Which scoop row of a file of `nonces` nonces byte `j` lies in.
pub open spec fn row_of(j: int, nonces: int) -> int {
    j / row_bytes(nonces)
}

/// Where in its scoop row byte `j` lies.
pub open spec fn in_row(j: int, nonces: int) -> int {
    j % row_bytes(nonces)
}

/// Byte `j` of a file of `file_nonces` nonces belongs to the chunk of `len`
/// nonces from nonce index `first`.
pub open spec fn in_chunk(j: int, file_nonces: int, first: int, len: int) -> bool {
    first * SCOOP_SIZE as int <= in_row(j, file_nonces) < (first + len) * SCOOP_SIZE as int
}

/// Where byte `j` of the file is found in the chunk's scoop-major buffer.
pub open spec fn chunk_source(j: int, file_nonces: int, first: int, len: int) -> int {
    row_of(j, file_nonces) * row_bytes(len) + in_row(j, file_nonces) - first * SCOOP_SIZE as int
}

/// The file after the chunk has been written into its scoop rows below
/// `rows`, and into row `rows` up to `upto` bytes into the chunk's run.
pub open spec fn written_upto(
    file: Seq<u8>,
    chunk: Seq<u8>,
    file_nonces: int,
    first: int,
    len: int,
    rows: int,
    upto: int,
) -> Seq<u8> {
    Seq::new(
        file.len(),
        |j: int|
            if in_chunk(j, file_nonces, first, len) && (row_of(j, file_nonces) < rows || (row_of(
                j,
                file_nonces,
            ) == rows && in_row(j, file_nonces) < first * SCOOP_SIZE as int + upto)) {
                chunk[chunk_source(j, file_nonces, first, len)]
            } else {
                file[j]
            },
    )
}

/// The file after the whole chunk has been written.
pub open spec fn chunk_written(
    file: Seq<u8>,
    chunk: Seq<u8>,
    file_nonces: int,
    first: int,
    len: int,
) -> Seq<u8> {
    written_upto(file, chunk, file_nonces, first, len, SCOOPS_PER_NONCE as int, 0)
}

/// The byte offset in a file of `file_nonces` nonces at which the run of
/// scoop `scoop` for the nonces from index `first` begins.
pub open spec fn spec_write_offset(file_nonces: int, first: int, scoop: int) -> int {
    (scoop * file_nonces + first) * SCOOP_SIZE as int
}

/// Offset of the write of scoop `scoop` of a chunk that starts at nonce
/// index `first` of a file of `file_nonces` nonces.
pub fn scoop_write_offset(file_nonces: u64, first: u64, scoop: u64) -> (r: Option<u64>)
    ensures
        r is Some <==> spec_write_offset(file_nonces as int, first as int, scoop as int)
            <= u64::MAX,
        r matches Some(o) ==> o == spec_write_offset(file_nonces as int, first as int, scoop as int),
{
    proof {
        assert(scoop * file_nonces <= 0xffff_ffff_ffff_ffffu128 * 0xffff_ffff_ffff_ffffu128)
            by (nonlinear_arith)
            requires
                scoop <= 0xffff_ffff_ffff_ffffu128,
                file_nonces <= 0xffff_ffff_ffff_ffffu128,
        ;
    }
    let a = (scoop as u128) * (file_nonces as u128);
    let b = a + first as u128;
    if b > u64::MAX as u128 / (SCOOP_SIZE as u128) {
        return None;
    }
    Some((b * (SCOOP_SIZE as u128)) as u64)
}

proof fn lemma_sizes(n: int)
    requires
        n >= 0,
    ensures
        n * NONCE_SIZE == SCOOPS_PER_NONCE * row_bytes(n),
        row_bytes(n) <= n * NONCE_SIZE,
        row_bytes(n) >= 0,
{
    assert(n * 262144 == 4096 * (n * 64)) by (nonlinear_arith);
    assert(n * 64 <= n * 262144) by (nonlinear_arith)
        requires
            n >= 0,
    ;
}

proof fn lemma_position(j: int, file_nonces: int)
    requires
        file_nonces > 0,
        0 <= j < SCOOPS_PER_NONCE * row_bytes(file_nonces),
    ensures
        0 <= row_of(j, file_nonces) < SCOOPS_PER_NONCE,
        0 <= in_row(j, file_nonces) < row_bytes(file_nonces),
        j == row_of(j, file_nonces) * row_bytes(file_nonces) + in_row(j, file_nonces),
{
    lemma_split_index(j, SCOOPS_PER_NONCE as int, file_nonces, SCOOP_SIZE as int);
    vstd::arithmetic::div_mod::lemma_fundamental_div_mod(j, row_bytes(file_nonces));
    assert(row_bytes(file_nonces) * row_of(j, file_nonces) == row_of(j, file_nonces) * row_bytes(
        file_nonces,
    )) by (nonlinear_arith);
}

/// Writer: copies a chunk of `len` nonces, already in scoop-major order,
/// into the file image at nonce index `first`: for each scoop one run of
/// `len * SCOOP_SIZE` bytes, at `spec_write_offset(file_nonces, first, scoop)`,
/// scoop after scoop in increasing offset order. Bytes of other nonces stay.
pub fn write_chunk(file: &mut Vec<u8>, chunk: &Vec<u8>, file_nonces: usize, first: usize, len: usize)
    requires
        len > 0,
        first + len <= file_nonces,
        old(file)@.len() == file_nonces * NONCE_SIZE,
        chunk@.len() == len * NONCE_SIZE,
    ensures
        final(file)@ == chunk_written(old(file)@, chunk@, file_nonces as int, first as int, len as int),
{
    let ghost orig = file@;
    let ghost fnz = file_nonces as int;
    let total = file.len();
    proof {
        lemma_sizes(fnz);
        lemma_sizes(len as int);
        lemma_sizes(first as int);
    }
    let file_row: usize = file_nonces * SCOOP_SIZE;
    let run: usize = len * SCOOP_SIZE;
    let lead: usize = first * SCOOP_SIZE;
    let mut s: usize = 0;
    while s < SCOOPS_PER_NONCE
        invariant
            orig.len() == file_nonces * NONCE_SIZE,
            orig.len() == SCOOPS_PER_NONCE * row_bytes(fnz),
            chunk@.len() == SCOOPS_PER_NONCE * row_bytes(len as int),
            fnz == file_nonces,
            file_row == row_bytes(fnz),
            run == row_bytes(len as int),
            lead == first * SCOOP_SIZE,
            len > 0,
            first + len <= file_nonces,
            s <= SCOOPS_PER_NONCE,
            total == orig.len(),
            file@ == written_upto(orig, chunk@, fnz, first as int, len as int, s as int, 0),
        decreases SCOOPS_PER_NONCE - s,
    {
        proof {
            assert(s * file_row + file_row <= 4096 * file_row) by (nonlinear_arith)
                requires
                    s < 4096,
                    file_row >= 0,
            ;
            assert(s * run + run <= 4096 * run) by (nonlinear_arith)
                requires
                    s < 4096,
                    run >= 0,
            ;
            assert(lead + run <= file_row) by (nonlinear_arith)
                requires
                    lead == first * SCOOP_SIZE,
                    run == len * SCOOP_SIZE,
                    file_row == file_nonces * SCOOP_SIZE,
                    first + len <= file_nonces,
            ;
        }
        let dst: usize = s * file_row + lead;
        let src: usize = s * run;
        let mut t: usize = 0;
        while t < run
            invariant
                orig.len() == SCOOPS_PER_NONCE * row_bytes(fnz),
                chunk@.len() == SCOOPS_PER_NONCE * row_bytes(len as int),
                file_row == row_bytes(fnz),
                run == row_bytes(len as int),
                lead == first * SCOOP_SIZE,
                lead + run <= file_row,
                first + len <= fnz,
                fnz > 0,
                s < SCOOPS_PER_NONCE,
                dst == s * file_row + lead,
                src == s * run,
                s * file_row + file_row <= orig.len(),
                s * run + run <= chunk@.len(),
                total == orig.len(),
                file@.len() == orig.len(),
                t <= run,
                file@ == written_upto(orig, chunk@, fnz, first as int, len as int, s as int, t as int),
            decreases run - t,
        {
            let v = chunk[src + t];
            file.set(dst + t, v);
            proof {
                let k = dst + t;
                let next = written_upto(orig, chunk@, fnz, first as int, len as int, s as int, t + 1);
                vstd::arithmetic::div_mod::lemma_fundamental_div_mod_converse(
                    k as int,
                    file_row as int,
                    s as int,
                    lead + t,
                );
                assert forall|j: int| 0 <= j < file@.len() implies file@[j] == next[j] by {
                    if j != k {
                        lemma_position(j, fnz);
                        if row_of(j, fnz) == s {
                            assert(in_row(j, fnz) != lead + t);
                        }
                    }
                }
                assert(file@ =~= next);
            }
            t = t + 1;
        }
        proof {
            let cur = written_upto(orig, chunk@, fnz, first as int, len as int, s as int, run as int);
            let next = written_upto(orig, chunk@, fnz, first as int, len as int, s + 1, 0);
            assert forall|j: int| 0 <= j < cur.len() implies cur[j] == next[j] by {
                lemma_position(j, fnz);
            }
            assert(cur =~= next);
        }
        s = s + 1;
    }
}

/// The file image agrees with the finished file of `data` (all nonces, one
/// block each) on every byte of the nonces below index `done`.
pub open spec fn agrees_below(file: Seq<u8>, data: Seq<u8>, file_nonces: int, done: int) -> bool {
    forall|j: int|
        0 <= j < file.len() && in_row(j, file_nonces) < done * SCOOP_SIZE as int ==> #[trigger] file[j]
            == scoop_major(data, file_nonces)[j]
}

/// The blocks of the nonces `first .. first + len` of `data`.
pub open spec fn chunk_of(data: Seq<u8>, first: int, len: int) -> Seq<u8> {
    data.subrange(first * NONCE_SIZE as int, (first + len) * NONCE_SIZE as int)
}

proof fn lemma_chunk_byte(data: Seq<u8>, file_nonces: int, first: int, len: int, j: int)
    requires
        len > 0,
        first >= 0,
        first + len <= file_nonces,
        data.len() == file_nonces * NONCE_SIZE,
        0 <= j < data.len(),
        in_chunk(j, file_nonces, first, len),
    ensures
        0 <= chunk_source(j, file_nonces, first, len) < len * NONCE_SIZE,
        scoop_major(chunk_of(data, first, len), len)[chunk_source(j, file_nonces, first, len)]
            == scoop_major(data, file_nonces)[j],
{
    let z = SCOOP_SIZE as int;
    let sc = SCOOPS_PER_NONCE as int;
    lemma_sizes(file_nonces);
    lemma_sizes(len);
    lemma_position(j, file_nonces);
    let s = row_of(j, file_nonces);
    let c = in_row(j, file_nonces);
    vstd::arithmetic::div_mod::lemma_fundamental_div_mod(c, z);
    let n = c / z;
    let b = c % z;
    assert(c == n * z + b);
    assert(first <= n < first + len) by (nonlinear_arith)
        requires
            first * z <= c < (first + len) * z,
            c == n * z + b,
            0 <= b < z,
            z == 64,
    ;
    assert(j == grid_index(s, n, file_nonces, z) + b);
    lemma_transposed_cell(data, file_nonces, sc, z, n, s, b);
    let sub = chunk_of(data, first, len);
    let m = n - first;
    assert(first * NONCE_SIZE + (first + len - first) * NONCE_SIZE == (first + len) * NONCE_SIZE)
        by (nonlinear_arith);
    assert(first * NONCE_SIZE >= 0 && (first + len) * NONCE_SIZE <= data.len()) by (nonlinear_arith)
        requires
            first >= 0,
            len > 0,
            first + len <= file_nonces,
            data.len() == file_nonces * NONCE_SIZE,
    ;
    assert(sub.len() == len * NONCE_SIZE);
    assert(chunk_source(j, file_nonces, first, len) == grid_index(s, m, len, z) + b) by (
    nonlinear_arith)
        requires
            c == n * z + b,
            m == n - first,
            chunk_source(j, file_nonces, first, len) == s * (len * z) + c - first * z,
    ;
    lemma_transposed_cell(sub, len, sc, z, m, s, b);
    assert(first * NONCE_SIZE + grid_index(m, s, sc, z) + b == grid_index(n, s, sc, z) + b) by (
    nonlinear_arith)
        requires
            m == n - first,
            sc == 4096,
            z == 64,
    ;
}

/// Prefix validity: when the file already holds the finished bytes of the
/// nonces below `first`, writing the chunk of `len` nonces from `first`
/// leaves it holding the finished bytes of all nonces below `first + len`.
/// Chunks written in order thus leave, at any stop between two chunks, every
/// byte of the nonces written so far as a full run has it.
pub proof fn lemma_prefix_after_chunk(
    file: Seq<u8>,
    data: Seq<u8>,
    file_nonces: int,
    first: int,
    len: int,
)
    requires
        len > 0,
        first >= 0,
        first + len <= file_nonces,
        file.len() == file_nonces * NONCE_SIZE,
        data.len() == file_nonces * NONCE_SIZE,
        agrees_below(file, data, file_nonces, first),
    ensures
        agrees_below(
            chunk_written(file, scoop_major(chunk_of(data, first, len), len), file_nonces, first, len),
            data,
            file_nonces,
            first + len,
        ),
{
    let sm = scoop_major(chunk_of(data, first, len), len);
    let next = chunk_written(file, sm, file_nonces, first, len);
    lemma_sizes(file_nonces);
    assert forall|j: int|
        0 <= j < next.len() && in_row(j, file_nonces) < (first + len) * SCOOP_SIZE as int implies #[trigger] next[j]
            == scoop_major(data, file_nonces)[j] by {
        lemma_position(j, file_nonces);
        if in_chunk(j, file_nonces, first, len) {
            lemma_chunk_byte(data, file_nonces, first, len, j);
        }
    }
}

/// The bytes `from .. to` of `data`.
fn copy_range(data: &Vec<u8>, from: usize, to: usize) -> (r: Vec<u8>)
    requires
        from <= to <= data@.len(),
    ensures
        r@ == data@.subrange(from as int, to as int),
{
    let mut out: Vec<u8> = Vec::with_capacity(to - from);
    let mut i: usize = from;
    while i < to
        invariant
            from <= i <= to <= data@.len(),
            out@ == data@.subrange(from as int, i as int),
        decreases to - i,
    {
        out.push(data[i]);
        proof {
            assert(out@ =~= data@.subrange(from as int, i + 1));
        }
        i = i + 1;
    }
    out
}

/// Runs the whole pipeline over a file image: `data` holds the blocks of all
/// `nonces` nonces, one after another; each chunk of at most `chunk` nonces
/// is cut out, repacked scoop-major and written in order. The result is the
/// scoop-major file, whatever the chunk size.
pub fn plot_in_memory(data: &Vec<u8>, nonces: usize, chunk: usize) -> (r: Vec<u8>)
    requires
        nonces > 0,
        chunk > 0,
        data@.len() == nonces * NONCE_SIZE,
    ensures
        r@ == scoop_major(data@, nonces as int),
{
    let total = data.len();
    let mut file: Vec<u8> = vec![0u8; total];
    let mut first: usize = 0;
    proof {
        lemma_sizes(nonces as int);
    }
    while first < nonces
        invariant
            nonces > 0,
            chunk > 0,
            total == data@.len(),
            data@.len() == nonces * NONCE_SIZE,
            file@.len() == total,
            first <= nonces,
            agrees_below(file@, data@, nonces as int, first as int),
        decreases nonces - first,
    {
        let rest = nonces - first;
        let len = if chunk < rest { chunk } else { rest };
        proof {
            assert((first + len) * NONCE_SIZE <= nonces * NONCE_SIZE) by (nonlinear_arith)
                requires
                    first + len <= nonces,
            ;
            assert(first * NONCE_SIZE + len * NONCE_SIZE == (first + len) * NONCE_SIZE)
                by (nonlinear_arith);
        }
        let mut buf = copy_range(data, first * NONCE_SIZE, (first + len) * NONCE_SIZE);
        proof {
            assert(buf@ == chunk_of(data@, first as int, len as int));
        }
        to_scoop_major(&mut buf, len);
        let ghost before = file@;
        write_chunk(&mut file, &buf, nonces, first, len);
        proof {
            lemma_prefix_after_chunk(before, data@, nonces as int, first as int, len as int);
        }
        first = first + len;
    }
    proof {
        assert forall|j: int| 0 <= j < file@.len() implies file@[j] == scoop_major(
            data@,
            nonces as int,
        )[j] by {
            lemma_position(j, nonces as int);
        }
        assert(file@ =~= scoop_major(data@, nonces as int));
    }
    file
}

} // verus!
