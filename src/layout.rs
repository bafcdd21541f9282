use vstd::prelude::*;

verus! {

/// Index in a `rows x cols` grid of `cell`-byte cells, stored row by row.
pub open spec fn grid_index(row: int, col: int, cols: int, cell: int) -> int {
    row * (cols * cell) + col * cell
}

/// Where byte `i` of the transposed grid comes from, for a source grid of
/// `rows x cols` cells of `cell` bytes.
pub open spec fn transposed_source(i: int, rows: int, cols: int, cell: int) -> int {
    let col = i / (rows * cell);
    let row = (i % (rows * cell)) / cell;
    let b = i % cell;
    grid_index(row, col, cols, cell) + b
}

/// The grid `src` (`rows x cols` cells of `cell` bytes, row by row) with rows
/// and columns exchanged: the result holds `cols` rows of `rows` cells.
pub open spec fn transposed(src: Seq<u8>, rows: int, cols: int, cell: int) -> Seq<u8> {
    Seq::new(src.len(), |i: int| src[transposed_source(i, rows, cols, cell)])
}

/// A byte index below `m * (n * z)` splits uniquely into a row below `m`, a
/// cell below `n` and a byte below `z`.
pub proof fn lemma_split_index(i: int, m: int, n: int, z: int)
    requires
        n > 0,
        z > 0,
        0 <= i < m * (n * z),
    ensures
        0 <= i / (n * z) < m,
        0 <= (i % (n * z)) / z < n,
        0 <= i % z < z,
        i == grid_index(i / (n * z), (i % (n * z)) / z, n, z) + i % z,
        i % z == (i % (n * z)) % z,
{
    let nz = n * z;
    assert(nz > 0) by (nonlinear_arith)
        requires
            nz == n * z,
            n > 0,
            z > 0,
    ;
    let q = i / nz;
    let r = i % nz;
    assert(i == q * nz + r && 0 <= r < nz) by (nonlinear_arith)
        requires
            nz > 0,
            q == i / nz,
            r == i % nz,
    ;
    let c = r / z;
    let b = r % z;
    assert(r == c * z + b && 0 <= b < z && 0 <= c) by (nonlinear_arith)
        requires
            z > 0,
            c == r / z,
            b == r % z,
            r >= 0,
    ;
    assert(c < n) by (nonlinear_arith)
        requires
            r == c * z + b,
            0 <= b,
            r < n * z,
            z > 0,
    ;
    assert(0 <= q < m) by (nonlinear_arith)
        requires
            i == q * nz + r,
            0 <= r < nz,
            0 <= i < m * nz,
    ;
    assert(i == q * nz + c * z + b);
    assert(i == (q * n + c) * z + b) by (nonlinear_arith)
        requires
            i == q * nz + c * z + b,
            nz == n * z,
    ;
    vstd::arithmetic::div_mod::lemma_fundamental_div_mod_converse(i, z, q * n + c, b);
}

/// The converse: a row, a cell and a byte in range give back exactly those
/// three when the index they make is split again.
pub proof fn lemma_join_index(row: int, col: int, b: int, m: int, n: int, z: int)
    requires
        0 <= row < m,
        0 <= col < n,
        0 <= b < z,
    ensures
        0 <= grid_index(row, col, n, z) + b < m * (n * z),
        (grid_index(row, col, n, z) + b) / (n * z) == row,
        ((grid_index(row, col, n, z) + b) % (n * z)) / z == col,
        (grid_index(row, col, n, z) + b) % z == b,
{
    let i = grid_index(row, col, n, z) + b;
    let inner = col * z + b;
    assert(0 <= inner < n * z) by (nonlinear_arith)
        requires
            0 <= col < n,
            0 <= b < z,
            inner == col * z + b,
    ;
    assert(i == row * (n * z) + inner);
    assert(0 <= i < m * (n * z)) by (nonlinear_arith)
        requires
            i == row * (n * z) + inner,
            0 <= inner < n * z,
            0 <= row < m,
    ;
    vstd::arithmetic::div_mod::lemma_fundamental_div_mod_converse(i, n * z, row, inner);
    vstd::arithmetic::div_mod::lemma_fundamental_div_mod_converse(inner, z, col, b);
    assert(i == (row * n + col) * z + b) by (nonlinear_arith)
        requires
            i == row * (n * z) + inner,
            inner == col * z + b,
    ;
    vstd::arithmetic::div_mod::lemma_fundamental_div_mod_converse(i, z, row * n + col, b);
}

/// Byte `b` of cell `(row, col)` of the source lands as byte `b` of cell
/// `(col, row)` of the transposed grid.
pub proof fn lemma_transposed_cell(
    src: Seq<u8>,
    rows: int,
    cols: int,
    cell: int,
    row: int,
    col: int,
    b: int,
)
    requires
        src.len() == rows * (cols * cell),
        0 <= row < rows,
        0 <= col < cols,
        0 <= b < cell,
    ensures
        0 <= grid_index(col, row, rows, cell) + b < src.len(),
        0 <= grid_index(row, col, cols, cell) + b < src.len(),
        transposed(src, rows, cols, cell)[grid_index(col, row, rows, cell) + b] == src[grid_index(
            row,
            col,
            cols,
            cell,
        ) + b],
{
    lemma_join_index(col, row, b, cols, rows, cell);
    lemma_join_index(row, col, b, rows, cols, cell);
    assert(cols * (rows * cell) == rows * (cols * cell)) by (nonlinear_arith);
}

/// Every source index that the transposition reads lies inside the source.
pub proof fn lemma_transposed_source_in_range(i: int, rows: int, cols: int, cell: int)
    requires
        rows > 0,
        cell > 0,
        0 <= i < cols * (rows * cell),
    ensures
        0 <= transposed_source(i, rows, cols, cell) < rows * (cols * cell),
{
    lemma_split_index(i, cols, rows, cell);
    lemma_join_index(
        (i % (rows * cell)) / cell,
        i / (rows * cell),
        i % cell,
        rows,
        cols,
        cell,
    );
}

/// Transposing back restores the grid byte for byte.
pub proof fn lemma_transpose_round_trip(src: Seq<u8>, rows: int, cols: int, cell: int)
    requires
        rows > 0,
        cols > 0,
        cell > 0,
        src.len() == rows * (cols * cell),
    ensures
        transposed(transposed(src, rows, cols, cell), cols, rows, cell) == src,
{
    let t = transposed(src, rows, cols, cell);
    let back = transposed(t, cols, rows, cell);
    assert forall|j: int| 0 <= j < src.len() implies back[j] == src[j] by {
        lemma_split_index(j, rows, cols, cell);
        let row = j / (cols * cell);
        let col = (j % (cols * cell)) / cell;
        let b = j % cell;
        lemma_join_index(col, row, b, cols, rows, cell);
        lemma_transposed_cell(src, rows, cols, cell, row, col, b);
    }
    assert(back =~= src);
}

/// Bytes in one scoop.
pub const SCOOP_SIZE: usize = 64;

/// Scoops in one nonce block.
pub const SCOOPS_PER_NONCE: usize = 4096;

/// Bytes in one nonce block: `SCOOPS_PER_NONCE * SCOOP_SIZE`.
pub const NONCE_SIZE: usize = 262144;

/// A buffer of `nonces` whole blocks, nonce after nonce, repacked scoop after
/// scoop: scoop `s` of nonce `n` moves to `s * nonces * SCOOP_SIZE + n * SCOOP_SIZE`.
pub open spec fn scoop_major(buf: Seq<u8>, nonces: int) -> Seq<u8> {
    transposed(buf, nonces, SCOOPS_PER_NONCE as int, SCOOP_SIZE as int)
}

/// The inverse packing: a scoop-major buffer of `nonces` nonces back to one
/// block per nonce.
pub open spec fn nonce_major(buf: Seq<u8>, nonces: int) -> Seq<u8> {
    transposed(buf, SCOOPS_PER_NONCE as int, nonces, SCOOP_SIZE as int)
}

/// Exchanges rows and columns of a grid of `rows x cols` cells of `cell`
/// bytes, stored row by row.
pub fn transpose(src: &Vec<u8>, rows: usize, cols: usize, cell: usize) -> (r: Vec<u8>)
    requires
        rows > 0,
        cols > 0,
        cell > 0,
        src@.len() == rows * (cols * cell),
    ensures
        r@ == transposed(src@, rows as int, cols as int, cell as int),
{
    let len = src.len();
    proof {
        assert(rows * cell <= len && cols * cell <= len) by (nonlinear_arith)
            requires
                rows > 0,
                cols > 0,
                cell > 0,
                len == rows * (cols * cell),
        ;
        assert(len == cols * (rows * cell)) by (nonlinear_arith)
            requires
                len == rows * (cols * cell),
        ;
    }
    let row_bytes: usize = cols * cell;
    let col_bytes: usize = rows * cell;
    let mut out: Vec<u8> = Vec::with_capacity(len);
    let mut i: usize = 0;
    while i < len
        invariant
            len == src@.len(),
            len == rows * (cols * cell),
            len == cols * (rows * cell),
            row_bytes == cols * cell,
            col_bytes == rows * cell,
            rows > 0,
            cell > 0,
            i <= len,
            out@.len() == i,
            forall|j: int|
                0 <= j < i ==> #[trigger] out@[j] == src@[transposed_source(
                    j,
                    rows as int,
                    cols as int,
                    cell as int,
                )],
        decreases len - i,
    {
        proof {
            lemma_split_index(i as int, cols as int, rows as int, cell as int);
            lemma_transposed_source_in_range(i as int, rows as int, cols as int, cell as int);
        }
        let col = i / col_bytes;
        let row = (i % col_bytes) / cell;
        let b = i % cell;
        proof {
            assert(b == (i % col_bytes) % cell);
            assert(row * row_bytes <= row * row_bytes + col * cell + b) by (nonlinear_arith)
                requires
                    col >= 0,
                    cell >= 0,
                    b >= 0,
            ;
            assert(col * cell <= row * row_bytes + col * cell) by (nonlinear_arith)
                requires
                    row >= 0,
                    row_bytes >= 0,
            ;
        }
        let from = row * row_bytes + col * cell + b;
        out.push(src[from]);
        i = i + 1;
    }
    proof {
        assert(out@ =~= transposed(src@, rows as int, cols as int, cell as int));
    }
    out
}

/// Repacks `buf`, which holds `nonces` whole nonce blocks one after another,
/// into scoop-major order.
pub fn to_scoop_major(buf: &mut Vec<u8>, nonces: usize)
    requires
        nonces > 0,
        old(buf)@.len() == nonces * NONCE_SIZE,
    ensures
        final(buf)@ == scoop_major(old(buf)@, nonces as int),
{
    let packed = transpose(buf, nonces, SCOOPS_PER_NONCE, SCOOP_SIZE);
    *buf = packed;
}

/// Repacks a scoop-major buffer of `nonces` nonces back into one block per
/// nonce.
pub fn to_nonce_major(buf: &mut Vec<u8>, nonces: usize)
    requires
        nonces > 0,
        old(buf)@.len() == nonces * NONCE_SIZE,
    ensures
        final(buf)@ == nonce_major(old(buf)@, nonces as int),
{
    let unpacked = transpose(buf, SCOOPS_PER_NONCE, nonces, SCOOP_SIZE);
    *buf = unpacked;
}

/// Repacking into scoop-major order and back gives back the same buffer byte
/// for byte.
pub proof fn lemma_layout_round_trip(buf: Seq<u8>, nonces: int)
    requires
        nonces > 0,
        buf.len() == nonces * NONCE_SIZE,
    ensures
        nonce_major(scoop_major(buf, nonces), nonces) == buf,
        scoop_major(nonce_major(buf, nonces), nonces) == buf,
{
    lemma_transpose_round_trip(buf, nonces, SCOOPS_PER_NONCE as int, SCOOP_SIZE as int);
    assert(nonces * NONCE_SIZE == SCOOPS_PER_NONCE * (nonces * SCOOP_SIZE)) by (nonlinear_arith);
    lemma_transpose_round_trip(buf, SCOOPS_PER_NONCE as int, nonces, SCOOP_SIZE as int);
}

} // verus!
