//! The sampling order of the field generators: a dense field visits its
//! cells with the first axis outermost and the last axis fastest, so cell
//! `k` of the flat row-major output maps back to its per-axis indices.

use vstd::prelude::*;
use vstd::arithmetic::div_mod::{
    lemma_fundamental_div_mod_converse, lemma_mod_multiples_vanish, lemma_small_mod,
};
use vstd::arithmetic::mul::lemma_mul_inequality;

verus! {

/// The per-axis sample indices of a two-dimensional field, in generation
/// order: cell `k` of the flat output samples axis indices
/// `(k / ny, k % ny)`, so the output has exactly `nx * ny` cells and the
/// second axis varies fastest.
pub fn sample_cells2d(nx: usize, ny: usize) -> (cells: Vec<(usize, usize)>)
    requires
        nx * ny <= usize::MAX,
    ensures
        cells@.len() == nx * ny,
        forall|k: int|
            0 <= k < cells@.len() ==> (#[trigger] cells@[k]).0 == k / ny as int && cells@[k].1
                == k % ny as int,
{
    let mut cells: Vec<(usize, usize)> = Vec::new();
    let mut i: usize = 0;
    while i < nx
        invariant
            i <= nx,
            nx * ny <= usize::MAX,
            cells@.len() == i * ny,
            forall|k: int|
                0 <= k < cells@.len() ==> (#[trigger] cells@[k]).0 == k / ny as int && cells@[k].1
                    == k % ny as int,
        decreases nx - i,
    {
        let mut j: usize = 0;
        while j < ny
            invariant
                i < nx,
                j <= ny,
                nx * ny <= usize::MAX,
                cells@.len() == i * ny + j,
                forall|k: int|
                    0 <= k < cells@.len() ==> (#[trigger] cells@[k]).0 == k / ny as int
                        && cells@[k].1 == k % ny as int,
            decreases ny - j,
        {
            cells.push((i, j));
            proof {
                lemma_mul_inequality(i + 1, nx as int, ny as int);
                assert((i + 1) * ny == i * ny + ny) by (nonlinear_arith);
                lemma_fundamental_div_mod_converse(i * ny + j, ny as int, i as int, j as int);
            }
            j = j + 1;
        }
        proof {
            assert((i + 1) * ny == i * ny + ny) by (nonlinear_arith);
        }
        i = i + 1;
    }
    proof {
        lemma_mul_inequality(i as int, nx as int, ny as int);
    }
    cells
}

/// The per-axis sample indices of a three-dimensional field, in generation
/// order: cell `k` of the flat output samples axis indices
/// `(k / (ny * nz), (k / nz) % ny, k % nz)`, so the output has exactly
/// `nx * ny * nz` cells and the last axis varies fastest.
pub fn sample_cells3d(nx: usize, ny: usize, nz: usize) -> (cells: Vec<(usize, usize, usize)>)
    requires
        nx * ny * nz <= usize::MAX,
    ensures
        cells@.len() == nx * ny * nz,
        forall|k: int|
            0 <= k < cells@.len() ==> (#[trigger] cells@[k]).0 == k / (ny * nz) as int
                && cells@[k].1 == (k / nz as int) % ny as int && cells@[k].2 == k % nz as int,
{
    let mut cells: Vec<(usize, usize, usize)> = Vec::new();
    let mut i: usize = 0;
    proof {
        assert(nx * (ny * nz) == nx * ny * nz) by (nonlinear_arith);
    }
    while i < nx
        invariant
            i <= nx,
            nx * (ny * nz) <= usize::MAX,
            nx * (ny * nz) == nx * ny * nz,
            cells@.len() == i * (ny * nz),
            forall|k: int|
                0 <= k < cells@.len() ==> (#[trigger] cells@[k]).0 == k / (ny * nz) as int
                    && cells@[k].1 == (k / nz as int) % ny as int && cells@[k].2 == k % nz as int,
        decreases nx - i,
    {
        let mut j: usize = 0;
        while j < ny
            invariant
                i < nx,
                j <= ny,
                nx * (ny * nz) <= usize::MAX,
                cells@.len() == i * (ny * nz) + j * nz,
                forall|k: int|
                    0 <= k < cells@.len() ==> (#[trigger] cells@[k]).0 == k / (ny * nz) as int
                        && cells@[k].1 == (k / nz as int) % ny as int && cells@[k].2 == k
                        % nz as int,
            decreases ny - j,
        {
            let mut l: usize = 0;
            while l < nz
                invariant
                    i < nx,
                    j < ny,
                    l <= nz,
                    nx * (ny * nz) <= usize::MAX,
                    cells@.len() == i * (ny * nz) + j * nz + l,
                    forall|k: int|
                        0 <= k < cells@.len() ==> (#[trigger] cells@[k]).0 == k / (ny * nz) as int
                            && cells@[k].1 == (k / nz as int) % ny as int && cells@[k].2 == k
                            % nz as int,
                decreases nz - l,
            {
                cells.push((i, j, l));
                proof {
                    lemma_cell3d_index(i as int, j as int, l as int, ny as int, nz as int);
                    assert((i + 1) * (ny * nz) <= nx * (ny * nz)) by (nonlinear_arith)
                        requires
                            i + 1 <= nx,
                            ny >= 0,
                            nz >= 0,
                    ;
                    assert(i * (ny * nz) + (j + 1) * nz <= (i + 1) * (ny * nz))
                        by (nonlinear_arith)
                        requires
                            0 <= i,
                            0 <= j,
                            j + 1 <= ny,
                            0 <= nz,
                    ;
                }
                l = l + 1;
            }
            proof {
                assert((j + 1) * nz == j * nz + nz) by (nonlinear_arith);
            }
            j = j + 1;
        }
        proof {
            assert((i + 1) * (ny * nz) == i * (ny * nz) + ny * nz) by (nonlinear_arith);
        }
        i = i + 1;
    }
    cells
}

/// Cell `(i, j, l)` of a row-major `(ny, nz)`-strided field sits at flat
/// index `i * ny * nz + j * nz + l`, and that index maps back to `(i, j, l)`.
proof fn lemma_cell3d_index(i: int, j: int, l: int, ny: int, nz: int)
    requires
        0 <= i,
        0 <= j < ny,
        0 <= l < nz,
    ensures
        (i * (ny * nz) + j * nz + l) / (ny * nz) == i,
        ((i * (ny * nz) + j * nz + l) / nz) % ny == j,
        (i * (ny * nz) + j * nz + l) % nz == l,
{
    let k = i * (ny * nz) + j * nz + l;
    assert(0 <= j * nz + l < ny * nz) by (nonlinear_arith)
        requires
            0 <= j < ny,
            0 <= l < nz,
    ;
    lemma_fundamental_div_mod_converse(k, ny * nz, i, j * nz + l);
    assert(i * (ny * nz) + j * nz + l == (i * ny + j) * nz + l) by (nonlinear_arith);
    lemma_fundamental_div_mod_converse(k, nz, i * ny + j, l);
    lemma_mod_multiples_vanish(i, j, ny);
    assert(ny * i + j == i * ny + j) by (nonlinear_arith);
    lemma_small_mod(j as nat, ny as nat);
}

} // verus!
