//! The cells of a self-similarity matrix, which is held row by row.

use vstd::prelude::*;

verus! {

/// The place of the cell of row `i` and column `j`.
pub open spec fn cell(num_frames: nat, i: nat, j: nat) -> nat {
    i * num_frames + j
}

/// A cell lies within the matrix.
pub proof fn law_cells_lie_within_matrix(num_frames: nat, i: nat, j: nat)
    requires
        i < num_frames,
        j < num_frames,
    ensures
        cell(num_frames, i, j) < num_frames * num_frames,
        i * num_frames <= cell(num_frames, i, j),
{
    assert(i * num_frames + j < num_frames * num_frames) by (nonlinear_arith)
        requires
            i < num_frames,
            j < num_frames,
    ;
}

/// Different cells have different places.
pub proof fn law_cells_are_apart(num_frames: nat, i: nat, j: nat, k: nat, l: nat)
    requires
        j < num_frames,
        l < num_frames,
        cell(num_frames, i, j) == cell(num_frames, k, l),
    ensures
        i == k,
        j == l,
{
    if i < k {
        assert(k * num_frames >= i * num_frames + num_frames) by (nonlinear_arith)
            requires
                k >= i + 1,
        ;
    }
    if k < i {
        assert(i * num_frames >= k * num_frames + num_frames) by (nonlinear_arith)
            requires
                i >= k + 1,
        ;
    }
}

/// The place of the cell of row `i` and column `j`.
pub fn cell_index(num_frames: usize, i: usize, j: usize) -> (at: usize)
    requires
        i < num_frames,
        j < num_frames,
        num_frames * num_frames <= usize::MAX,
    ensures
        at == cell(num_frames as nat, i as nat, j as nat),
        at < num_frames * num_frames,
{
    proof {
        law_cells_lie_within_matrix(num_frames as nat, i as nat, j as nat);
        assert(i * num_frames >= 0) by (nonlinear_arith);
    }
    i * num_frames + j
}

/// The matrix is held from its first cell on, row by row: the next column follows at once, and
/// the next row follows the last column.
pub proof fn law_matrix_is_held_row_by_row(num_frames: nat, i: nat, j: nat)
    ensures
        cell(num_frames, 0, 0) == 0,
        cell(num_frames, i, j + 1) == cell(num_frames, i, j) + 1,
        num_frames > 0 ==> cell(num_frames, i + 1, 0) == cell(
            num_frames,
            i,
            (num_frames - 1) as nat,
        ) + 1,
{
    assert((i + 1) * num_frames == i * num_frames + num_frames) by (nonlinear_arith);
}

} // verus!
