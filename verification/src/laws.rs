//! The library's algebraic laws, stated over the grid model that the
//! executable contracts use, and proved once for all matrices.

use vstd::prelude::*;

use crate::Matrix;
use crate::model::{
    add_grid, det_units, is_grid, lemma_round_ratio_multiple, neg_grid, scale_grid, sub_grid,
    trace_prefix, transpose_grid,
};

verus! {

/// Adding a matrix and subtracting it again gives back the original:
/// sums of grid values stay on the five-decimal grid, so the
/// cancellation is exact, not merely approximate.
pub proof fn lemma_add_sub_cancel(a: Seq<Seq<int>>, b: Seq<Seq<int>>)
    requires
        a.len() == b.len(),
        forall|i: int| 0 <= i < a.len() ==> (#[trigger] a[i]).len() == b[i].len(),
    ensures
        sub_grid(add_grid(a, b), b) == a,
{
    assert(sub_grid(add_grid(a, b), b) =~~= a);
}

/// Matrix addition is commutative.
pub proof fn lemma_add_commutes(a: Seq<Seq<int>>, b: Seq<Seq<int>>)
    requires
        a.len() == b.len(),
        forall|i: int| 0 <= i < a.len() ==> (#[trigger] a[i]).len() == b[i].len(),
    ensures
        add_grid(a, b) == add_grid(b, a),
{
    assert(add_grid(a, b) =~~= add_grid(b, a));
}

/// Transposing twice gives back the original grid, for any rectangular
/// shape (`c` is the column count, carried separately for empty grids).
pub proof fn lemma_transpose_involution(g: Seq<Seq<int>>, c: int)
    requires
        c >= 0,
        forall|i: int| 0 <= i < g.len() ==> (#[trigger] g[i]).len() == c,
    ensures
        transpose_grid(transpose_grid(g, c), g.len() as int) == g,
{
    assert(transpose_grid(transpose_grid(g, c), g.len() as int) =~~= g);
}

/// The trace of the transpose equals the trace: transposition leaves the
/// diagonal untouched.
pub proof fn lemma_trace_transpose(g: Seq<Seq<int>>, k: nat)
    requires
        is_grid(g, g.len() as int, g.len() as int),
        k <= g.len(),
    ensures
        trace_prefix(transpose_grid(g, g.len() as int), k) == trace_prefix(g, k),
    decreases k,
{
    if k > 0 {
        lemma_trace_transpose(g, (k - 1) as nat);
        assert(transpose_grid(g, g.len() as int)[k - 1][k - 1] == g[k - 1][k - 1]);
    }
}

/// A square matrix is singular exactly when its determinant is zero:
/// `is_singular` answers `spec_is_square && det_units == 0`, and on a
/// square matrix `determinant` returns exactly `det_units`.
pub proof fn lemma_singular_iff_zero_determinant(m: Matrix)
    requires
        m.wf(),
        m.spec_is_square(),
    ensures
        (m.spec_is_square() && det_units(m@) == 0) <==> det_units(m@) == 0,
{
}

/// Negation is scalar multiplication by -1.0: scaling by -1.0 lands every
/// product back on the grid, so the rounding is the identity.
pub proof fn lemma_neg_is_scale(g: Seq<Seq<int>>)
    ensures
        scale_grid(-100000, g) == neg_grid(g),
{
    assert forall|i: int, j: int|
        0 <= i < g.len() && 0 <= j < g[i].len() implies #[trigger] scale_grid(-100000, g)[i][j]
        == -g[i][j] by {
        assert((-100000) * g[i][j] == 100000 * (-g[i][j]));
        lemma_round_ratio_multiple(-g[i][j], 100000);
    }
    assert(scale_grid(-100000, g) =~~= neg_grid(g));
}

} // verus!
