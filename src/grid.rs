use vstd::prelude::*;

verus! {

/// Why an operation on a universe was refused.
#[derive(Clone, Copy, Debug, PartialEq, Eq, Structural)]
pub enum GridError {
    /// A width or height of zero, or a grid whose cell count does not fit in a `u32`.
    InvalidDimension,
    /// A coordinate outside the grid.
    IndexOutOfRange,
}

/// The index before `i` on a ring of `n` places.
pub open spec fn wrap_before(i: nat, n: nat) -> nat {
    if i == 0 {
        (n - 1) as nat
    } else {
        (i - 1) as nat
    }
}

/// The index after `i` on a ring of `n` places.
pub open spec fn wrap_after(i: nat, n: nat) -> nat {
    if i + 1 >= n {
        0
    } else {
        i + 1
    }
}

/// Edges wrap: the place before the first is the last, the place after the
/// last is the first, and elsewhere the places before and after are the
/// adjacent ones.
pub proof fn lemma_wrap_edges(n: nat)
    requires
        n > 0,
    ensures
        wrap_before(0, n) == n - 1,
        wrap_after((n - 1) as nat, n) == 0,
        forall|i: nat| 0 < i < n ==> #[trigger] wrap_before(i, n) == i - 1,
        forall|i: nat| i + 1 < n ==> #[trigger] wrap_after(i, n) == i + 1,
        forall|i: nat| i < n ==> #[trigger] wrap_before(i, n) < n && wrap_after(i, n) < n,
{
}

/// A place in a grid of `h` rows of `w` cells has a row-major index below `w * h`.
pub proof fn lemma_index_in_range(row: nat, column: nat, w: nat, h: nat)
    requires
        row < h,
        column < w,
    ensures
        row * w + column < w * h,
{
    assert(row * w + column < w * h) by (nonlinear_arith)
        requires
            row < h,
            column < w,
    ;
}

} // verus!
