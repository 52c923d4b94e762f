//! The discrete core of the Kabsch-Umeyama estimator: the
//! reflection-guard sign vector, the rank-dependent correction branch,
//! and the assembly of the homogeneous transform matrix.

use vstd::prelude::*;

verus! {

use crate::array2::Array2;

/// An algebraic sign, standing for the +1 / -1 entries of the
/// sign-correction diagonal vector `d`.
#[derive(Clone, Copy, Debug, PartialEq, Eq, Structural)]
pub enum Sign {
    Plus,
    Minus,
}

/// The reflection-guard vector, fixed before the decomposition:
/// length `c`, all `Plus`,
/// except that the last entry is `Minus` when the cross-covariance
/// determinant is negative.
pub open spec fn guard_signs(c: int, det_negative: bool) -> Seq<Sign> {
    Seq::new(c as nat, |i: int| if det_negative && i == c - 1 { Sign::Minus } else { Sign::Plus })
}

/// Build the reflection-guard vector.
pub fn reflection_guard(c: usize, det_negative: bool) -> (d: Vec<Sign>)
    requires
        1 <= c,
    ensures
        d@ == guard_signs(c as int, det_negative),
{
    let mut d: Vec<Sign> = Vec::new();
    let mut i: usize = 0;
    while i < c
        invariant
            i <= c,
            d@.len() == i,
            forall|k: int| 0 <= k < i ==> #[trigger] d@[k] == guard_signs(c as int, det_negative)[k],
        decreases c - i,
    {
        if det_negative && i == c - 1 {
            d.push(Sign::Minus);
        } else {
            d.push(Sign::Plus);
        }
        i += 1;
    }
    proof {
        assert(d@ =~= guard_signs(c as int, det_negative));
    }
    d
}

/// Product of two signs: `Plus` when they agree, `Minus` otherwise.
pub open spec fn sign_mul(a: Sign, b: Sign) -> Sign {
    if a == b {
        Sign::Plus
    } else {
        Sign::Minus
    }
}

/// Product of a sequence of signs.
pub open spec fn sign_product(s: Seq<Sign>) -> Sign
    decreases s.len(),
{
    if s.len() == 0 {
        Sign::Plus
    } else {
        sign_mul(sign_product(s.drop_last()), s.last())
    }
}

/// The guard vector flips orientation exactly when the covariance
/// determinant was negative: its sign product is `Minus` iff the last
/// entry was set to `Minus`.
pub proof fn lemma_guard_sign_product(c: int, det_negative: bool)
    requires
        1 <= c,
    ensures
        sign_product(guard_signs(c, det_negative)) == if det_negative {
            Sign::Minus
        } else {
            Sign::Plus
        },
    decreases c,
{
    let s = guard_signs(c, det_negative);
    assert(s.last() == (if det_negative { Sign::Minus } else { Sign::Plus }));
    if c == 1 {
        assert(s.drop_last() =~= guard_signs(0, false));
        assert(sign_product(s.drop_last()) == Sign::Plus);
    } else {
        lemma_guard_sign_product(c - 1, false);
        assert(s.drop_last() =~= guard_signs(c - 1, false));
        assert(sign_product(s.drop_last()) == Sign::Plus);
    }
    assert(sign_product(s) == sign_mul(sign_product(s.drop_last()), s.last()));
}

/// How the rotation `M` is assembled from the SVD factors `U` and `Vt`.
#[derive(Debug)]
pub enum RotationCorrection {
    /// `M = U * Vt`, with no sign correction.
    Direct,
    /// `M = U * diag(signs) * Vt`, the signs applied element-wise to
    /// the columns of `U`.
    Signed(Vec<Sign>),
}

/// The discrete outcome of the estimator's branching: how to assemble
/// the rotation, and which signs to pair with the singular values when
/// the scale is estimated.
#[derive(Debug)]
pub struct EstimatePlan {
    /// The correction with which the rotation is assembled.
    pub rotation: RotationCorrection,
    /// The signs paired element-wise with the singular values in the
    /// scale numerator: always the pre-decomposition guard, also where the
    /// rank-deficient branch temporarily forced the last sign.
    pub scale_signs: Vec<Sign>,
}

/// The rotation correction demanded for covariance rank `rank`:
/// at rank `c - 1` the reflection-ambiguous branch decides by the sign
/// of `det(U) * det(Vt)`; at any other non-zero rank the guard
/// is applied as it stands.
pub open spec fn corrected_rotation(
    c: int,
    det_a_negative: bool,
    rank: int,
    det_uv_positive: bool,
    rot: RotationCorrection,
) -> bool {
    if rank == c - 1 {
        if det_uv_positive {
            rot is Direct
        } else {
            rot matches RotationCorrection::Signed(s) && s@ == guard_signs(c, true)
        }
    } else {
        rot matches RotationCorrection::Signed(s) && s@ == guard_signs(c, det_a_negative)
    }
}

/// A plan is right for the given determinant signs and rank when its
/// rotation follows `corrected_rotation` and its scale signs are the
/// unmodified pre-decomposition guard.
pub open spec fn plan_matches(
    c: int,
    det_a_negative: bool,
    rank: int,
    det_uv_positive: bool,
    p: EstimatePlan,
) -> bool {
    &&& p.scale_signs@ == guard_signs(c, det_a_negative)
    &&& corrected_rotation(c, det_a_negative, rank, det_uv_positive, p.rotation)
}

/// Decide the estimator's branch from the discrete facts about the
/// cross-covariance matrix: whether its determinant is negative, its
/// numerical rank, and whether `det(U) * det(Vt)` is positive.
///
/// Returns no plan exactly when the rank is zero: a covariance without
/// directional information leaves the rotation undetermined.
pub fn plan_rotation(
    c: usize,
    det_a_negative: bool,
    rank: usize,
    det_uv_positive: bool,
) -> (r: Option<EstimatePlan>)
    requires
        1 <= c,
    ensures
        r is Some <==> rank != 0,
        r matches Some(p) ==> plan_matches(
            c as int,
            det_a_negative,
            rank as int,
            det_uv_positive,
            p,
        ),
{
    if rank == 0 {
        return None;
    }
    let scale_signs = reflection_guard(c, det_a_negative);
    let rotation = if rank == c - 1 {
        if det_uv_positive {
            RotationCorrection::Direct
        } else {
            RotationCorrection::Signed(reflection_guard(c, true))
        }
    } else {
        RotationCorrection::Signed(reflection_guard(c, det_a_negative))
    };
    Some(EstimatePlan { rotation, scale_signs })
}

/// In the reflection-ambiguous branch (rank `c - 1`) the product
/// `U * Vt` is kept exactly when its determinant is already positive;
/// otherwise the applied sign vector carries an orientation flip (sign
/// product `Minus`), which negates the determinant of the assembled
/// rotation and so restores a proper one.
pub proof fn lemma_reflection_correction(
    c: int,
    det_a_negative: bool,
    det_uv_positive: bool,
    rot: RotationCorrection,
)
    requires
        1 <= c,
        corrected_rotation(c, det_a_negative, c - 1, det_uv_positive, rot),
    ensures
        rot is Direct <==> det_uv_positive,
        rot matches RotationCorrection::Signed(s) ==> sign_product(s@) == Sign::Minus,
{
    if !det_uv_positive {
        lemma_guard_sign_product(c, true);
    }
}

/// At full rank the guard is applied as it stands: the
/// orientation flip is present exactly when the covariance determinant
/// was negative, so the assembled rotation's determinant comes out
/// positive either way.
pub proof fn lemma_full_rank_correction(
    c: int,
    det_a_negative: bool,
    det_uv_positive: bool,
    rot: RotationCorrection,
)
    requires
        1 <= c,
        corrected_rotation(c, det_a_negative, c, det_uv_positive, rot),
    ensures
        rot is Signed,
        rot matches RotationCorrection::Signed(s) ==> sign_product(s@) == if det_a_negative {
            Sign::Minus
        } else {
            Sign::Plus
        },
{
    lemma_guard_sign_product(c, det_a_negative);
}

/// Assemble the homogeneous `(c+1) x (c+1)` transform from a square
/// `c x c` block (the scaled rotation) and a length-`c` translation:
/// the block fills the top-left corner, the translation fills the last
/// column, and the bottom row is `[zero, ..., zero, one]`.
pub fn assemble_homogeneous<T: Copy>(
    rotation: &Array2<T>,
    translation: &Vec<T>,
    zero: T,
    one: T,
) -> (t: Array2<T>)
    requires
        rotation.wf(),
        rotation.spec_rows() == rotation.spec_cols(),
        translation@.len() == rotation.spec_cols(),
        rotation.spec_cols() + 1 <= usize::MAX,
    ensures
        t.wf(),
        t.spec_rows() == rotation.spec_cols() + 1,
        t.spec_cols() == rotation.spec_cols() + 1,
        forall|i: int, j: int|
            0 <= i < rotation.spec_cols() && 0 <= j < rotation.spec_cols()
                ==> #[trigger] t.entry(i, j) == rotation.entry(i, j),
        forall|i: int|
            0 <= i < rotation.spec_cols()
                ==> #[trigger] t.entry(i, rotation.spec_cols()) == translation@[i],
        forall|j: int|
            0 <= j < rotation.spec_cols()
                ==> #[trigger] t.entry(rotation.spec_cols(), j) == zero,
        t.entry(rotation.spec_cols(), rotation.spec_cols()) == one,
{
    let c = rotation.ncols();
    let cp1 = c + 1;
    let mut data: Vec<T> = Vec::new();
    let mut i: usize = 0;
    while i < c
        invariant
            i <= c,
            c as int == rotation.spec_cols(),
            cp1 == c + 1,
            rotation.wf(),
            rotation.spec_rows() == rotation.spec_cols(),
            translation@.len() == c as int,
            data@.len() == i * (cp1 as int),
            forall|a: int, b: int|
                0 <= a < i && 0 <= b < c
                    ==> data@[a * (cp1 as int) + b] == #[trigger] rotation.entry(a, b),
            forall|a: int|
                0 <= a < i
                    ==> data@[a * (cp1 as int) + (c as int)] == #[trigger] translation@[a],
        decreases c - i,
    {
        let mut j: usize = 0;
        while j < c
            invariant
                j <= c,
                i < c,
                c as int == rotation.spec_cols(),
                cp1 == c + 1,
                rotation.wf(),
                rotation.spec_rows() == rotation.spec_cols(),
                translation@.len() == c as int,
                data@.len() == i * (cp1 as int) + j,
                forall|a: int, b: int|
                    0 <= a < i && 0 <= b < c
                        ==> data@[a * (cp1 as int) + b] == #[trigger] rotation.entry(a, b),
                forall|a: int|
                    0 <= a < i
                        ==> data@[a * (cp1 as int) + (c as int)] == #[trigger] translation@[a],
                forall|b: int|
                    0 <= b < j
                        ==> data@[(i as int) * (cp1 as int) + b] == #[trigger] rotation.entry(
                        i as int,
                        b,
                    ),
            decreases c - j,
        {
            data.push(rotation.get(i, j));
            j += 1;
            proof {
                assert forall|a: int, b: int|
                    0 <= a < i && 0 <= b < c implies data@[a * (cp1 as int) + b]
                    == #[trigger] rotation.entry(a, b) by {
                    lemma_block_index_bound(a, b, i as int, cp1 as int);
                }
                assert forall|a: int| 0 <= a < i implies data@[a * (cp1 as int) + (c as int)]
                    == #[trigger] translation@[a] by {
                    lemma_block_index_bound(a, c as int, i as int, cp1 as int);
                }
            }
        }
        data.push(translation[i]);
        i += 1;
        proof {
            let prev = (i as int) - 1;
            assert forall|a: int, b: int|
                0 <= a < prev && 0 <= b < c implies data@[a * (cp1 as int) + b]
                == #[trigger] rotation.entry(a, b) by {
                lemma_block_index_bound(a, b, prev, cp1 as int);
            }
            assert forall|a: int| 0 <= a < prev implies data@[a * (cp1 as int) + (c as int)]
                == #[trigger] translation@[a] by {
                lemma_block_index_bound(a, c as int, prev, cp1 as int);
            }
            assert(prev * (cp1 as int) + (cp1 as int) == (i as int) * (cp1 as int))
                by (nonlinear_arith)
                requires
                    prev == (i as int) - 1,
            ;
        }
    }
    let mut j: usize = 0;
    while j < c
        invariant
            j <= c,
            c as int == rotation.spec_cols(),
            cp1 == c + 1,
            rotation.wf(),
            rotation.spec_rows() == rotation.spec_cols(),
            translation@.len() == c as int,
            data@.len() == (c as int) * (cp1 as int) + j,
            forall|a: int, b: int|
                0 <= a < c && 0 <= b < c
                    ==> data@[a * (cp1 as int) + b] == #[trigger] rotation.entry(a, b),
            forall|a: int|
                0 <= a < c
                    ==> data@[a * (cp1 as int) + (c as int)] == #[trigger] translation@[a],
            forall|b: int|
                0 <= b < j ==> #[trigger] data@[(c as int) * (cp1 as int) + b] == zero,
        decreases c - j,
    {
        data.push(zero);
        j += 1;
        proof {
            assert forall|a: int, b: int|
                0 <= a < c && 0 <= b < c implies data@[a * (cp1 as int) + b]
                == #[trigger] rotation.entry(a, b) by {
                lemma_block_index_bound(a, b, c as int, cp1 as int);
            }
            assert forall|a: int| 0 <= a < c implies data@[a * (cp1 as int) + (c as int)]
                == #[trigger] translation@[a] by {
                lemma_block_index_bound(a, c as int, c as int, cp1 as int);
            }
        }
    }
    data.push(one);
    proof {
        assert forall|a: int, b: int|
            0 <= a < c && 0 <= b < c implies data@[a * (cp1 as int) + b]
            == #[trigger] rotation.entry(a, b) by {
            lemma_block_index_bound(a, b, c as int, cp1 as int);
        }
        assert forall|a: int| 0 <= a < c implies data@[a * (cp1 as int) + (c as int)]
            == #[trigger] translation@[a] by {
            lemma_block_index_bound(a, c as int, c as int, cp1 as int);
        }
        assert((c as int) * (cp1 as int) + (cp1 as int) == (cp1 as int) * (cp1 as int))
            by (nonlinear_arith)
            requires
                cp1 as int == c as int + 1,
        ;
    }
    let t = Array2::from_parts(data, cp1, cp1);
    t
}

/// An entry of one of the first `rows_done` assembled rows sits
/// strictly below index `rows_done * width`, so later pushes leave it
/// in place.
proof fn lemma_block_index_bound(a: int, b: int, rows_done: int, width: int)
    requires
        0 <= a < rows_done,
        0 <= b < width,
    ensures
        0 <= a * width + b < rows_done * width,
{
    assert(0 <= a * width + b < rows_done * width) by (nonlinear_arith)
        requires
            0 <= a,
            a < rows_done,
            0 <= b,
            b < width,
    ;
}

} // verus!
