//! Reconstruction of the aggregate from masked shares and mask sums.
//!
//! Each client submits `s_i = g_i - sum_j r_{i->j}` and each receiver reports
//! `t_j = sum_i r_{i->j}`; summing both families cancels every mask and leaves
//! the sum of the fixed-point values `g_i`.
use vstd::prelude::*;

verus! {

/// Fixed-point scale of the integer encoding: a value `x` travels as `round(x * SCALE)`.
pub const SMPC_SCALE: i64 = 1_000_000;

/// Sum of coordinate `i` over the vectors of `vs` whose length is `len`.
pub open spec fn column_sum(vs: Seq<Seq<i64>>, len: nat, i: int) -> int
    decreases vs.len(),
{
    if vs.len() == 0 {
        0
    } else {
        column_sum(vs.drop_last(), len, i) + if vs.last().len() == len {
            vs.last()[i] as int
        } else {
            0
        }
    }
}

/// Number of vectors of `vs` whose length is `len`.
pub open spec fn matching_count(vs: Seq<Seq<i64>>, len: nat) -> nat
    decreases vs.len(),
{
    if vs.len() == 0 {
        0
    } else {
        matching_count(vs.drop_last(), len) + if vs.last().len() == len {
            1nat
        } else {
            0nat
        }
    }
}

/// Views of a list of vectors.
pub open spec fn vectors_view(vs: Seq<Vec<i64>>) -> Seq<Seq<i64>> {
    vs.map_values(|v: Vec<i64>| v@)
}

/// The reconstructed (still scaled, not yet averaged) aggregate.
pub struct SmpcTotals {
    /// Per coordinate, the exact sum of all masked shares and all mask sums.
    pub totals: Vec<i128>,
    /// How many masked shares contributed.
    pub share_count: usize,
}

/// What the reconstruction yields: nothing when either family is empty,
/// otherwise the exact column sums over the vectors whose length is that of
/// the first masked share.
pub open spec fn reconstruction(shares: Seq<Seq<i64>>, sums: Seq<Seq<i64>>) -> Option<(Seq<int>, nat)> {
    if shares.len() == 0 || sums.len() == 0 {
        None
    } else {
        let len = shares[0].len();
        Some((
            Seq::new(len, |i: int| column_sum(shares, len, i) + column_sum(sums, len, i)),
            matching_count(shares, len),
        ))
    }
}

/// 2^63, the magnitude bound of an `i64`.
pub open spec fn i64_span() -> int {
    0x8000_0000_0000_0000
}

/// A column sum over `n` vectors of `i64` lies within `n * 2^63` of zero:
/// for any number of vectors that a machine word can count, masked shares and
/// mask sums together stay within 128 bits, so the widened sum is exact.
pub proof fn lemma_column_sum_bound(vs: Seq<Seq<i64>>, len: nat, i: int)
    requires
        0 <= i < len,
    ensures
        -(vs.len() * i64_span()) <= column_sum(vs, len, i) <= vs.len() * i64_span(),
    decreases vs.len(),
{
    if vs.len() > 0 {
        lemma_column_sum_bound(vs.drop_last(), len, i);
        assert((vs.len() - 1) * i64_span() + i64_span() == vs.len() * i64_span())
            by (nonlinear_arith);
    }
}

proof fn lemma_matching_count_bound(vs: Seq<Seq<i64>>, len: nat)
    ensures
        matching_count(vs, len) <= vs.len(),
    decreases vs.len(),
{
    if vs.len() > 0 {
        lemma_matching_count_bound(vs.drop_last(), len);
    }
}

/// Adds every vector of `vs` whose length is `len` into `totals`, coordinate-wise,
/// and returns how many were added.
fn accumulate(totals: &mut Vec<i128>, vs: &[Vec<i64>], len: usize, prior: Ghost<nat>) -> (added: usize)
    requires
        old(totals)@.len() == len,
        prior@ + vs@.len() <= usize::MAX,
        forall|i: int|
            0 <= i < len ==> -(prior@ * i64_span()) <= #[trigger] old(totals)@[i] <= prior@ * i64_span(),
    ensures
        final(totals)@.len() == len,
        forall|i: int|
            0 <= i < len ==> #[trigger] final(totals)@[i] == old(totals)@[i] + column_sum(vectors_view(vs@), len as nat, i),
        added == matching_count(vectors_view(vs@), len as nat),
{
    let ghost start = totals@;
    let ghost w = vectors_view(vs@);
    let mut added: usize = 0;
    let mut k: usize = 0;
    while k < vs.len()
        invariant
            0 <= k <= vs@.len(),
            totals@.len() == len,
            prior@ + vs@.len() <= usize::MAX,
            w == vectors_view(vs@),
            forall|i: int|
                0 <= i < len ==> -(prior@ * i64_span()) <= #[trigger] start[i] <= prior@ * i64_span(),
            forall|i: int|
                0 <= i < len ==> #[trigger] totals@[i] == start[i] + column_sum(w.take(k as int), len as nat, i),
            added == matching_count(w.take(k as int), len as nat),
        decreases vs@.len() - k,
    {
        let v = &vs[k];
        proof {
            assert(w.take(k + 1).drop_last() =~= w.take(k as int));
            assert(w.take(k + 1).last() == v@);
            lemma_matching_count_bound(w.take(k as int), len as nat);
        }
        if v.len() == len {
            let mut i: usize = 0;
            while i < len
                invariant
                    0 <= i <= len,
                    k < vs@.len(),
                    v == vs@[k as int],
                    v@.len() == len,
                    w.take(k + 1).drop_last() == w.take(k as int),
                    w.take(k + 1).last() == v@,
                    w == vectors_view(vs@),
                    totals@.len() == len,
                    prior@ + vs@.len() <= usize::MAX,
                    forall|j: int|
                        0 <= j < len ==> -(prior@ * i64_span()) <= #[trigger] start[j] <= prior@ * i64_span(),
                    forall|j: int|
                        0 <= j < i ==> #[trigger] totals@[j] == start[j] + column_sum(w.take(k + 1), len as nat, j),
                    forall|j: int|
                        i <= j < len ==> #[trigger] totals@[j] == start[j] + column_sum(w.take(k as int), len as nat, j),
                decreases len - i,
            {
                proof {
                    let ii = i as int;
                    lemma_column_sum_bound(w.take(k as int), len as nat, ii);
                    let p = prior@;
                    let kk = k as int;
                    assert(p * i64_span() + kk * i64_span() + i64_span() <= usize::MAX * i64_span())
                        by (nonlinear_arith)
                        requires
                            p + kk + 1 <= usize::MAX,
                            i64_span() > 0,
                    ;
                }
                totals.set(i, totals[i] + v[i] as i128);
                i = i + 1;
            }
            added = added + 1;
        } else {
            proof {
                assert(w.take(k + 1).last() == v@);
            }
        }
        k = k + 1;
    }
    assert(w.take(vs@.len() as int) =~= w);
    added
}

/// Reconstructs the aggregate from the masked shares and the mask sums.
///
/// Returns `None` when either family is empty. Otherwise the vector length is
/// that of the first masked share; vectors of another length are left out;
/// each coordinate of the result is the exact integer sum over both families,
/// computed in 128 bits so that no `i64` inputs can overflow it.
pub fn reconstruct_totals(shares: &[Vec<i64>], sums: &[Vec<i64>]) -> (r: Option<SmpcTotals>)
    requires
        shares@.len() + sums@.len() <= usize::MAX,
    ensures
        match (r, reconstruction(vectors_view(shares@), vectors_view(sums@))) {
            (None, None) => true,
            (Some(t), Some((totals, count))) => t.totals@.len() == totals.len()
                && (forall|i: int| 0 <= i < totals.len() ==> t.totals@[i] == totals[i])
                && t.share_count == count,
            _ => false,
        },
{
    if shares.len() == 0 || sums.len() == 0 {
        return None;
    }
    let len = shares[0].len();
    let mut totals: Vec<i128> = vec![0i128; len];
    let share_count = accumulate(&mut totals, shares, len, Ghost(0nat));
    proof {
        assert forall|i: int| 0 <= i < len implies
            -(shares@.len() * i64_span()) <= #[trigger] totals@[i] <= shares@.len() * i64_span() by {
            lemma_column_sum_bound(vectors_view(shares@), len as nat, i);
        }
    }
    accumulate(&mut totals, sums, len, Ghost(shares@.len()));
    Some(SmpcTotals { totals, share_count })
}

/// With no masked share there is nothing to reconstruct, whatever mask sums exist.
pub proof fn lemma_no_shares_no_reconstruction(sums: Seq<Seq<i64>>)
    ensures
        reconstruction(Seq::empty(), sums) is None,
{
}

} // verus!
