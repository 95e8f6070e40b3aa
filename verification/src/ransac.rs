//! Verified bookkeeping for the circle-RANSAC stage.
//!
//! The geometric side of RANSAC (fitting a circle through three sampled
//! points, scoring residuals against the target radius) works on
//! real-valued coordinates and lives in the unverified front end.  What
//! is verified here is everything that must not go wrong around it: the
//! candidate point sets, the pairing of image-plane points with their
//! ground-plane projections, and the inlier partition applied after a
//! candidate is accepted, which keeps masks aligned with the point list
//! and removes exactly the returned inliers from the remaining set.

use vstd::prelude::*;

verus! {

/// The subsequence of `s` at the positions where `mask` equals `keep`,
/// in their original order.
pub open spec fn select<P>(s: Seq<P>, mask: Seq<bool>, keep: bool) -> Seq<P>
    recommends
        s.len() == mask.len(),
    decreases s.len(),
{
    if s.len() == 0 {
        Seq::empty()
    } else if mask.last() == keep {
        select(s.drop_last(), mask.drop_last(), keep).push(s.last())
    } else {
        select(s.drop_last(), mask.drop_last(), keep)
    }
}

/// A mask splits a sequence into the selected and rejected parts and
/// nothing else: their lengths add up to the whole.  This is the
/// bookkeeping law behind the inlier partition: the remaining set shrinks
/// by exactly the number of returned inliers.
pub proof fn lemma_select_partition_len<P>(s: Seq<P>, mask: Seq<bool>)
    requires
        s.len() == mask.len(),
    ensures
        select(s, mask, true).len() + select(s, mask, false).len() == s.len(),
    decreases s.len(),
{
    if s.len() > 0 {
        lemma_select_partition_len(s.drop_last(), mask.drop_last());
    }
}

/// Split one vector by a mask into the kept and dropped parts.
#[verifier::loop_isolation(false)]
fn partition_by_mask<P: Copy>(points: &Vec<P>, mask: &Vec<bool>) -> (parts: (Vec<P>, Vec<P>))
    requires
        points@.len() == mask@.len(),
    ensures
        parts.0@ == select(points@, mask@, true),
        parts.1@ == select(points@, mask@, false),
{
    let n = points.len();
    let mut kept: Vec<P> = Vec::new();
    let mut dropped: Vec<P> = Vec::new();
    let mut i: usize = 0;
    while i < n
        invariant
            i <= n,
            kept@ == select(points@.subrange(0, i as int), mask@.subrange(0, i as int), true),
            dropped@ == select(points@.subrange(0, i as int), mask@.subrange(0, i as int), false),
        decreases n - i,
    {
        let ghost pre_points = points@.subrange(0, i as int);
        let ghost pre_mask = mask@.subrange(0, i as int);
        let ghost cur_points = points@.subrange(0, i + 1);
        let ghost cur_mask = mask@.subrange(0, i + 1);
        proof {
            assert(cur_points.drop_last() =~= pre_points);
            assert(cur_mask.drop_last() =~= pre_mask);
            assert(cur_points.last() == points@[i as int]);
            assert(cur_mask.last() == mask@[i as int]);
        }
        if mask[i] {
            kept.push(points[i]);
        } else {
            dropped.push(points[i]);
        }
        i = i + 1;
    }
    proof {
        assert(points@.subrange(0, n as int) =~= points@);
        assert(mask@.subrange(0, n as int) =~= mask@);
    }
    (kept, dropped)
}

/// Candidate point set of a plain circle RANSAC: the points no accepted
/// candidate has claimed yet.  The fit parameters (target radius, inlier
/// threshold) live with the caller that scores residuals.
pub struct RansacCircle<P> {
    pub unused_points: Vec<P>,
}

impl<P: Copy> RansacCircle<P> {
    pub fn new(unused_points: Vec<P>) -> (r: RansacCircle<P>)
        ensures
            r.unused_points@ == unused_points@,
    {
        RansacCircle { unused_points }
    }

    /// Can a candidate be fitted at all?  Three points determine a
    /// circle; on fewer the search returns nothing and the point set
    /// stays untouched.
    pub fn has_candidate_support(&self) -> (r: bool)
        ensures
            r == (self.unused_points@.len() >= 3),
    {
        self.unused_points.len() >= 3
    }

    /// Claim the inliers of an accepted candidate: the mask is aligned
    /// index by index with the remaining points, the marked points are
    /// returned in order, and exactly the unmarked ones stay behind.
    pub fn apply_inlier_mask(&mut self, is_inlier: &Vec<bool>) -> (used_points: Vec<P>)
        requires
            is_inlier@.len() == old(self).unused_points@.len(),
        ensures
            used_points@ == select(old(self).unused_points@, is_inlier@, true),
            final(self).unused_points@ == select(old(self).unused_points@, is_inlier@, false),
            used_points@.len() + final(self).unused_points@.len() == old(
                self,
            ).unused_points@.len(),
    {
        let (used, remaining) = partition_by_mask(&self.unused_points, is_inlier);
        self.unused_points = remaining;
        proof {
            lemma_select_partition_len(old(self).unused_points@, is_inlier@);
        }
        used
    }
}

/// Candidate point set of the circle RANSAC that searches in a second
/// frame: every remaining image-plane point is paired with its
/// ground-plane projection at the same index.
pub struct RansacCircleWithTransformation<P, Q> {
    pub unused_points_original: Vec<P>,
    pub unused_points_transformed: Vec<Q>,
}

/// The two vectors stay aligned: one projection per remaining point.
pub open spec fn paired<P, Q>(state: &RansacCircleWithTransformation<P, Q>) -> bool {
    state.unused_points_original@.len() == state.unused_points_transformed@.len()
}

impl<P: Copy, Q: Copy> RansacCircleWithTransformation<P, Q> {
    /// Keep the points whose projection into the search frame succeeded,
    /// paired with those projections, in the original order: both sides
    /// are the selection of the same is-Some mask, so each remaining
    /// point sits at the same index as its own projection.  The caller
    /// runs the fallible projection and hands over one `Option` per
    /// point.
    #[verifier::loop_isolation(false)]
    pub fn new(points: Vec<P>, transformed: Vec<Option<Q>>) -> (r: RansacCircleWithTransformation<
        P,
        Q,
    >)
        requires
            points@.len() == transformed@.len(),
        ensures
            paired(&r),
            r.unused_points_original@ == select(
                points@,
                Seq::new(transformed@.len(), |i: int| transformed@[i] is Some),
                true,
            ),
            r.unused_points_transformed@ == select(
                Seq::new(transformed@.len(), |i: int| transformed@[i].unwrap()),
                Seq::new(transformed@.len(), |i: int| transformed@[i] is Some),
                true,
            ),
            r.unused_points_original@.len() <= points@.len(),
    {
        let ghost some_mask = Seq::new(transformed@.len(), |i: int| transformed@[i] is Some);
        let ghost unwrapped = Seq::new(transformed@.len(), |i: int| transformed@[i].unwrap());
        let n = points.len();
        let mut original: Vec<P> = Vec::new();
        let mut projected: Vec<Q> = Vec::new();
        let mut i: usize = 0;
        while i < n
            invariant
                i <= n,
                original@.len() == projected@.len(),
                original@.len() <= i,
                original@ == select(
                    points@.subrange(0, i as int),
                    some_mask.subrange(0, i as int),
                    true,
                ),
                projected@ == select(
                    unwrapped.subrange(0, i as int),
                    some_mask.subrange(0, i as int),
                    true,
                ),
            decreases n - i,
        {
            let ghost pre_points = points@.subrange(0, i as int);
            let ghost pre_mask = some_mask.subrange(0, i as int);
            let ghost pre_unwrapped = unwrapped.subrange(0, i as int);
            let ghost cur_points = points@.subrange(0, i + 1);
            let ghost cur_mask = some_mask.subrange(0, i + 1);
            let ghost cur_unwrapped = unwrapped.subrange(0, i + 1);
            proof {
                assert(cur_points.drop_last() =~= pre_points);
                assert(cur_mask.drop_last() =~= pre_mask);
                assert(cur_unwrapped.drop_last() =~= pre_unwrapped);
                assert(cur_points.last() == points@[i as int]);
                assert(cur_mask.last() == some_mask[i as int]);
                assert(cur_unwrapped.last() == unwrapped[i as int]);
            }
            if let Some(q) = transformed[i] {
                original.push(points[i]);
                projected.push(q);
                proof {
                    assert(unwrapped[i as int] == q);
                }
            }
            i = i + 1;
        }
        proof {
            assert(points@.subrange(0, n as int) =~= points@);
            assert(some_mask.subrange(0, n as int) =~= some_mask);
            assert(unwrapped.subrange(0, n as int) =~= unwrapped);
        }
        RansacCircleWithTransformation {
            unused_points_original: original,
            unused_points_transformed: projected,
        }
    }

    /// Three projected points are needed for a candidate.
    pub fn has_candidate_support(&self) -> (r: bool)
        ensures
            r == (self.unused_points_transformed@.len() >= 3),
    {
        self.unused_points_transformed.len() >= 3
    }

    /// Claim the inliers of an accepted candidate in both frames at
    /// once: the same mask partitions the image-plane points and their
    /// projections, so the returned pairs stay aligned and the remaining
    /// pairs do too.
    pub fn apply_inlier_mask(&mut self, is_inlier: &Vec<bool>) -> (used: (Vec<P>, Vec<Q>))
        requires
            paired(old(self)),
            is_inlier@.len() == old(self).unused_points_original@.len(),
        ensures
            paired(final(self)),
            used.0@ == select(old(self).unused_points_original@, is_inlier@, true),
            used.1@ == select(old(self).unused_points_transformed@, is_inlier@, true),
            final(self).unused_points_original@ == select(
                old(self).unused_points_original@,
                is_inlier@,
                false,
            ),
            final(self).unused_points_transformed@ == select(
                old(self).unused_points_transformed@,
                is_inlier@,
                false,
            ),
            used.0@.len() + final(self).unused_points_original@.len() == old(
                self,
            ).unused_points_original@.len(),
            used.0@.len() == used.1@.len(),
    {
        let (used_original, remaining_original) = partition_by_mask(
            &self.unused_points_original,
            is_inlier,
        );
        let (used_transformed, remaining_transformed) = partition_by_mask(
            &self.unused_points_transformed,
            is_inlier,
        );
        self.unused_points_original = remaining_original;
        self.unused_points_transformed = remaining_transformed;
        proof {
            lemma_select_partition_len(old(self).unused_points_original@, is_inlier@);
            lemma_select_len_agree(
                old(self).unused_points_original@,
                old(self).unused_points_transformed@,
                is_inlier@,
            );
        }
        (used_original, used_transformed)
    }
}

/// Two aligned sequences keep the same selected length under one mask.
proof fn lemma_select_len_agree<P, Q>(a: Seq<P>, b: Seq<Q>, mask: Seq<bool>)
    requires
        a.len() == mask.len(),
        b.len() == mask.len(),
    ensures
        select(a, mask, true).len() == select(b, mask, true).len(),
        select(a, mask, false).len() == select(b, mask, false).len(),
    decreases mask.len(),
{
    if mask.len() > 0 {
        lemma_select_len_agree(a.drop_last(), b.drop_last(), mask.drop_last());
    }
}

} // verus!
