//! Boundary plans: the record of a decision about where a cut falls.
//!
//! A plan is data, not an action. The eviction engine proposes a cut, the coherence
//! layer answers with a plan, and the engine decides whether to accept it. The same
//! record lets a receipt say exactly why a turn was slow.

use crate::llama::SnapReason;
use crate::text::{push_int, signed_digits};
use vstd::prelude::*;
use vstd::string::*;

verus! {

/// The verdict on a compaction's cache behaviour.
#[derive(Debug, Clone, Copy, PartialEq, Eq, Structural)]
pub enum CacheStatus {
    /// Nothing is known about this slot yet.
    Unknown,
    /// The slot holds no usable state; the whole prompt is evaluated.
    Cold,
    /// No checkpoint could be aligned to; the whole prompt is evaluated again.
    FullRePrefill,
    /// The cut was aligned to a checkpoint, so only the suffix is evaluated.
    PartialReuse,
    /// A saved slot was restored before this turn.
    WarmRestored,
}

impl CacheStatus {
    /// The stored name.
    pub open spec fn name(self) -> Seq<char> {
        match self {
            CacheStatus::Unknown => "unknown"@,
            CacheStatus::Cold => "cold"@,
            CacheStatus::FullRePrefill => "full-re-prefill"@,
            CacheStatus::PartialReuse => "partial-reuse"@,
            CacheStatus::WarmRestored => "warm-restored"@,
        }
    }

    /// The phrase shown in a receipt.
    pub open spec fn phrase(self) -> Seq<char> {
        match self {
            CacheStatus::Unknown => "cache state unknown"@,
            CacheStatus::Cold => "cold slot — full prefill expected"@,
            CacheStatus::FullRePrefill => "FULL RE-PREFILL — compaction broke the prefix"@,
            CacheStatus::PartialReuse => "partial reuse — prefix survived compaction"@,
            CacheStatus::WarmRestored => "warm restored from a saved slot"@,
        }
    }

    /// Whether some of the prefix was reused.
    pub open spec fn reuses(self) -> bool {
        self is PartialReuse || self is WarmRestored
    }

    /// The stored name.
    pub fn as_str(self) -> (r: &'static str)
        ensures
            r@ == self.name(),
    {
        match self {
            CacheStatus::Unknown => "unknown",
            CacheStatus::Cold => "cold",
            CacheStatus::FullRePrefill => "full-re-prefill",
            CacheStatus::PartialReuse => "partial-reuse",
            CacheStatus::WarmRestored => "warm-restored",
        }
    }

    /// Whether some of the prefix was reused.
    pub fn is_reuse(self) -> (r: bool)
        ensures
            r == self.reuses(),
    {
        matches!(self, CacheStatus::PartialReuse | CacheStatus::WarmRestored)
    }

    /// The phrase shown in a receipt.
    pub fn headline(self) -> (r: &'static str)
        ensures
            r@ == self.phrase(),
    {
        match self {
            CacheStatus::Unknown => "cache state unknown",
            CacheStatus::Cold => "cold slot — full prefill expected",
            CacheStatus::FullRePrefill => "FULL RE-PREFILL — compaction broke the prefix",
            CacheStatus::PartialReuse => "partial reuse — prefix survived compaction",
            CacheStatus::WarmRestored => "warm restored from a saved slot",
        }
    }
}

/// No two verdicts are stored under the same name.
pub proof fn status_names_are_distinct(a: CacheStatus, b: CacheStatus)
    requires
        a.name() == b.name(),
    ensures
        a == b,
{
    reveal_strlit("unknown");
    reveal_strlit("cold");
    reveal_strlit("full-re-prefill");
    reveal_strlit("partial-reuse");
    reveal_strlit("warm-restored");
    assert("unknown"@.len() == 7 && "cold"@.len() == 4 && "full-re-prefill"@.len() == 15);
    assert("partial-reuse"@.len() == 13 && "warm-restored"@.len() == 13);
    assert("partial-reuse"@[0] == 'p' && "warm-restored"@[0] == 'w');
}

/// What the caller should do next.
#[derive(Debug, Clone, Copy, PartialEq, Eq, Structural)]
pub enum CoherenceAction {
    /// Evict at the aligned position.
    EvictAtAlignedBoundary,
    /// Save the slot's state, then evict.
    SnapshotThenEvict,
    /// Evict at the requested position and accept the cost.
    EvictAndAcceptReprefill,
    /// Do not evict: nothing would be gained.
    Skip,
}

/// The decision about one cut.
#[derive(Debug, Clone, PartialEq, Eq)]
pub struct BoundaryPlan {
    /// Where the cut was asked for, in tokens of the live window.
    pub requested_cut: i64,
    /// Where the cut will fall, when it could be aligned.
    pub aligned_cut: Option<i64>,
    /// The closest checkpoint that was looked at, usable or not.
    pub nearest_cut: Option<i64>,
    pub status: CacheStatus,
    pub action: CoherenceAction,
    /// Why the cut moved, or did not.
    pub reason: String,
    /// The move in structured form, when there was one.
    pub snap: Option<SnapReason>,
    /// How many checkpoints were considered.
    pub candidates_considered: usize,
    /// Whether the model's checkpoints carry only part of its state.
    pub partial_state_only: bool,
    /// The tolerance in force.
    pub tolerance_tokens: i64,
    /// Whether the server could rewind to a preserved prefix at all.
    pub pairs_with_cache: bool,
}

/// Whether `a - b` can be computed.
pub open spec fn difference_fits(a: i64, b: i64) -> bool {
    i64::MIN <= a - b <= i64::MAX
}

impl BoundaryPlan {
    /// Whether the parts of the plan agree: reuse is claimed exactly where the cut was
    /// aligned, and an aligned cut never lies after the requested one.
    pub open spec fn coherent(self) -> bool {
        &&& self.status.reuses() <==> self.aligned_cut is Some
        &&& self.pairs_with_cache <==> self.aligned_cut is Some
        &&& self.aligned_cut is Some <==> self.action is EvictAtAlignedBoundary
        &&& self.aligned_cut matches Some(a) ==> {
            &&& a <= self.requested_cut
            &&& self.snap matches Some(s) && s.moved() == self.requested_cut - a
        }
    }

    /// The reason given for an aligned cut.
    pub open spec fn aligned_text(snap: SnapReason) -> Seq<char> {
        snap.description()
            + " — the surviving prefix stays LCP-matchable, so the next turn prefills only the suffix"@
    }

    /// A plan that aligns the cut onto a checkpoint.
    pub fn aligned(
        requested_cut: i64,
        aligned_cut: i64,
        snap: SnapReason,
        candidates_considered: usize,
        partial_state_only: bool,
    ) -> (p: Self)
        ensures
            p.requested_cut == requested_cut,
            p.aligned_cut == Some(aligned_cut),
            p.nearest_cut == Some(aligned_cut),
            p.status == CacheStatus::PartialReuse,
            p.action == CoherenceAction::EvictAtAlignedBoundary,
            p.reason@ == Self::aligned_text(snap),
            p.snap == Some(snap),
            p.candidates_considered == candidates_considered,
            p.partial_state_only == partial_state_only,
            p.tolerance_tokens == 0,
            p.pairs_with_cache,
    {
        let mut reason = snap.describe();
        reason.append(
            " — the surviving prefix stays LCP-matchable, so the next turn prefills only the suffix",
        );
        BoundaryPlan {
            requested_cut,
            aligned_cut: Some(aligned_cut),
            nearest_cut: Some(aligned_cut),
            status: CacheStatus::PartialReuse,
            action: CoherenceAction::EvictAtAlignedBoundary,
            reason,
            snap: Some(snap),
            candidates_considered,
            partial_state_only,
            tolerance_tokens: 0,
            pairs_with_cache: true,
        }
    }

    /// The reason given for a cut that could not be aligned.
    pub open spec fn unaligned_text(
        requested_cut: i64,
        nearest: Option<i64>,
        tolerance: i64,
        why: Seq<char>,
    ) -> Seq<char> {
        match nearest {
            Some(n) => if requested_cut - n > 0 {
                "nearest checkpoint is "@ + signed_digits(requested_cut - n)
                    + " tokens before the requested cut (at "@ + signed_digits(n as int)
                    + "), outside the "@ + signed_digits(tolerance as int)
                    + "-token tolerance; the pre-rewrite state will be saved so the prefill is never paid twice"@
            } else {
                "the checkpoint ring is ahead of the requested cut (at "@ + signed_digits(n as int)
                    + "); "@ + why
            },
            None => why + "; the pre-rewrite state will be saved before the rewrite"@,
        }
    }

    /// A plan that must rewrite, with the nearest checkpoint recorded.
    pub fn unaligned(requested_cut: i64, nearest: Option<i64>, tolerance: i64) -> (p: Self)
        requires
            nearest matches Some(n) ==> difference_fits(requested_cut, n),
        ensures
            p.requested_cut == requested_cut,
            p.aligned_cut is None,
            p.nearest_cut == nearest,
            p.status == CacheStatus::FullRePrefill,
            p.action == CoherenceAction::SnapshotThenEvict,
            p.reason@ == Self::unaligned_text(
                requested_cut,
                nearest,
                tolerance,
                "no checkpoint is close enough to the requested boundary"@,
            ),
            p.snap is None,
            p.candidates_considered == 0,
            !p.partial_state_only,
            p.tolerance_tokens == tolerance,
            !p.pairs_with_cache,
    {
        Self::unaligned_reason(
            requested_cut,
            nearest,
            tolerance,
            "no checkpoint is close enough to the requested boundary",
        )
    }

    /// As [`BoundaryPlan::unaligned`], with the caller's explanation.
    pub fn unaligned_reason(
        requested_cut: i64,
        nearest: Option<i64>,
        tolerance: i64,
        why: &str,
    ) -> (p: Self)
        requires
            nearest matches Some(n) ==> difference_fits(requested_cut, n),
        ensures
            p.requested_cut == requested_cut,
            p.aligned_cut is None,
            p.nearest_cut == nearest,
            p.status == CacheStatus::FullRePrefill,
            p.action == CoherenceAction::SnapshotThenEvict,
            p.reason@ == Self::unaligned_text(requested_cut, nearest, tolerance, why@),
            p.snap is None,
            p.candidates_considered == 0,
            !p.partial_state_only,
            p.tolerance_tokens == tolerance,
            !p.pairs_with_cache,
    {
        let reason = match nearest {
            Some(n) => {
                let gap: i64 = requested_cut - n;
                if gap > 0 {
                    let mut s = String::from_str("nearest checkpoint is ");
                    push_int(&mut s, gap);
                    s.append(" tokens before the requested cut (at ");
                    push_int(&mut s, n);
                    s.append("), outside the ");
                    push_int(&mut s, tolerance);
                    s.append(
                        "-token tolerance; the pre-rewrite state will be saved so the prefill is never paid twice",
                    );
                    s
                } else {
                    let mut s = String::from_str(
                        "the checkpoint ring is ahead of the requested cut (at ",
                    );
                    push_int(&mut s, n);
                    s.append("); ");
                    s.append(why);
                    s
                }
            },
            None => {
                let mut s = String::from_str(why);
                s.append("; the pre-rewrite state will be saved before the rewrite");
                s
            },
        };
        BoundaryPlan {
            requested_cut,
            aligned_cut: None,
            nearest_cut: nearest,
            status: CacheStatus::FullRePrefill,
            action: CoherenceAction::SnapshotThenEvict,
            reason,
            snap: None,
            candidates_considered: 0,
            partial_state_only: false,
            tolerance_tokens: tolerance,
            pairs_with_cache: false,
        }
    }

    /// A plan for a cut that the retained ring has already moved past.
    ///
    /// The server still matches its longest common prefix, but the tokens beyond the cut
    /// are wasted and no evaluation is saved, so no reuse is claimed.
    pub fn past_the_ring(
        requested_cut: i64,
        next_checkpoint: i64,
        candidates_considered: usize,
        partial_state_only: bool,
    ) -> (p: Self)
        ensures
            p.requested_cut == requested_cut,
            p.aligned_cut is None,
            p.nearest_cut == Some(next_checkpoint),
            p.status == CacheStatus::FullRePrefill,
            p.action == CoherenceAction::SnapshotThenEvict,
            p.reason@ == "the retained checkpoint ring starts at "@ + signed_digits(
                next_checkpoint as int,
            ) + ", past the requested boundary of "@ + signed_digits(requested_cut as int)
                + "; nothing cached is reusable at this boundary. Aligning the boundary forward onto "@
                + signed_digits(next_checkpoint as int)
                + " would reuse it, at the cost of keeping more context live."@,
            p.snap is None,
            p.candidates_considered == candidates_considered,
            p.partial_state_only == partial_state_only,
            p.tolerance_tokens == 0,
            !p.pairs_with_cache,
    {
        let mut reason = String::from_str("the retained checkpoint ring starts at ");
        push_int(&mut reason, next_checkpoint);
        reason.append(", past the requested boundary of ");
        push_int(&mut reason, requested_cut);
        reason.append(
            "; nothing cached is reusable at this boundary. Aligning the boundary forward onto ",
        );
        push_int(&mut reason, next_checkpoint);
        reason.append(" would reuse it, at the cost of keeping more context live.");
        BoundaryPlan {
            requested_cut,
            aligned_cut: None,
            nearest_cut: Some(next_checkpoint),
            status: CacheStatus::FullRePrefill,
            action: CoherenceAction::SnapshotThenEvict,
            reason,
            snap: None,
            candidates_considered,
            partial_state_only,
            tolerance_tokens: 0,
            pairs_with_cache: false,
        }
    }

    /// How far the retained cache starts after this cut, when it does.
    pub fn ring_lead(&self) -> (r: Option<i64>)
        requires
            self.nearest_cut matches Some(n) ==> difference_fits(n, self.requested_cut),
        ensures
            r == (match (self.aligned_cut, self.nearest_cut) {
                (None, Some(n)) => if n > self.requested_cut {
                    Some((n - self.requested_cut) as i64)
                } else {
                    None
                },
                _ => None,
            }),
    {
        match (self.aligned_cut, self.nearest_cut) {
            (None, Some(n)) => {
                if n > self.requested_cut {
                    Some(n - self.requested_cut)
                } else {
                    None
                }
            },
            _ => None,
        }
    }

    /// A plan for a server that cannot take part at all.
    pub fn full_rewrite(requested_cut: i64, reason: &str) -> (p: Self)
        ensures
            p.requested_cut == requested_cut,
            p.aligned_cut is None,
            p.nearest_cut is None,
            p.status == CacheStatus::FullRePrefill,
            p.action == CoherenceAction::EvictAndAcceptReprefill,
            p.reason@ == reason@,
            p.snap is None,
            p.candidates_considered == 0,
            !p.partial_state_only,
            p.tolerance_tokens == 0,
            !p.pairs_with_cache,
    {
        BoundaryPlan {
            requested_cut,
            aligned_cut: None,
            nearest_cut: None,
            status: CacheStatus::FullRePrefill,
            action: CoherenceAction::EvictAndAcceptReprefill,
            reason: reason.to_owned(),
            snap: None,
            candidates_considered: 0,
            partial_state_only: false,
            tolerance_tokens: 0,
            pairs_with_cache: false,
        }
    }

    /// How far the cut moved; zero when it was not aligned.
    pub open spec fn moved(self) -> int {
        match self.aligned_cut {
            Some(a) => self.requested_cut - a,
            None => 0,
        }
    }

    /// How far the cut moved; zero when it was not aligned.
    pub fn delta(&self) -> (r: i64)
        requires
            self.aligned_cut matches Some(a) ==> difference_fits(self.requested_cut, a),
        ensures
            r == self.moved(),
    {
        match self.aligned_cut {
            Some(aligned) => self.requested_cut - aligned,
            None => 0,
        }
    }

    /// The plan, with what is known of the model: whether its checkpoints carry only part of
    /// its state.
    pub(crate) fn for_model(self, partial_state_only: bool) -> (p: Self)
        ensures
            p == (BoundaryPlan { partial_state_only, ..self }),
    {
        BoundaryPlan { partial_state_only, ..self }
    }

    /// Whether the plan reuses some of the prefix.
    pub fn is_reuse(&self) -> (r: bool)
        ensures
            r == self.status.reuses(),
    {
        self.status.is_reuse()
    }

    /// Whether a save should be taken before the plan is applied.
    pub fn wants_snapshot(&self) -> (r: bool)
        ensures
            r == (self.action is SnapshotThenEvict),
    {
        matches!(self.action, CoherenceAction::SnapshotThenEvict)
    }

    /// The one-line rendering.
    pub open spec fn summary_text(self) -> Seq<char> {
        match self.aligned_cut {
            Some(a) => self.status.phrase() + " (cut "@ + signed_digits(self.requested_cut as int)
                + " → "@ + signed_digits(a as int) + ", Δ"@ + signed_digits(self.moved()) + "): "@
                + self.reason@,
            None => self.status.phrase() + " (cut "@ + signed_digits(self.requested_cut as int)
                + "): "@ + self.reason@,
        }
    }

    /// The one-line rendering for a receipt.
    pub fn summary(&self) -> (r: String)
        requires
            self.aligned_cut matches Some(a) ==> difference_fits(self.requested_cut, a),
        ensures
            r@ == self.summary_text(),
    {
        let mut out = String::from_str(self.status.headline());
        out.append(" (cut ");
        push_int(&mut out, self.requested_cut);
        match self.aligned_cut {
            Some(aligned) => {
                out.append(" → ");
                push_int(&mut out, aligned);
                out.append(", Δ");
                push_int(&mut out, self.delta());
            },
            None => {},
        }
        out.append("): ");
        out.append(self.reason.as_str());
        out
    }
}

/// A plan that moves the cut onto a checkpoint reuses the prefix; every other plan evaluates
/// the prompt again and moves nothing.
pub proof fn only_an_aligned_cut_reuses(
    requested: i64,
    at: i64,
    snap: SnapReason,
    seen: usize,
    partial: bool,
    nearest: Option<i64>,
    tolerance: i64,
    why: &str,
    aligned: BoundaryPlan,
    unaligned: BoundaryPlan,
    past: BoundaryPlan,
    rewrite: BoundaryPlan,
)
    requires
        call_ensures(BoundaryPlan::aligned, (requested, at, snap, seen, partial), aligned),
        call_ensures(
            BoundaryPlan::unaligned_reason,
            (requested, nearest, tolerance, why),
            unaligned,
        ),
        call_ensures(BoundaryPlan::past_the_ring, (requested, at, seen, partial), past),
        call_ensures(BoundaryPlan::full_rewrite, (requested, why), rewrite),
    ensures
        aligned.aligned_cut == Some(at) && aligned.status is PartialReuse,
        aligned.action is EvictAtAlignedBoundary && aligned.pairs_with_cache,
        unaligned.aligned_cut is None && unaligned.status is FullRePrefill,
        unaligned.action is SnapshotThenEvict && unaligned.nearest_cut == nearest,
        past.aligned_cut is None && past.status is FullRePrefill && past.nearest_cut == Some(at),
        past.action is SnapshotThenEvict && !past.pairs_with_cache,
        rewrite.aligned_cut is None && rewrite.status is FullRePrefill,
        rewrite.action is EvictAndAcceptReprefill && rewrite.nearest_cut is None,
{
}

/// The ring leads a cut by as many tokens as its nearest checkpoint lies after it, where the
/// cut was not moved.
pub proof fn the_lead_is_the_distance(plan: &BoundaryPlan, r: Option<i64>)
    requires
        call_ensures(BoundaryPlan::ring_lead, (plan,), r),
        plan.nearest_cut matches Some(n) ==> difference_fits(n, plan.requested_cut),
    ensures
        r matches Some(lead) ==> lead > 0 && plan.aligned_cut is None && plan.nearest_cut == Some(
            (plan.requested_cut + lead) as i64,
        ),
        r is None ==> plan.aligned_cut is Some || (plan.nearest_cut matches Some(n) ==> n
            <= plan.requested_cut),
{
}

} // verus!
