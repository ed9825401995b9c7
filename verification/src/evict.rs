//! Eviction: what leaves the live window, in what order, and where the cut falls.
//!
//! The oldest part of a session stays, because it is the prefix that a server may have
//! cached; the newest part stays, because recency is the best sign of relevance there is
//! without a model; pressure is absorbed by escalating the middle, one tier at a time. Where
//! the prefix ends is asked of the cache before anything is chosen, not after.
//!
//! Ratios and scores are worked out by the caller, who hands in whole numbers: the window's
//! thresholds in [`WindowBudget`], and an order-preserving integer for each score.

pub mod folds;
pub mod worth;

use crate::cache::plan::{difference_fits, BoundaryPlan, CacheStatus, CoherenceAction};
use crate::error::Error;
use crate::llama::{listed, snap, snap_to_checkpoint, CheckpointRef, SnapReason};
use crate::memory::anchor::AnchorRow;
use crate::memory::episodic::{EpisodeRow, EpisodeTier};
use crate::order::{
    every_position_occurs, sorting_rearranges, stable_sort, stably_sorted, Ranked,
};
use crate::prompt::{PromptParts, RenderedPart};
use crate::text::{digits, join, joined, push_int, push_nat, same, signed_digits, texts};
use crate::tokens::TokenCounter;
use vstd::prelude::*;
use vstd::string::*;

verus! {

/// The policy, in whole tokens.
#[derive(Debug, Clone, Copy, PartialEq, Eq, Structural)]
pub struct EvictionPolicy {
    /// Tokens of the oldest context to keep for what they say.
    pub keep_prefix_tokens: usize,
    /// Tokens of the oldest context to keep so that a cached prefix survives.
    pub cache_prefix_reserve_tokens: usize,
    /// Tokens of the newest context to keep.
    pub keep_recent_tokens: usize,
    /// The most that a preserved prefix may take.
    pub cache_prefix_max_tokens: usize,
    /// Whether anything may be dropped at all.
    pub allow_drop: bool,
    /// The most tiers that an episode may fall in one plan; no plan takes more than one.
    pub max_tier_step: u8,
    /// Whether to ask the cache where the cut should fall.
    pub cache_align: bool,
}

impl Default for EvictionPolicy {
    fn default() -> (r: Self)
        ensures
            r.keep_prefix_tokens == 0,
            r.cache_prefix_reserve_tokens == 4096,
            r.keep_recent_tokens == 4096,
            r.cache_prefix_max_tokens == 8192,
            !r.allow_drop,
            r.max_tier_step == 1,
            r.cache_align,
    {
        EvictionPolicy {
            keep_prefix_tokens: 0,
            cache_prefix_reserve_tokens: 4096,
            keep_recent_tokens: 4096,
            cache_prefix_max_tokens: 8192,
            allow_drop: false,
            max_tier_step: 1,
            cache_align: true,
        }
    }
}

/// A window and the thresholds worked out for it.
#[derive(Debug, Clone, Copy, PartialEq, Eq, Structural)]
pub struct WindowBudget {
    /// The context window.
    pub context_window: usize,
    /// Where planning starts.
    pub threshold: usize,
    /// Where a plan wants to land.
    pub target: usize,
    /// The share of the live timeline that a preserved prefix may take.
    pub prefix_share: usize,
}

/// How much pressure there is.
#[derive(Debug, Clone, Copy, PartialEq, Eq, Structural)]
pub enum Pressure {
    /// Comfortably inside the window.
    Relaxed,
    /// Past the threshold.
    Compacting,
    /// What cannot be evicted fills the window by itself.
    AnchorOverflow,
}

/// How much an episode is worth keeping, as worked out by the caller.
#[derive(Debug, Clone)]
pub struct Score {
    /// Orders as the score does: the higher, the more worth keeping.
    pub value_key: i64,
    /// The score as shown to a person.
    pub value_text: String,
    /// How many nodes depend on the episode.
    pub dependents: usize,
    /// Whether the graph around the episode shows anything that depends on it.
    pub has_dependents: bool,
    /// Why the score is what it is.
    pub notes: Vec<String>,
}

/// An episode that may be evicted, by its place among the episodes.
#[derive(Debug, Clone, Copy, PartialEq, Eq, Structural)]
pub struct Candidate {
    pub index: usize,
    pub seq: i64,
    pub value_key: i64,
}

impl Ranked for Candidate {
    /// The least valuable first, the older first among equals.
    open spec fn precedes(&self, other: &Self) -> bool {
        self.value_key < other.value_key || (self.value_key == other.value_key && self.seq
            < other.seq)
    }

    fn before(&self, other: &Self) -> (r: bool) {
        self.value_key < other.value_key || (self.value_key == other.value_key && self.seq
            < other.seq)
    }

    proof fn ordering(a: Self, b: Self, c: Self) {
    }
}

/// One planned change of tier.
#[derive(Debug, Clone)]
pub struct TierUpdate {
    pub episode_id: String,
    pub from: EpisodeTier,
    pub to: EpisodeTier,
    pub tokens_before: usize,
    pub tokens_after: usize,
    pub reason: String,
}

/// A change of tier as a plain value.
pub struct Change {
    pub episode_id: Seq<char>,
    pub from: EpisodeTier,
    pub to: EpisodeTier,
    pub before: nat,
    pub after: nat,
    pub reason: Seq<char>,
}

impl TierUpdate {
    /// The change as a plain value.
    pub open spec fn change(self) -> Change {
        Change {
            episode_id: self.episode_id@,
            from: self.from,
            to: self.to,
            before: self.tokens_before as nat,
            after: self.tokens_after as nat,
            reason: self.reason@,
        }
    }
}

/// The changes of a list of updates.
pub open spec fn changes(updates: Seq<TierUpdate>) -> Seq<Change> {
    Seq::new(updates.len(), |i: int| updates[i].change())
}

/// A plan.
#[derive(Debug, Clone)]
pub struct EvictionPlan {
    pub session_id: String,
    pub slot_id: String,
    pub pressure: Pressure,
    /// The context window.
    pub budget: usize,
    pub threshold: usize,
    pub target: usize,
    pub live_tokens: usize,
    /// Tokens of the pinned anchors.
    pub anchor_tokens: usize,
    /// Tokens of the other parts that cannot be evicted.
    pub fixed_tokens: usize,
    pub updates: Vec<TierUpdate>,
    pub planned_savings: usize,
    /// Tokens of the timeline that survive from its start.
    pub retained_prefix_tokens: usize,
    /// What the cache layer said about the cut.
    pub coherence: Option<BoundaryPlan>,
    /// Explanations, one line each.
    pub notes: Vec<String>,
}

impl EvictionPlan {
    /// The live tokens once the plan is applied.
    pub open spec fn remaining(self) -> int {
        if self.planned_savings < self.live_tokens {
            self.live_tokens - self.planned_savings
        } else {
            0
        }
    }

    /// Whether the sizes in the plan can be added up.
    pub open spec fn countable(self) -> bool {
        self.live_tokens + self.anchor_tokens + self.fixed_tokens <= usize::MAX
    }

    pub fn is_empty(&self) -> (r: bool)
        ensures
            r == (self.updates@.len() == 0),
    {
        self.updates.len() == 0
    }

    /// The live tokens once the plan is applied.
    pub fn token_after_plan(&self) -> (r: usize)
        ensures
            r == self.remaining(),
    {
        self.live_tokens.saturating_sub(self.planned_savings)
    }

    /// Whether the plan lands within its target.
    pub fn reaches_target(&self) -> (r: bool)
        requires
            self.countable(),
        ensures
            r == (self.remaining() + self.anchor_tokens + self.fixed_tokens <= self.target),
    {
        self.token_after_plan() + self.anchor_tokens + self.fixed_tokens <= self.target
    }

    /// Whether the plan keeps a cached prefix.
    pub fn is_cache_cheap(&self) -> (r: bool)
        ensures
            r == (self.coherence matches Some(c) && c.status.reuses()),
    {
        match &self.coherence {
            Some(c) => c.is_reuse(),
            None => false,
        }
    }

    /// The one-line rendering.
    pub open spec fn summary_text(self) -> Seq<char> {
        digits(self.updates@.len()) + " episode(s), "@ + digits(self.planned_savings as nat)
            + " tokens reclaimed ("@ + digits(
            (self.live_tokens + self.anchor_tokens + self.fixed_tokens) as nat,
        ) + " → "@ + digits((self.remaining() + self.anchor_tokens + self.fixed_tokens) as nat)
            + " of "@ + digits(self.target as nat) + " target). "@ + (match self.coherence {
            Some(c) => c.status.phrase() + " — "@ + c.reason@,
            None => "cache alignment not evaluated"@,
        })
    }

    /// The one-line rendering.
    pub fn summary(&self) -> (r: String)
        requires
            self.countable(),
        ensures
            r@ == self.summary_text(),
    {
        let mut out = String::new();
        push_nat(&mut out, self.updates.len() as u64);
        assert(out@ =~= digits(self.updates@.len()));
        out.append(" episode(s), ");
        push_nat(&mut out, self.planned_savings as u64);
        out.append(" tokens reclaimed (");
        push_nat(&mut out, (self.live_tokens + self.anchor_tokens + self.fixed_tokens) as u64);
        out.append(" → ");
        push_nat(
            &mut out,
            (self.token_after_plan() + self.anchor_tokens + self.fixed_tokens) as u64,
        );
        out.append(" of ");
        push_nat(&mut out, self.target as u64);
        out.append(" target). ");
        let cache = match &self.coherence {
            Some(c) => {
                let mut s = String::from_str(c.status.headline());
                s.append(" — ");
                s.append(c.reason.as_str());
                s
            },
            None => "cache alignment not evaluated".to_owned(),
        };
        out.append(cache.as_str());
        out
    }
}

/// What came of applying a plan.
#[derive(Debug, Clone)]
pub struct EvictionOutcome {
    pub applied: usize,
    pub tokens_reclaimed: usize,
    pub snapshot_taken: bool,
    pub cache_status: CacheStatus,
    pub detail: String,
}

/// What came of opening a fold.
#[derive(Debug, Clone)]
pub struct FoldOutcome {
    pub fold_id: String,
    pub checkpoint: Option<String>,
    pub token_position: i64,
    pub tokens_at_open: usize,
    pub cache_note: String,
}

/// What came of closing a fold.
#[derive(Debug, Clone)]
pub struct UnfoldOutcome {
    pub fold_id: String,
    pub tokens_reclaimed: usize,
    pub episodes_folded: usize,
    pub rollback_performed: bool,
    pub rollback_detail: String,
    pub trace_retrievable: bool,
}

/// One episode of a fold's trace.
#[derive(Debug, Clone)]
pub struct FoldTraceEntry {
    pub episode_id: String,
    pub seq: i64,
    pub role: String,
    pub tool_name: Option<String>,
    pub token_count: usize,
    pub content: String,
}

/// Everything that happened inside a fold.
#[derive(Debug, Clone)]
pub struct FoldTrace {
    pub fold_id: String,
    pub description: String,
    pub goal: String,
    pub status: String,
    pub result_summary: Option<String>,
    pub tokens_at_open: usize,
    pub tokens_reclaimed: usize,
    pub created_at: String,
    pub closed_at: Option<String>,
    pub episodes: Vec<FoldTraceEntry>,
}

/// How many parts a prompt has that a plan reckons with.
pub const EVICTION_KNOWN_PARTS: usize = 8;

/// The sizes of the first `n` episodes added up.
pub open spec fn tokens_of_first(episodes: Seq<EpisodeRow>, n: int) -> int
    decreases n,
{
    if n <= 0 {
        0
    } else {
        tokens_of_first(episodes, n - 1) + episodes[n - 1].token_count
    }
}

/// Whether every row has a proper size and the sizes can be added up.
pub open spec fn measurable(episodes: Seq<EpisodeRow>) -> bool {
    &&& forall|i: int| 0 <= i < episodes.len() ==> (#[trigger] episodes[i]).wf()
    &&& tokens_of_first(episodes, episodes.len() as int) <= i64::MAX
    &&& tokens_of_first(episodes, episodes.len() as int) <= usize::MAX
}

/// Adding more episodes never lowers the sum.
pub(crate) proof fn tokens_of_first_grow(episodes: Seq<EpisodeRow>, a: int, b: int)
    requires
        0 <= a <= b <= episodes.len(),
        forall|i: int| 0 <= i < episodes.len() ==> (#[trigger] episodes[i]).wf(),
    ensures
        0 <= tokens_of_first(episodes, a) <= tokens_of_first(episodes, b),
    decreases b,
{
    if a < b {
        tokens_of_first_grow(episodes, a, b - 1);
    } else if a > 0 {
        tokens_of_first_grow(episodes, a - 1, b - 1);
    }
}

/// Where the preserved prefix ends, from episode `i` on: before the first episode, other than
/// the very first, that would exceed the budget.
pub open spec fn prefix_end_from(episodes: Seq<EpisodeRow>, budget: int, i: int) -> int
    decreases episodes.len() - i,
{
    if i >= episodes.len() {
        episodes.len() as int
    } else if i > 0 && tokens_of_first(episodes, i + 1) > budget {
        i
    } else {
        prefix_end_from(episodes, budget, i + 1)
    }
}

/// The index of the first episode after the preserved prefix.
pub open spec fn prefix_end(episodes: Seq<EpisodeRow>, budget: int) -> int {
    prefix_end_from(episodes, budget, 0)
}

/// The preserved prefix is as long as the budget allows, and never empty where there is
/// anything to keep: it is within the budget or the first episode alone, and one more episode
/// would exceed it.
pub proof fn prefix_is_as_long_as_allowed(episodes: Seq<EpisodeRow>, budget: int)
    requires
        episodes.len() > 0,
    ensures
        ({
            let end = prefix_end(episodes, budget);
            &&& 1 <= end <= episodes.len()
            &&& end == 1 || tokens_of_first(episodes, end) <= budget
            &&& end < episodes.len() ==> tokens_of_first(episodes, end + 1) > budget
        }),
{
    prefix_end_is_maximal(episodes, budget, 1);
    assert(prefix_end_from(episodes, budget, 0) == prefix_end_from(episodes, budget, 1));
}

proof fn prefix_end_is_maximal(episodes: Seq<EpisodeRow>, budget: int, i: int)
    requires
        1 <= i <= episodes.len(),
    ensures
        ({
            let end = prefix_end_from(episodes, budget, i);
            &&& i <= end <= episodes.len()
            &&& end == i || tokens_of_first(episodes, end) <= budget
            &&& end < episodes.len() ==> tokens_of_first(episodes, end + 1) > budget
        }),
    decreases episodes.len() - i,
{
    if i < episodes.len() && tokens_of_first(episodes, i + 1) <= budget {
        prefix_end_is_maximal(episodes, budget, i + 1);
    }
}

/// Where the preserved recent context starts, looking back from the first `i` episodes: with
/// the latest episode from which on they hold the budget; at the very start where they never
/// do.
pub open spec fn recent_start_from(episodes: Seq<EpisodeRow>, budget: int, i: int) -> int
    decreases i,
{
    if i <= 0 {
        0
    } else if tokens_of_first(episodes, episodes.len() as int) - tokens_of_first(episodes, i)
        >= budget {
        i
    } else {
        recent_start_from(episodes, budget, i - 1)
    }
}

/// The index of the first episode of the preserved recent context.
pub open spec fn recent_start(episodes: Seq<EpisodeRow>, budget: int) -> int {
    recent_start_from(episodes, budget, episodes.len() as int)
}

/// The preserved recent context reaches its budget, or holds everything there is, and with one
/// episode less it would not.
pub proof fn recent_context_reaches_its_budget(episodes: Seq<EpisodeRow>, budget: int)
    ensures
        ({
            let start = recent_start(episodes, budget);
            let all = tokens_of_first(episodes, episodes.len() as int);
            &&& 0 <= start <= episodes.len()
            &&& start == 0 || all - tokens_of_first(episodes, start) >= budget
            &&& start < episodes.len() ==> all - tokens_of_first(episodes, start + 1) < budget
        }),
{
    recent_start_is_latest(episodes, budget, episodes.len() as int);
}

proof fn recent_start_is_latest(episodes: Seq<EpisodeRow>, budget: int, i: int)
    requires
        0 <= i <= episodes.len(),
        i < episodes.len() ==> tokens_of_first(episodes, episodes.len() as int) - tokens_of_first(
            episodes,
            i + 1,
        ) < budget,
    ensures
        ({
            let start = recent_start_from(episodes, budget, i);
            let all = tokens_of_first(episodes, episodes.len() as int);
            &&& 0 <= start <= i
            &&& start == 0 || all - tokens_of_first(episodes, start) >= budget
            &&& start < episodes.len() ==> all - tokens_of_first(episodes, start + 1) < budget
        }),
    decreases i,
{
    if i > 0 && tokens_of_first(episodes, episodes.len() as int) - tokens_of_first(episodes, i)
        < budget {
        recent_start_is_latest(episodes, budget, i - 1);
    }
}

/// The index of the first episode after the preserved prefix.
fn prefix_end_index(episodes: &[EpisodeRow], prefix_budget: usize) -> (r: usize)
    requires
        measurable(episodes@),
    ensures
        r == prefix_end(episodes@, prefix_budget as int),
        r <= episodes@.len(),
{
    let mut sum: usize = 0;
    for i in 0..episodes.len()
        invariant
            measurable(episodes@),
            sum == tokens_of_first(episodes@, i as int),
            prefix_end(episodes@, prefix_budget as int) == prefix_end_from(
                episodes@,
                prefix_budget as int,
                i as int,
            ),
    {
        proof {
            tokens_of_first_grow(episodes@, i as int + 1, episodes@.len() as int);
            assert(episodes@[i as int].wf());
        }
        let cost: usize = episodes[i].token_count as usize;
        if i > 0 && sum + cost > prefix_budget {
            return i;
        }
        sum = sum + cost;
    }
    episodes.len()
}

/// The index of the first episode of the preserved recent context.
fn recent_start_index(episodes: &[EpisodeRow], recent_budget: usize) -> (r: usize)
    requires
        measurable(episodes@),
    ensures
        r == recent_start(episodes@, recent_budget as int),
        r <= episodes@.len(),
{
    let n: usize = episodes.len();
    let mut sum: usize = 0;
    let mut i: usize = n;
    let ghost all = tokens_of_first(episodes@, n as int);
    while i > 0 && sum < recent_budget
        invariant
            n == episodes@.len(),
            i <= n,
            measurable(episodes@),
            all == tokens_of_first(episodes@, n as int),
            sum == all - tokens_of_first(episodes@, i as int),
            recent_start(episodes@, recent_budget as int) == recent_start_from(
                episodes@,
                recent_budget as int,
                i as int,
            ),
        decreases i,
    {
        proof {
            tokens_of_first_grow(episodes@, i - 1, n as int);
            assert(episodes@[i - 1].wf());
        }
        sum = sum + episodes[i - 1].token_count as usize;
        i = i - 1;
    }
    i
}

/// The tokens from the start up to the first episode that a change touches.
pub open spec fn untouched_tokens(episodes: Seq<EpisodeRow>, touched: Seq<Change>, i: int) -> int
    decreases episodes.len() - i,
{
    if i >= episodes.len() {
        tokens_of_first(episodes, episodes.len() as int)
    } else if touches(touched, episodes[i].episode_id@) {
        tokens_of_first(episodes, i)
    } else {
        untouched_tokens(episodes, touched, i + 1)
    }
}

/// Whether one of the changes is to this episode.
pub open spec fn touches(touched: Seq<Change>, episode_id: Seq<char>) -> bool {
    exists|k: int| 0 <= k < touched.len() && (#[trigger] touched[k]).episode_id == episode_id
}

fn is_touched(updates: &Vec<TierUpdate>, episode_id: &str) -> (r: bool)
    ensures
        r == touches(changes(updates@), episode_id@),
{
    for k in 0..updates.len()
        invariant
            forall|j: int|
                0 <= j < k ==> (#[trigger] changes(updates@)[j]).episode_id != episode_id@,
    {
        if same(updates[k].episode_id.as_str(), episode_id) {
            assert(changes(updates@)[k as int].episode_id == episode_id@);
            return true;
        }
    }
    false
}

/// The tokens of the timeline that survive from its start: everything before the first
/// episode that a plan touches.
fn retained_prefix_after(episodes: &[EpisodeRow], updates: &Vec<TierUpdate>) -> (r: usize)
    requires
        measurable(episodes@),
    ensures
        r == untouched_tokens(episodes@, changes(updates@), 0),
        r <= i64::MAX,
{
    let mut sum: usize = 0;
    for i in 0..episodes.len()
        invariant
            measurable(episodes@),
            sum == tokens_of_first(episodes@, i as int),
            untouched_tokens(episodes@, changes(updates@), 0) == untouched_tokens(
                episodes@,
                changes(updates@),
                i as int,
            ),
    {
        proof {
            tokens_of_first_grow(episodes@, i as int, episodes@.len() as int);
            tokens_of_first_grow(episodes@, i as int + 1, episodes@.len() as int);
            assert(episodes@[i as int].wf());
        }
        if is_touched(updates, episodes[i].episode_id.as_str()) {
            return sum;
        }
        sum = sum + episodes[i].token_count as usize;
    }
    sum
}

/// Where the cache would let the cut fall.
pub enum Boundary {
    /// It could not be asked.
    Unknown,
    /// There is nothing to align to.
    Rewrite { reason: Seq<char> },
    /// The cut falls on a checkpoint.
    Aligned { cut: i64, snap: SnapReason },
    /// The only checkpoint is out of reach.
    Unaligned { nearest: i64, why: Seq<char> },
}

impl EvictionPolicy {
    /// The prefix to keep if nothing limits it.
    pub open spec fn reserve(self) -> int {
        if self.keep_prefix_tokens > self.cache_prefix_reserve_tokens {
            self.keep_prefix_tokens as int
        } else {
            self.cache_prefix_reserve_tokens as int
        }
    }

    /// The most that a preserved prefix may take, at least one token.
    pub open spec fn prefix_max(self, share: usize) -> int {
        let by_share = if share > 1 {
            share as int
        } else {
            1
        };
        let by_policy = if self.cache_prefix_max_tokens > 1 {
            self.cache_prefix_max_tokens as int
        } else {
            1
        };
        if by_share < by_policy {
            by_share
        } else {
            by_policy
        }
    }

    /// Where the cut is proposed.
    pub open spec fn proposal(self, share: usize) -> int {
        if self.reserve() < self.prefix_max(share) {
            self.reserve()
        } else {
            self.prefix_max(share)
        }
    }

    /// The prefix to keep when the cache is not asked.
    pub open spec fn unaligned_prefix(self, share: usize) -> int {
        if self.reserve() < share {
            self.reserve()
        } else {
            share as int
        }
    }

    /// Where the cache lets the cut fall: on the nearest checkpoint at or before the proposal
    /// within the tolerance, else on the first checkpoint if that still leaves something to
    /// evict.
    pub open spec fn boundary(
        self,
        checkpoints: Option<Seq<CheckpointRef>>,
        share: usize,
        tolerance: i64,
    ) -> Boundary {
        let proposal = self.proposal(share) as i64;
        match checkpoints {
            None => Boundary::Unknown,
            Some(cs) => if cs.len() == 0 {
                Boundary::Rewrite {
                    reason: "no checkpoints are available on this backend/session; full re-prefill"@,
                }
            } else {
                match snap(proposal, cs, tolerance) {
                    Some((cut, reason)) => Boundary::Aligned { cut, snap: reason },
                    None => {
                        let cut = cs[0].token_position;
                        if 0 < cut <= self.prefix_max(share) {
                            Boundary::Aligned {
                                cut,
                                snap: SnapReason::onto(cs[0].kind, (cut - proposal) as i64),
                            }
                        } else {
                            Boundary::Unaligned {
                                nearest: cut,
                                why: "the earliest checkpoint the server can rewind to is at "@
                                    + signed_digits(cut as int) + " tokens, past the "@ + digits(
                                    self.prefix_max(share) as nat,
                                )
                                    + "-token limit on a preserved prefix; preserving it would leave nothing to evict, so this compaction cannot reuse the cache. Configure a deeper checkpoint ring (-ctxcp) to make alignment possible"@,
                            }
                        }
                    },
                }
            },
        }
    }

    /// The prefix to keep: up to the cut where it was aligned, else up to the proposal.
    pub open spec fn prefix_budget(self, boundary: Boundary, share: usize) -> int {
        match boundary {
            Boundary::Aligned { cut, snap } => if cut < 1 {
                1
            } else if cut > self.prefix_max(share) {
                self.prefix_max(share)
            } else {
                cut as int
            },
            _ => self.proposal(share),
        }
    }
}

/// Whether a plan records this boundary for a cut proposed at `proposal`.
pub open spec fn records(
    plan: Option<BoundaryPlan>,
    boundary: Boundary,
    proposal: int,
    candidates: nat,
    tolerance: i64,
    partial_state_only: bool,
) -> bool {
    match boundary {
        Boundary::Unknown => plan is None,
        Boundary::Rewrite { reason } => plan matches Some(p) && {
            &&& p.requested_cut == proposal
            &&& p.aligned_cut is None && p.nearest_cut is None && p.snap is None
            &&& p.status == CacheStatus::FullRePrefill
            &&& p.action == CoherenceAction::EvictAndAcceptReprefill
            &&& p.reason@ == reason
            &&& p.candidates_considered == 0 && p.partial_state_only
                == partial_state_only
            &&& p.tolerance_tokens == 0 && !p.pairs_with_cache
        },
        Boundary::Aligned { cut, snap } => plan matches Some(p) && {
            &&& p.requested_cut == proposal
            &&& p.aligned_cut == Some(cut) && p.nearest_cut == Some(cut)
            &&& p.snap == Some(snap)
            &&& p.status == CacheStatus::PartialReuse
            &&& p.action == CoherenceAction::EvictAtAlignedBoundary
            &&& p.reason@ == BoundaryPlan::aligned_text(snap)
            &&& p.candidates_considered == candidates && p.partial_state_only
                == partial_state_only
            &&& p.tolerance_tokens == 0 && p.pairs_with_cache
        },
        Boundary::Unaligned { nearest, why } => plan matches Some(p) && {
            &&& p.requested_cut == proposal
            &&& p.aligned_cut is None && p.nearest_cut == Some(nearest) && p.snap is None
            &&& p.status == CacheStatus::FullRePrefill
            &&& p.action == CoherenceAction::SnapshotThenEvict
            &&& p.reason@ == BoundaryPlan::unaligned_text(
                proposal as i64,
                Some(nearest),
                tolerance,
                why,
            )
            &&& p.candidates_considered == 0 && p.partial_state_only
                == partial_state_only
            &&& p.tolerance_tokens == tolerance && !p.pairs_with_cache
        },
    }
}

/// The engine: its policy, its counter, and how far a cut may move to reach a checkpoint.
#[derive(Debug, Clone, Copy)]
pub struct EvictionEngine {
    pub policy: EvictionPolicy,
    pub counter: TokenCounter,
    pub tolerance: i64,
}

/// What the next tier of an episode would bring, if it may move at all.
pub open spec fn escalation(
    engine: EvictionEngine,
    row: EpisodeRow,
    score: Score,
    still_needed: nat,
) -> Option<Change> {
    match row.eviction_tier.next() {
        None => None,
        Some(next) => {
            let before = row.cost_at(row.eviction_tier, engine.counter);
            let after = row.cost_at(next, engine.counter);
            if next is Dropped && !may_drop(engine.policy, row, score) {
                None
            } else if overshoots(row.token_count as nat, still_needed) && !(next is Masked) {
                None
            } else if after >= before {
                None
            } else {
                Some(
                    Change {
                        episode_id: row.episode_id@,
                        from: row.eviction_tier,
                        to: next,
                        before,
                        after,
                        reason: "tier "@ + row.eviction_tier.name() + " → "@ + next.name()
                            + " (value "@ + score.value_text@ + ", "@ + digits(
                            (before - after) as nat,
                        ) + " token(s) reclaimed)"@ + (if score.notes@.len() == 0 {
                            ""@
                        } else {
                            ": "@ + joined(texts(score.notes@), "; "@)
                        }),
                    },
                )
            }
        },
    }
}

/// Whether an episode may be dropped: dropping is on, its producer said that it may be, and
/// nothing depends on it.
pub open spec fn may_drop(policy: EvictionPolicy, row: EpisodeRow, score: Score) -> bool {
    policy.allow_drop && row.droppable && score.dependents == 0 && !score.has_dependents
}

/// Whether evicting an episode of this size would reclaim far more than is needed.
pub open spec fn overshoots(tokens: nat, still_needed: nat) -> bool {
    &&& tokens > 0 && still_needed > 0
    &&& tokens > 8192
    &&& tokens > (if still_needed * 8 > usize::MAX {
        usize::MAX as int
    } else {
        still_needed as int * 8
    })
}

/// What is known when a plan is made.
pub struct Situation<'a> {
    pub session_id: &'a str,
    pub slot_id: &'a str,
    pub window: WindowBudget,
    /// The prompt as it would be assembled now.
    pub parts: &'a PromptParts,
    /// The pinned anchors.
    pub anchors: &'a [AnchorRow],
    /// The episodes that may be evicted, from the oldest to the newest.
    pub episodes: &'a [EpisodeRow],
    /// The score of each of them.
    pub scores: &'a [Score],
    /// The checkpoints a cut may be aligned to, by position; absent if they could not be had.
    pub checkpoints: Option<&'a [CheckpointRef]>,
    /// Whether the model's checkpoints carry only part of its state.
    pub partial_state_only: bool,
}

/// The tokens of a list of anchors and, where there are any, of the block around them.
pub open spec fn anchor_cost(anchors: Seq<AnchorRow>, counter: TokenCounter) -> nat {
    anchor_sum(anchors, counter) + (if anchors.len() == 0 {
        0nat
    } else {
        24
    })
}

pub open spec fn anchor_sum(anchors: Seq<AnchorRow>, counter: TokenCounter) -> nat
    decreases anchors.len(),
{
    if anchors.len() == 0 {
        0
    } else {
        anchor_sum(anchors.drop_last(), counter) + counter.of(anchors.last().shown())
    }
}

proof fn anchor_sum_grows(anchors: Seq<AnchorRow>, counter: TokenCounter, n: int)
    requires
        0 <= n <= anchors.len(),
    ensures
        anchor_sum(anchors.take(n), counter) <= anchor_sum(anchors, counter),
    decreases anchors.len() - n,
{
    if n < anchors.len() {
        assert(anchors.take(n + 1).drop_last() =~= anchors.take(n));
        anchor_sum_grows(anchors, counter, n + 1);
    } else {
        assert(anchors.take(n) =~= anchors);
    }
}

/// The tokens that the anchors take in every prompt.
pub fn anchor_tokens(anchors: &[AnchorRow], counter: &TokenCounter) -> (r: usize)
    requires
        anchor_cost(anchors@, *counter) <= usize::MAX,
    ensures
        r == anchor_cost(anchors@, *counter),
{
    let mut sum: usize = 0;
    for i in 0..anchors.len()
        invariant
            anchor_sum(anchors@, *counter) <= usize::MAX,
            sum == anchor_sum(anchors@.take(i as int), *counter),
    {
        assert(anchors@.take(i as int + 1).drop_last() =~= anchors@.take(i as int));
        proof {
            anchor_sum_grows(anchors@, *counter, i as int + 1);
        }
        sum = sum + anchors[i].token_cost(counter);
    }
    assert(anchors@.take(anchors@.len() as int) =~= anchors@);
    if anchors.len() == 0 {
        0
    } else {
        sum + 24
    }
}

impl EvictionEngine {
    pub fn new(policy: EvictionPolicy, counter: TokenCounter, tolerance: i64) -> (r: Self)
        ensures
            r.policy == policy,
            r.counter == counter,
            r.tolerance == tolerance,
    {
        EvictionEngine { policy, counter, tolerance }
    }

    pub fn policy(&self) -> (r: &EvictionPolicy)
        ensures
            *r == self.policy,
    {
        &self.policy
    }

    /// How much pressure the prompt is under.
    pub fn assess(&self, window: &WindowBudget, parts: &PromptParts, anchors: &[AnchorRow]) -> (r:
        Pressure)
        requires
            parts.countable(self.counter),
            anchor_cost(anchors@, self.counter) + parts.tokens_without(
                self.counter,
                Some(RenderedPart::Timeline),
            ) <= usize::MAX,
            anchor_cost(anchors@, self.counter) + self.counter.of(parts.rendered()) <= usize::MAX,
        ensures
            r == ({
                let pinned = anchor_cost(anchors@, self.counter);
                if pinned + parts.tokens_without(self.counter, Some(RenderedPart::Timeline))
                    >= window.context_window {
                    Pressure::AnchorOverflow
                } else if self.counter.of(parts.rendered()) + pinned >= window.threshold {
                    Pressure::Compacting
                } else {
                    Pressure::Relaxed
                }
            }),
    {
        let pinned: usize = anchor_tokens(anchors, &self.counter);
        let fixed: usize = parts.fixed_tokens(&self.counter);
        if pinned + fixed >= window.context_window {
            return Pressure::AnchorOverflow;
        }
        if parts.total_tokens(&self.counter) + pinned >= window.threshold {
            Pressure::Compacting
        } else {
            Pressure::Relaxed
        }
    }

    /// The next tier for an episode, or nothing when it may not move.
    pub fn propose_escalation(&self, row: &EpisodeRow, score: &Score, still_needed: usize) -> (r:
        Option<TierUpdate>)
        requires
            row.wf(),
        ensures
            match escalation(*self, *row, *score, still_needed as nat) {
                Some(c) => r matches Some(u) && u.change() == c,
                None => r is None,
            },
    {
        let next: EpisodeTier = match row.eviction_tier.escalate() {
            Some(t) => t,
            None => {
                return None;
            },
        };
        if next == EpisodeTier::Dropped {
            if !self.policy.allow_drop || !row.droppable || score.dependents > 0
                || score.has_dependents {
                return None;
            }
        }
        let tokens: usize = row.token_count as usize;
        let limit: usize = if still_needed > usize::MAX / 8 {
            usize::MAX
        } else {
            still_needed * 8
        };
        if tokens > 0 && still_needed > 0 && tokens > limit && tokens > 8192 && next
            != EpisodeTier::Masked {
            return None;
        }
        let before: usize = row.live_tokens(&self.counter);
        let after: usize = row.tokens_at(next, &self.counter);
        if after >= before {
            return None;
        }
        let mut reason = String::from_str("tier ");
        reason.append(row.eviction_tier.as_str());
        reason.append(" → ");
        reason.append(next.as_str());
        reason.append(" (value ");
        reason.append(score.value_text.as_str());
        reason.append(", ");
        push_nat(&mut reason, (before - after) as u64);
        reason.append(" token(s) reclaimed)");
        let why = if score.notes.len() == 0 {
            String::from_str("")
        } else {
            let list = join(&score.notes, "; ");
            String::from_str(": ").concat(list.as_str())
        };
        reason.append(why.as_str());
        Some(
            TierUpdate {
                episode_id: row.episode_id.clone(),
                from: row.eviction_tier,
                to: next,
                tokens_before: before,
                tokens_after: after,
                reason,
            },
        )
    }

    /// Whether the policy's numbers fit where positions are counted.
    pub open spec fn wf(self) -> bool {
        self.policy.cache_prefix_max_tokens <= i64::MAX
    }

    /// Where the next prefill should start, and how much of the prefix to keep for it.
    ///
    /// `partial_state_only` tells whether the model's checkpoints carry only part of its state.
    pub fn boundary_and_prefix(
        &self,
        checkpoints: Option<&[CheckpointRef]>,
        prefix_share: usize,
        partial_state_only: bool,
    ) -> (r: (Option<BoundaryPlan>, usize))
        requires
            self.wf(),
            self.policy.boundary(
                match checkpoints {
                    Some(cs) => Some(cs@),
                    None => None,
                },
                prefix_share,
                self.tolerance,
            ) matches Boundary::Unaligned { nearest, why } ==> difference_fits(
                self.policy.proposal(prefix_share) as i64,
                nearest,
            ),
        ensures
            ({
                let cs = match checkpoints {
                    Some(cs) => Some(cs@),
                    None => None,
                };
                let b = self.policy.boundary(cs, prefix_share, self.tolerance);
                &&& r.1 == self.policy.prefix_budget(b, prefix_share)
                &&& records(
                    r.0,
                    b,
                    self.policy.proposal(prefix_share),
                    match cs {
                        Some(cs) => cs.len(),
                        None => 0,
                    },
                    self.tolerance,
                    partial_state_only,
                )
            }),
    {
        let reserve: usize = if self.policy.keep_prefix_tokens
            > self.policy.cache_prefix_reserve_tokens {
            self.policy.keep_prefix_tokens
        } else {
            self.policy.cache_prefix_reserve_tokens
        };
        let by_share: usize = if prefix_share > 1 {
            prefix_share
        } else {
            1
        };
        let by_policy: usize = if self.policy.cache_prefix_max_tokens > 1 {
            self.policy.cache_prefix_max_tokens
        } else {
            1
        };
        let prefix_max: usize = if by_share < by_policy {
            by_share
        } else {
            by_policy
        };
        let base: usize = if reserve < prefix_max {
            reserve
        } else {
            prefix_max
        };
        let proposal: i64 = base as i64;
        let cs = match checkpoints {
            Some(cs) => cs,
            None => {
                return (None, base);
            },
        };
        if cs.len() == 0 {
            return (
                Some(
                    BoundaryPlan::full_rewrite(
                        proposal,
                        "no checkpoints are available on this backend/session; full re-prefill",
                    ).for_model(partial_state_only),
                ),
                base,
            );
        }
        match snap_to_checkpoint(proposal, cs, self.tolerance) {
            Some((cut, reason)) => {
                proof {
                    crate::llama::latest_within_is_the_maximum(cs@, 1, proposal as int);
                }
                return (
                    Some(
                        BoundaryPlan::aligned(proposal, cut, reason, cs.len(), partial_state_only),
                    ),
                    cut as usize,
                );
            },
            None => {},
        }
        let cut: i64 = cs[0].token_position;
        if cut > 0 && cut as u64 <= prefix_max as u64 {
            return (
                Some(
                    BoundaryPlan::aligned(
                        proposal,
                        cut,
                        SnapReason::for_kind(cs[0].kind, cut - proposal),
                        cs.len(),
                        partial_state_only,
                    ),
                ),
                cut as usize,
            );
        }
        let mut why = String::from_str("the earliest checkpoint the server can rewind to is at ");
        push_int(&mut why, cut);
        why.append(" tokens, past the ");
        push_nat(&mut why, prefix_max as u64);
        why.append(
            "-token limit on a preserved prefix; preserving it would leave nothing to evict, so this compaction cannot reuse the cache. Configure a deeper checkpoint ring (-ctxcp) to make alignment possible",
        );
        (
            Some(
                BoundaryPlan::unaligned_reason(
                    proposal,
                    Some(cut),
                    self.tolerance,
                    why.as_str(),
                ).for_model(partial_state_only),
            ),
            base,
        )
    }
}

impl<'a> Situation<'a> {
    /// Whether everything that has to be added up can be.
    pub open spec fn wf(self, engine: EvictionEngine) -> bool {
        &&& engine.wf()
        &&& self.parts.countable(engine.counter)
        &&& self.episodes@.len() == self.scores@.len()
        &&& measurable(self.episodes@)
        &&& self.total(engine) <= usize::MAX
        &&& forall|i: int|
            0 <= i < self.episodes@.len() ==> self.total(engine) + (
            #[trigger] self.episodes@[i]).cost_at(
                self.episodes@[i].eviction_tier,
                engine.counter,
            ) <= usize::MAX
        &&& engine.policy.boundary(
            self.checkpoint_list(),
            self.window.prefix_share,
            engine.tolerance,
        ) matches Boundary::Unaligned { nearest, why } ==> difference_fits(
            engine.policy.proposal(self.window.prefix_share) as i64,
            nearest,
        )
    }

    pub open spec fn checkpoint_list(self) -> Option<Seq<CheckpointRef>> {
        match self.checkpoints {
            Some(cs) => Some(cs@),
            None => None,
        }
    }

    /// How many checkpoints there are.
    pub open spec fn checkpoint_count(self) -> nat {
        match self.checkpoints {
            Some(cs) => cs@.len(),
            None => 0,
        }
    }

    /// The tokens of the timeline.
    pub open spec fn live(self, engine: EvictionEngine) -> nat {
        engine.counter.of(self.parts.timeline@)
    }

    /// The tokens of the anchors.
    pub open spec fn pinned(self, engine: EvictionEngine) -> nat {
        anchor_cost(self.anchors@, engine.counter)
    }

    /// The tokens of the other parts that cannot be evicted.
    pub open spec fn fixed(self, engine: EvictionEngine) -> nat {
        self.parts.tokens_without(engine.counter, Some(RenderedPart::Timeline))
    }

    /// All tokens together.
    pub open spec fn total(self, engine: EvictionEngine) -> nat {
        self.live(engine) + self.pinned(engine) + self.fixed(engine)
    }

    /// Where the cut falls.
    pub open spec fn boundary(self, engine: EvictionEngine) -> Boundary {
        if engine.policy.cache_align {
            engine.policy.boundary(
                self.checkpoint_list(),
                self.window.prefix_share,
                engine.tolerance,
            )
        } else {
            Boundary::Unknown
        }
    }

    /// The tokens of the prefix to keep.
    pub open spec fn prefix_budget(self, engine: EvictionEngine) -> int {
        if engine.policy.cache_align {
            engine.policy.prefix_budget(self.boundary(engine), self.window.prefix_share)
        } else {
            engine.policy.unaligned_prefix(self.window.prefix_share)
        }
    }

    /// Whether an episode lies after the preserved prefix and before the recent context.
    pub open spec fn in_middle(self, engine: EvictionEngine, i: int) -> bool {
        let episodes = self.episodes@;
        let end = prefix_end(episodes, self.prefix_budget(engine));
        let start = recent_start(episodes, engine.policy.keep_recent_tokens as int);
        &&& end > 0 ==> episodes[i].seq > episodes[end - 1].seq
        &&& start < episodes.len() && episodes[i].seq < episodes[start].seq
    }

    /// The candidates among the first `n` episodes.
    pub open spec fn candidates(self, engine: EvictionEngine, n: int) -> Seq<Candidate>
        decreases n,
    {
        if n <= 0 {
            Seq::empty()
        } else {
            let so_far = self.candidates(engine, n - 1);
            let row = self.episodes@[n - 1];
            if self.in_middle(engine, n - 1) && row.fold_id is None {
                so_far.push(
                    Candidate {
                        index: (n - 1) as usize,
                        seq: row.seq,
                        value_key: self.scores@[n - 1].value_key,
                    },
                )
            } else {
                so_far
            }
        }
    }

    /// The notes on those of the first `n` episodes that a fold manages.
    pub open spec fn fold_notes(self, engine: EvictionEngine, n: int) -> Seq<Seq<char>>
        decreases n,
    {
        if n <= 0 {
            Seq::empty()
        } else {
            self.fold_notes(engine, n - 1) + listed(
                self.in_middle(engine, n - 1) && self.episodes@[n - 1].fold_id is Some,
                "episode "@ + self.episodes@[n - 1].episode_id@
                    + " is inside an open fold and is managed by unfold(), not by the automatic engine"@,
            )
        }
    }

    /// The candidates in the order in which they are tried.
    pub open spec fn queue(self, engine: EvictionEngine) -> Seq<Candidate> {
        stably_sorted(self.candidates(engine, self.episodes@.len() as int))
    }

    /// The tokens that a plan has to reclaim.
    pub open spec fn needed(self, engine: EvictionEngine) -> nat {
        if self.total(engine) > self.window.target {
            (self.total(engine) - self.window.target) as nat
        } else {
            0
        }
    }

    /// What trying candidate `c` brings while `still_needed` tokens are missing.
    pub open spec fn tried(self, engine: EvictionEngine, c: Candidate, still_needed: nat) -> Option<
        Change,
    > {
        escalation(engine, self.episodes@[c.index as int], self.scores@[c.index as int], still_needed)
    }

    /// The changes chosen among the first `n` candidates of the queue, and the tokens that they
    /// reclaim. Each candidate is tried while something is still missing.
    pub open spec fn chosen(self, engine: EvictionEngine, queue: Seq<Candidate>, n: int) -> (
        Seq<Change>,
        nat,
    )
        decreases n,
    {
        if n <= 0 {
            (Seq::empty(), 0)
        } else {
            let (so_far, saved) = self.chosen(engine, queue, n - 1);
            if saved >= self.needed(engine) {
                (so_far, saved)
            } else {
                match self.tried(engine, queue[n - 1], (self.needed(engine) - saved) as nat) {
                    Some(c) => (so_far.push(c), saved + (c.before - c.after) as nat),
                    None => (so_far, saved),
                }
            }
        }
    }

    /// The changes of the plan, and the tokens that they reclaim.
    pub open spec fn outcome(self, engine: EvictionEngine) -> (Seq<Change>, nat) {
        let queue = self.queue(engine);
        self.chosen(engine, queue, queue.len() as int)
    }

    /// Whether an episode lies after the preserved prefix and before the recent context.
    fn lies_in_middle(&self, end: usize, start: usize, i: usize, Ghost(engine): Ghost<
        EvictionEngine,
    >) -> (r: bool)
        requires
            i < self.episodes@.len(),
            end == prefix_end(self.episodes@, self.prefix_budget(engine)),
            start == recent_start(self.episodes@, engine.policy.keep_recent_tokens as int),
            end <= self.episodes@.len(),
        ensures
            r == self.in_middle(engine, i as int),
    {
        let seq: i64 = self.episodes[i].seq;
        if end > 0 && seq <= self.episodes[end - 1].seq {
            return false;
        }
        start < self.episodes.len() && seq < self.episodes[start].seq
    }

    /// The candidates, and the notes on the episodes that a fold manages.
    fn find_candidates(&self, engine: &EvictionEngine, prefix_budget: usize, notes: &mut Vec<
        String,
    >) -> (r: Vec<Candidate>)
        requires
            self.wf(*engine),
            prefix_budget == self.prefix_budget(*engine),
        ensures
            r@ == self.candidates(*engine, self.episodes@.len() as int),
            texts(final(notes)@) == texts(old(notes)@) + self.fold_notes(
                *engine,
                self.episodes@.len() as int,
            ),
    {
        let end: usize = prefix_end_index(self.episodes, prefix_budget);
        let start: usize = recent_start_index(self.episodes, engine.policy.keep_recent_tokens);
        let mut out: Vec<Candidate> = Vec::new();
        let ghost before = texts(notes@);
        assert(before + self.fold_notes(*engine, 0) =~= before);
        for i in 0..self.episodes.len()
            invariant
                self.wf(*engine),
                end == prefix_end(self.episodes@, self.prefix_budget(*engine)),
                start == recent_start(self.episodes@, engine.policy.keep_recent_tokens as int),
                end <= self.episodes@.len(),
                out@ == self.candidates(*engine, i as int),
                texts(notes@) == before + self.fold_notes(*engine, i as int),
        {
            let row = &self.episodes[i];
            let ghost so_far = texts(notes@);
            let middle: bool = self.lies_in_middle(end, start, i, Ghost(*engine));
            if middle {
                if row.fold_id.is_some() {
                    let mut note = String::from_str("episode ");
                    note.append(row.episode_id.as_str());
                    note.append(
                        " is inside an open fold and is managed by unfold(), not by the automatic engine",
                    );
                    notes.push(note);
                    assert(texts(notes@) =~= so_far.push(note@));
                } else {
                    out.push(
                        Candidate {
                            index: i,
                            seq: row.seq,
                            value_key: self.scores[i].value_key,
                        },
                    );
                }
            }
            assert(texts(notes@) =~= before + self.fold_notes(*engine, i as int + 1));
        }
        out
    }

    /// Tries the candidates in order while something is still missing.
    fn choose_changes(&self, engine: &EvictionEngine, queue: &Vec<Candidate>, needed: usize) -> (r:
        (Vec<TierUpdate>, usize))
        requires
            self.wf(*engine),
            needed == self.needed(*engine),
            forall|k: int|
                0 <= k < queue@.len() ==> (#[trigger] queue@[k]).index < self.episodes@.len(),
        ensures
            (changes(r.0@), r.1 as nat) == self.chosen(*engine, queue@, queue@.len() as int),
    {
        let mut updates: Vec<TierUpdate> = Vec::new();
        let mut saved: usize = 0;
        assert(changes(updates@) =~= Seq::empty());
        for k in 0..queue.len()
            invariant
                self.wf(*engine),
                needed == self.needed(*engine),
                needed <= self.total(*engine),
                forall|k: int|
                    0 <= k < queue@.len() ==> (#[trigger] queue@[k]).index < self.episodes@.len(),
                (changes(updates@), saved as nat) == self.chosen(*engine, queue@, k as int),
        {
            let ghost so_far = changes(updates@);
            if saved < needed {
                let i: usize = queue[k].index;
                let row = &self.episodes[i];
                assert(self.episodes@[i as int].wf());
                match engine.propose_escalation(row, &self.scores[i], needed - saved) {
                    Some(u) => {
                        saved = saved + (u.tokens_before - u.tokens_after);
                        let ghost c = u.change();
                        updates.push(u);
                        assert(changes(updates@) =~= so_far.push(c));
                    },
                    None => {},
                }
            }
        }
        (updates, saved)
    }
}

/// Every candidate is one of the episodes, in the middle and outside any fold.
proof fn candidates_are_in_the_middle(s: Situation, engine: EvictionEngine, n: int)
    requires
        0 <= n <= s.episodes@.len(),
        s.episodes@.len() <= usize::MAX,
    ensures
        forall|k: int|
            0 <= k < s.candidates(engine, n).len() ==> {
                let c = #[trigger] s.candidates(engine, n)[k];
                &&& c.index < n
                &&& s.in_middle(engine, c.index as int)
                &&& s.episodes@[c.index as int].fold_id is None
            },
    decreases n,
{
    if n > 0 {
        candidates_are_in_the_middle(s, engine, n - 1);
    }
}

/// A boundary plan once the episodes to evict are known.
///
/// Episodes are the unit of eviction, so the prefix that is really preserved ends where an
/// episode ends. A cut claimed beyond that is reported at the shorter position.
pub open spec fn is_settled(before: BoundaryPlan, after: BoundaryPlan, retained: int) -> bool {
    &&& after.requested_cut == before.requested_cut
    &&& after.nearest_cut == before.nearest_cut
    &&& after.action == before.action
    &&& after.candidates_considered == before.candidates_considered
    &&& after.partial_state_only == before.partial_state_only
    &&& after.tolerance_tokens == before.tolerance_tokens
    &&& after.pairs_with_cache == before.pairs_with_cache
    &&& if retained > 0 && before.pairs_with_cache && !before.status.reuses() {
        &&& after.aligned_cut == Some(retained as i64)
        &&& after.status == CacheStatus::PartialReuse
        &&& after.snap is None
        &&& after.reason@ == "the first "@ + digits(retained as nat)
            + " tokens are preserved verbatim, which is the earliest boundary the episode granularity allows; the next prompt shares that head, so only the suffix is prefilled"@
    } else if retained > 0 && before.pairs_with_cache && (match before.aligned_cut {
        Some(a) => a as int,
        None => 0,
    }) > retained {
        &&& after.aligned_cut == Some(retained as i64)
        &&& after.status == before.status
        &&& after.snap == before.snap
        &&& after.reason@ == "a checkpoint sits at "@ + signed_digits(
            before.aligned_cut->0 as int,
        ) + " but the preserved prefix ends at "@ + digits(retained as nat)
            + " tokens; the boundary is reported at the shorter position, which is what the next prompt will actually share"@
    } else {
        &&& after.aligned_cut == before.aligned_cut
        &&& after.status == before.status
        &&& after.snap == before.snap
        &&& after.reason@ == before.reason@
    }
}

fn settle(plan: BoundaryPlan, retained: usize) -> (r: BoundaryPlan)
    requires
        retained <= i64::MAX,
    ensures
        is_settled(plan, r, retained as int),
{
    if retained > 0 && plan.pairs_with_cache {
        if !plan.is_reuse() {
            let mut reason = String::from_str("the first ");
            push_nat(&mut reason, retained as u64);
            reason.append(
                " tokens are preserved verbatim, which is the earliest boundary the episode granularity allows; the next prompt shares that head, so only the suffix is prefilled",
            );
            return BoundaryPlan {
                aligned_cut: Some(retained as i64),
                status: CacheStatus::PartialReuse,
                snap: None,
                reason,
                ..plan
            };
        }
        let at: i64 = match plan.aligned_cut {
            Some(a) => a,
            None => 0,
        };
        if at > retained as i64 {
            let mut reason = String::from_str("a checkpoint sits at ");
            push_int(&mut reason, at);
            reason.append(" but the preserved prefix ends at ");
            push_nat(&mut reason, retained as u64);
            reason.append(
                " tokens; the boundary is reported at the shorter position, which is what the next prompt will actually share",
            );
            return BoundaryPlan { aligned_cut: Some(retained as i64), reason, ..plan };
        }
    }
    plan
}

/// The text of the error where what cannot be evicted fills the window.
pub open spec fn no_room_text(needed: nat, window: nat) -> Seq<char> {
    "the Anchor Set plus fixed prompt parts need "@ + digits(needed) + " tokens of a "@ + digits(
        window,
    )
        + "-token window; there is no room for any history. Sakur4 will not silently drop a pinned constraint (FR-4)."@
}

/// The notes of a plan under pressure.
pub open spec fn plan_notes(
    s: Situation,
    engine: EvictionEngine,
    proposed: Option<BoundaryPlan>,
    settled: Option<BoundaryPlan>,
    retained: nat,
) -> Seq<Seq<char>> {
    let updates = s.outcome(engine).0;
    (match proposed {
        Some(p) => seq![p.summary_text()],
        None => Seq::empty(),
    }) + s.fold_notes(engine, s.episodes@.len() as int) + listed(
        updates.len() == 0 && s.needed(engine) > 0,
        "no episode could be escalated even though "@ + digits(s.needed(engine))
            + " tokens of pressure exist; every candidate is either at the tier floor or protected by an unresolved dependency"@,
    ) + (match settled {
        Some(p) => seq![p.summary_text()] + listed(
            p.status.reuses() && updates.len() > 0,
            "the boundary is preserved verbatim at "@ + digits(retained)
                + " tokens, so the next prompt shares its head with the cached one"@,
        ),
        None => Seq::empty(),
    })
}

/// Whether a plan reports the boundary that was proposed, settled to what the plan retains, and
/// carries the notes that go with it.
pub open spec fn explains(
    s: Situation,
    engine: EvictionEngine,
    proposed: Option<BoundaryPlan>,
    plan: EvictionPlan,
) -> bool {
    &&& records(
        proposed,
        s.boundary(engine),
        engine.policy.proposal(s.window.prefix_share),
        s.checkpoint_count(),
        engine.tolerance,
        s.partial_state_only,
    )
    &&& match (proposed, plan.coherence) {
        (Some(a), Some(b)) => is_settled(a, b, plan.retained_prefix_tokens as int),
        (None, None) => true,
        _ => false,
    }
    &&& texts(plan.notes@) == plan_notes(
        s,
        engine,
        proposed,
        plan.coherence,
        plan.retained_prefix_tokens as nat,
    )
}

/// Adds a note.
fn note(notes: &mut Vec<String>, text: String)
    ensures
        texts(final(notes)@) == texts(old(notes)@).push(text@),
{
    notes.push(text);
    assert(texts(notes@) =~= texts(old(notes)@).push(text@));
}

impl EvictionEngine {
    /// Plans what to evict.
    ///
    /// Nothing is planned below the threshold, and anchors that fill the window are an error.
    /// Otherwise the least valuable episodes between the preserved prefix and the recent
    /// context are escalated by one tier each until enough is reclaimed.
    pub fn plan(&self, s: &Situation) -> (r: Result<EvictionPlan, Error>)
        requires
            s.wf(*self),
        ensures
            ({
                let total = s.total(*self);
                let kept = s.pinned(*self) + s.fixed(*self);
                if total >= s.window.threshold && kept >= s.window.context_window {
                    r matches Err(Error::BudgetOverflow(m)) && m@ == no_room_text(
                        kept,
                        s.window.context_window as nat,
                    )
                } else {
                    r matches Ok(p) && {
                        &&& p.session_id@ == s.session_id@
                        &&& p.slot_id@ == s.slot_id@
                        &&& p.budget == s.window.context_window
                        &&& p.threshold == s.window.threshold
                        &&& p.target == s.window.target
                        &&& p.live_tokens == s.live(*self)
                        &&& p.anchor_tokens == s.pinned(*self)
                        &&& p.fixed_tokens == s.fixed(*self)
                        &&& p.countable()
                        &&& if total < s.window.threshold {
                            &&& p.pressure == Pressure::Relaxed
                            &&& p.updates@.len() == 0
                            &&& p.planned_savings == 0
                            &&& p.retained_prefix_tokens == p.live_tokens
                            &&& p.coherence is None
                            &&& texts(p.notes@) == seq![
                                "context is at "@ + digits(total) + " tokens, below the "@
                                    + digits(s.window.threshold as nat)
                                    + "-token trigger; nothing to do"@,
                            ]
                        } else {
                            &&& p.pressure == Pressure::Compacting
                            &&& (changes(p.updates@), p.planned_savings as nat) == s.outcome(*self)
                            &&& p.retained_prefix_tokens == untouched_tokens(
                                s.episodes@,
                                changes(p.updates@),
                                0,
                            )
                            &&& exists|proposed: Option<BoundaryPlan>| #[trigger]
                                explains(*s, *self, proposed, p)
                            &&& p.coherence matches Some(c) ==> c.partial_state_only
                                == s.partial_state_only
                        }
                    }
                }
            }),
    {
        let pinned: usize = anchor_tokens(s.anchors, &self.counter);
        let fixed: usize = s.parts.fixed_tokens(&self.counter);
        let live: usize = s.parts.timeline_tokens(&self.counter);
        let total: usize = live + pinned + fixed;
        if total < s.window.threshold {
            let mut text = String::from_str("context is at ");
            push_nat(&mut text, total as u64);
            text.append(" tokens, below the ");
            push_nat(&mut text, s.window.threshold as u64);
            text.append("-token trigger; nothing to do");
            let mut notes: Vec<String> = Vec::new();
            note(&mut notes, text);
            assert(texts(notes@) =~= seq![text@]);
            return Ok(
                EvictionPlan {
                    session_id: s.session_id.to_owned(),
                    slot_id: s.slot_id.to_owned(),
                    pressure: Pressure::Relaxed,
                    budget: s.window.context_window,
                    threshold: s.window.threshold,
                    target: s.window.target,
                    live_tokens: live,
                    anchor_tokens: pinned,
                    fixed_tokens: fixed,
                    updates: Vec::new(),
                    planned_savings: 0,
                    retained_prefix_tokens: live,
                    coherence: None,
                    notes,
                },
            );
        }
        if pinned + fixed >= s.window.context_window {
            let mut text = String::from_str("the Anchor Set plus fixed prompt parts need ");
            push_nat(&mut text, (pinned + fixed) as u64);
            text.append(" tokens of a ");
            push_nat(&mut text, s.window.context_window as u64);
            text.append(
                "-token window; there is no room for any history. Sakur4 will not silently drop a pinned constraint (FR-4).",
            );
            return Err(Error::BudgetOverflow(text));
        }
        let mut notes: Vec<String> = Vec::new();
        let (proposed, prefix_budget): (Option<BoundaryPlan>, usize) = if self.policy.cache_align {
            self.boundary_and_prefix(s.checkpoints, s.window.prefix_share, s.partial_state_only)
        } else {
            (None, self.plain_prefix(s.window.prefix_share))
        };
        assert(texts(notes@) =~= Seq::empty());
        match &proposed {
            Some(p) => {
                proof {
                    aligned_cuts_are_close(*s, *self, *p);
                }
                note(&mut notes, p.summary());
            },
            None => {},
        }
        let ghost first = texts(notes@);
        assert(first =~= (match proposed {
            Some(p) => seq![p.summary_text()],
            None => Seq::empty(),
        }));
        let found = s.find_candidates(self, prefix_budget, &mut notes);
        let count: usize = s.episodes.len();
        proof {
            candidates_are_in_the_middle(*s, *self, count as int);
        }
        let ghost unsorted = found@;
        let queue = stable_sort(found);
        assert forall|k: int| 0 <= k < queue@.len() implies (#[trigger] queue@[k]).index
            < s.episodes@.len() by {
            assert(queue@.contains(queue@[k]));
            assert(unsorted.contains(queue@[k]));
        }
        let needed: usize = total.saturating_sub(s.window.target);
        let (updates, savings) = s.choose_changes(self, &queue, needed);
        if updates.len() == 0 && needed > 0 {
            let mut text = String::from_str("no episode could be escalated even though ");
            push_nat(&mut text, needed as u64);
            text.append(
                " tokens of pressure exist; every candidate is either at the tier floor or protected by an unresolved dependency",
            );
            note(&mut notes, text);
        }
        let retained: usize = retained_prefix_after(s.episodes, &updates);
        let ghost second = texts(notes@);
        let ghost before = proposed;
        let coherence: Option<BoundaryPlan> = match proposed {
            Some(p) => {
                let ghost q = p;
                let settled = settle(p, retained);
                proof {
                    aligned_cuts_are_close(*s, *self, q);
                }
                note(&mut notes, settled.summary());
                if settled.is_reuse() && updates.len() > 0 {
                    let mut text = String::from_str("the boundary is preserved verbatim at ");
                    push_nat(&mut text, retained as u64);
                    text.append(
                        " tokens, so the next prompt shares its head with the cached one",
                    );
                    note(&mut notes, text);
                }
                Some(settled)
            },
            None => None,
        };
        assert(texts(notes@) =~= plan_notes(*s, *self, before, coherence, retained as nat));
        let plan = EvictionPlan {
            session_id: s.session_id.to_owned(),
            slot_id: s.slot_id.to_owned(),
            pressure: Pressure::Compacting,
            budget: s.window.context_window,
            threshold: s.window.threshold,
            target: s.window.target,
            live_tokens: live,
            anchor_tokens: pinned,
            fixed_tokens: fixed,
            updates,
            planned_savings: savings,
            retained_prefix_tokens: retained,
            coherence,
            notes,
        };
        assert(explains(*s, *self, before, plan));
        Ok(plan)
    }

    /// The prefix to keep when the cache is not asked.
    fn plain_prefix(&self, share: usize) -> (r: usize)
        ensures
            r == self.policy.unaligned_prefix(share),
    {
        let reserve: usize = if self.policy.keep_prefix_tokens
            > self.policy.cache_prefix_reserve_tokens {
            self.policy.keep_prefix_tokens
        } else {
            self.policy.cache_prefix_reserve_tokens
        };
        if reserve < share {
            reserve
        } else {
            share
        }
    }
}

/// The cut of a recorded boundary lies close enough to the proposal to be subtracted.
proof fn aligned_cuts_are_close(s: Situation, engine: EvictionEngine, p: BoundaryPlan)
    requires
        s.wf(engine),
        records(
            Some(p),
            s.boundary(engine),
            engine.policy.proposal(s.window.prefix_share),
            s.checkpoint_count(),
            engine.tolerance,
            s.partial_state_only,
        ),
    ensures
        0 <= p.requested_cut,
        p.aligned_cut matches Some(a) ==> 0 < a,
{
    match s.checkpoint_list() {
        Some(cs) => {
            crate::llama::latest_within_is_the_maximum(
                cs,
                1,
                engine.policy.proposal(s.window.prefix_share),
            );
        },
        None => {},
    }
}

/// Whether a change is the next step down for episode `i`: it lies in the middle and in no
/// fold, it falls by exactly one tier, it gives tokens back, and it is dropped only where
/// dropping is on, its producer allowed it and nothing depends on it.
pub open spec fn steps_down(s: Situation, engine: EvictionEngine, i: int, c: Change) -> bool {
    let row = s.episodes@[i];
    &&& 0 <= i < s.episodes@.len()
    &&& s.in_middle(engine, i)
    &&& row.fold_id is None
    &&& c.episode_id == row.episode_id@
    &&& c.from == row.eviction_tier
    &&& row.eviction_tier.next() == Some(c.to)
    &&& c.before == row.cost_at(c.from, engine.counter)
    &&& c.after == row.cost_at(c.to, engine.counter)
    &&& c.after < c.before
    &&& c.to is Dropped ==> may_drop(engine.policy, row, s.scores@[i])
}

/// The tokens that a list of changes gives back.
pub open spec fn reclaimed(list: Seq<Change>) -> nat
    decreases list.len(),
{
    if list.len() == 0 {
        0
    } else {
        reclaimed(list.drop_last()) + (list.last().before - list.last().after) as nat
    }
}

/// Whether every candidate of the queue is an episode of the middle outside any fold.
spec fn queue_is_proper(s: Situation, engine: EvictionEngine, queue: Seq<Candidate>) -> bool {
    forall|k: int|
        0 <= k < queue.len() ==> {
            let i = (#[trigger] queue[k]).index as int;
            &&& i < s.episodes@.len()
            &&& s.in_middle(engine, i)
            &&& s.episodes@[i].fold_id is None
        }
}

/// Whether no candidate of the queue stands for the same episode as another.
spec fn queue_is_distinct(queue: Seq<Candidate>) -> bool {
    forall|j: int, k: int|
        #![trigger queue[j], queue[k]]
        0 <= j < k < queue.len() ==> queue[j].index != queue[k].index
}

proof fn candidates_stand_for_different_episodes(s: Situation, engine: EvictionEngine, n: int)
    requires
        0 <= n <= s.episodes@.len() <= usize::MAX,
    ensures
        queue_is_distinct(s.candidates(engine, n)),
    decreases n,
{
    if n > 0 {
        candidates_stand_for_different_episodes(s, engine, n - 1);
        candidates_are_in_the_middle(s, engine, n - 1);
    }
}

proof fn the_queue_is_sound(s: Situation, engine: EvictionEngine)
    requires
        s.episodes@.len() <= usize::MAX,
    ensures
        queue_is_proper(s, engine, s.queue(engine)),
        queue_is_distinct(s.queue(engine)),
{
    let n = s.episodes@.len() as int;
    let all = s.candidates(engine, n);
    candidates_are_in_the_middle(s, engine, n);
    candidates_stand_for_different_episodes(s, engine, n);
    candidates_are_no_more(s, engine, n);
    let order = sorting_rearranges(all);
    let queue = s.queue(engine);
    assert forall|k: int| 0 <= k < queue.len() implies {
        let i = (#[trigger] queue[k]).index as int;
        &&& i < s.episodes@.len()
        &&& s.in_middle(engine, i)
        &&& s.episodes@[i].fold_id is None
    } by {
        assert(queue[k] == all[order[k] as int]);
    }
    assert forall|j: int, k: int|
        #![trigger queue[j], queue[k]]
        0 <= j < k < queue.len() implies queue[j].index != queue[k].index by {
        assert(order[j] != order[k]);
        assert(queue[j] == all[order[j] as int]);
        assert(queue[k] == all[order[k] as int]);
    }
}

proof fn candidates_are_no_more(s: Situation, engine: EvictionEngine, n: int)
    requires
        0 <= n,
    ensures
        s.candidates(engine, n).len() <= n,
    decreases n,
{
    if n > 0 {
        candidates_are_no_more(s, engine, n - 1);
    }
}

proof fn chosen_changes_are_sound(
    s: Situation,
    engine: EvictionEngine,
    queue: Seq<Candidate>,
    n: int,
)
    requires
        s.wf(engine),
        queue_is_proper(s, engine, queue),
        0 <= n <= queue.len(),
    ensures
        ({
            let (list, saved) = s.chosen(engine, queue, n);
            &&& saved == reclaimed(list)
            &&& list.len() > 0 ==> reclaimed(list.drop_last()) < s.needed(engine)
            &&& forall|k: int|
                0 <= k < list.len() ==> exists|q: int|
                    0 <= q < n && steps_down(
                        s,
                        engine,
                        (#[trigger] queue[q]).index as int,
                        #[trigger] list[k],
                    )
        }),
    decreases n,
{
    if n > 0 {
        chosen_changes_are_sound(s, engine, queue, n - 1);
        let (before, saved) = s.chosen(engine, queue, n - 1);
        let (list, total) = s.chosen(engine, queue, n);
        if saved < s.needed(engine) {
            match s.tried(engine, queue[n - 1], (s.needed(engine) - saved) as nat) {
                Some(c) => {
                    assert(list.drop_last() =~= before);
                    assert(steps_down(s, engine, queue[n - 1].index as int, c));
                    assert forall|k: int| 0 <= k < list.len() implies exists|q: int|
                        0 <= q < n && steps_down(
                            s,
                            engine,
                            (#[trigger] queue[q]).index as int,
                            #[trigger] list[k],
                        ) by {
                        if k < n - 1 && k < before.len() {
                            assert(list[k] == before[k]);
                            let q = choose|q: int|
                                0 <= q < n - 1 && steps_down(
                                    s,
                                    engine,
                                    (#[trigger] queue[q]).index as int,
                                    before[k],
                                );
                            assert(steps_down(s, engine, queue[q].index as int, list[k]));
                        } else if k < before.len() {
                            assert(list[k] == before[k]);
                        } else {
                            assert(list[k] == c);
                        }
                    }
                },
                None => {},
            }
        }
    }
}

/// A plan moves only episodes between the preserved prefix and the recent context, each by one
/// tier and each for a gain, and it drops only what may be dropped.
pub proof fn plans_step_down_in_the_middle(s: Situation, engine: EvictionEngine, k: int) -> (i: int)
    requires
        s.wf(engine),
        s.episodes@.len() <= usize::MAX,
        0 <= k < s.outcome(engine).0.len(),
    ensures
        steps_down(s, engine, i, s.outcome(engine).0[k]),
{
    the_queue_is_sound(s, engine);
    let queue = s.queue(engine);
    chosen_changes_are_sound(s, engine, queue, queue.len() as int);
    let list = s.outcome(engine).0;
    let q = choose|q: int|
        0 <= q < queue.len() && steps_down(
            s,
            engine,
            (#[trigger] queue[q]).index as int,
            list[k],
        );
    queue[q].index as int
}

/// A plan reclaims what its changes add up to, and no change is made once enough is
/// reclaimed: without the last one the plan would fall short.
pub proof fn plans_take_no_more_than_needed(s: Situation, engine: EvictionEngine)
    requires
        s.wf(engine),
        s.episodes@.len() <= usize::MAX,
    ensures
        s.outcome(engine).1 == reclaimed(s.outcome(engine).0),
        s.outcome(engine).0.len() > 0 ==> reclaimed(s.outcome(engine).0.drop_last())
            < s.needed(engine),
{
    the_queue_is_sound(s, engine);
    let queue = s.queue(engine);
    chosen_changes_are_sound(s, engine, queue, queue.len() as int);
}

/// Whether the episodes are listed from the oldest to the newest, each under an identifier of
/// its own.
pub open spec fn in_sequence(episodes: Seq<EpisodeRow>) -> bool {
    forall|i: int, j: int|
        #![trigger episodes[i], episodes[j]]
        0 <= i < j < episodes.len() ==> episodes[i].seq < episodes[j].seq
            && episodes[i].episode_id@ != episodes[j].episode_id@
}

/// The middle lies between the preserved prefix and the recent context.
pub proof fn the_middle_lies_between(s: Situation, engine: EvictionEngine, i: int)
    requires
        in_sequence(s.episodes@),
        0 <= i < s.episodes@.len(),
    ensures
        s.in_middle(engine, i) <==> prefix_end(s.episodes@, s.prefix_budget(engine)) <= i
            < recent_start(s.episodes@, engine.policy.keep_recent_tokens as int)
            < s.episodes@.len(),
{
    prefix_is_as_long_as_allowed(s.episodes@, s.prefix_budget(engine));
    recent_context_reaches_its_budget(s.episodes@, engine.policy.keep_recent_tokens as int);
}

/// What a plan keeps verbatim covers the whole preserved prefix, and the recent context is
/// left alone.
pub proof fn prefix_and_recent_context_survive(s: Situation, engine: EvictionEngine)
    requires
        s.wf(engine),
        s.episodes@.len() <= usize::MAX,
        in_sequence(s.episodes@),
    ensures
        untouched_tokens(s.episodes@, s.outcome(engine).0, 0) >= tokens_of_first(
            s.episodes@,
            prefix_end(s.episodes@, s.prefix_budget(engine)),
        ),
        forall|i: int|
            recent_start(s.episodes@, engine.policy.keep_recent_tokens as int) <= i
                < s.episodes@.len() ==> !touches(
                s.outcome(engine).0,
                (#[trigger] s.episodes@[i]).episode_id@,
            ),
{
    let list = s.outcome(engine).0;
    let episodes = s.episodes@;
    let end = prefix_end(episodes, s.prefix_budget(engine));
    assert forall|i: int| 0 <= i < episodes.len() && touches(
        list,
        (#[trigger] episodes[i]).episode_id@,
    ) implies s.in_middle(engine, i) by {
        let k = choose|k: int|
            0 <= k < list.len() && (#[trigger] list[k]).episode_id == episodes[i].episode_id@;
        let j = plans_step_down_in_the_middle(s, engine, k);
        assert(episodes[j].episode_id@ == episodes[i].episode_id@);
        assert(i == j);
    }
    assert forall|i: int|
        recent_start(episodes, engine.policy.keep_recent_tokens as int) <= i
            < episodes.len() implies !touches(list, (#[trigger] episodes[i]).episode_id@) by {
        recent_context_reaches_its_budget(episodes, engine.policy.keep_recent_tokens as int);
        the_middle_lies_between(s, engine, i);
    }
    if episodes.len() > 0 {
        prefix_is_as_long_as_allowed(episodes, s.prefix_budget(engine));
        assert forall|i: int| 0 <= i < end implies !touches(
            list,
            (#[trigger] episodes[i]).episode_id@,
        ) by {
            the_middle_lies_between(s, engine, i);
        }
        untouched_reaches(episodes, list, 0, end);
    }
}

proof fn untouched_reaches(episodes: Seq<EpisodeRow>, touched: Seq<Change>, i: int, end: int)
    requires
        0 <= i <= end <= episodes.len(),
        forall|k: int| 0 <= k < episodes.len() ==> (#[trigger] episodes[k]).wf(),
        forall|k: int|
            i <= k < end ==> !touches(touched, (#[trigger] episodes[k]).episode_id@),
    ensures
        untouched_tokens(episodes, touched, i) >= tokens_of_first(episodes, end),
    decreases episodes.len() - i,
{
    tokens_of_first_grow(episodes, end, episodes.len() as int);
    if i < episodes.len() {
        if touches(touched, episodes[i].episode_id@) {
        } else if i < end {
            untouched_reaches(episodes, touched, i + 1, end);
        } else {
            untouched_reaches(episodes, touched, i + 1, i + 1);
            tokens_of_first_grow(episodes, end, i + 1);
        }
    }
}

/// Reuse is claimed exactly where the cut could be aligned onto a checkpoint, and never for
/// more than the prefix that the plan preserves.
pub proof fn claimed_reuse_is_preserved(
    s: Situation,
    engine: EvictionEngine,
    proposed: Option<BoundaryPlan>,
    plan: EvictionPlan,
)
    requires
        explains(s, engine, proposed, plan),
        0 < plan.retained_prefix_tokens <= i64::MAX,
    ensures
        plan.coherence matches Some(c) ==> {
            &&& c.status.reuses() <==> s.boundary(engine) is Aligned
            &&& c.status.reuses() ==> (c.aligned_cut matches Some(a) && a
                <= plan.retained_prefix_tokens)
        },
{
}

/// A plan changes an episode at most once.
pub proof fn each_episode_moves_at_most_once(s: Situation, engine: EvictionEngine, a: int, b: int)
    requires
        s.wf(engine),
        s.episodes@.len() <= usize::MAX,
        in_sequence(s.episodes@),
        0 <= a < b < s.outcome(engine).0.len(),
    ensures
        s.outcome(engine).0[a].episode_id != s.outcome(engine).0[b].episode_id,
{
    the_queue_is_sound(s, engine);
    let queue = s.queue(engine);
    chosen_changes_differ(s, engine, queue, queue.len() as int);
}

proof fn chosen_changes_differ(s: Situation, engine: EvictionEngine, queue: Seq<Candidate>, n: int)
    requires
        s.wf(engine),
        in_sequence(s.episodes@),
        queue_is_proper(s, engine, queue),
        queue_is_distinct(queue),
        0 <= n <= queue.len(),
    ensures
        ({
            let list = s.chosen(engine, queue, n).0;
            forall|a: int, b: int|
                #![trigger list[a], list[b]]
                0 <= a < b < list.len() ==> list[a].episode_id != list[b].episode_id
        }),
    decreases n,
{
    if n > 0 {
        chosen_changes_differ(s, engine, queue, n - 1);
        chosen_changes_are_sound(s, engine, queue, n - 1);
        let (before, saved) = s.chosen(engine, queue, n - 1);
        let list = s.chosen(engine, queue, n).0;
        if list.len() > before.len() {
            assert forall|a: int, b: int|
                #![trigger list[a], list[b]]
                0 <= a < b < list.len() implies list[a].episode_id != list[b].episode_id by {
                assert(list[a] == before[a]);
                if b == before.len() {
                    let q = choose|q: int|
                        0 <= q < n - 1 && steps_down(
                            s,
                            engine,
                            (#[trigger] queue[q]).index as int,
                            before[a],
                        );
                    assert(queue[q].index != queue[n - 1].index);
                } else {
                    assert(list[b] == before[b]);
                }
            }
        }
    }
}

/// The cut that is proposed keeps the larger of the two reserves, as far as the limits on a
/// preserved prefix allow.
pub proof fn the_proposal_is_the_reserve_within_its_limits(policy: EvictionPolicy, share: usize)
    ensures
        policy.proposal(share) <= policy.keep_prefix_tokens || policy.proposal(share)
            <= policy.cache_prefix_reserve_tokens,
        share >= 1 ==> policy.proposal(share) <= share,
        policy.cache_prefix_max_tokens >= 1 ==> policy.proposal(share)
            <= policy.cache_prefix_max_tokens,
        policy.keep_prefix_tokens <= share && policy.keep_prefix_tokens
            <= policy.cache_prefix_max_tokens ==> policy.proposal(share)
            >= policy.keep_prefix_tokens,
        policy.cache_prefix_reserve_tokens <= share && policy.cache_prefix_reserve_tokens
            <= policy.cache_prefix_max_tokens ==> policy.proposal(share)
            >= policy.cache_prefix_reserve_tokens,
        (policy.keep_prefix_tokens >= share || policy.cache_prefix_reserve_tokens >= share)
            && 1 <= share <= policy.cache_prefix_max_tokens ==> policy.proposal(share) == share,
        (policy.keep_prefix_tokens >= policy.cache_prefix_max_tokens
            || policy.cache_prefix_reserve_tokens >= policy.cache_prefix_max_tokens) && 1
            <= policy.cache_prefix_max_tokens <= share ==> policy.proposal(share)
            == policy.cache_prefix_max_tokens,
        0 <= policy.proposal(share),
{
}

/// Where a checkpoint lies at or before the proposed cut and within the tolerance, the cut
/// falls on the latest checkpoint that is not past the proposal, and everything before it is
/// kept, so that nothing of the cached prefix is given up without need.
pub proof fn a_cut_falls_on_the_latest_checkpoint_in_reach(
    engine: &EvictionEngine,
    cs: &[CheckpointRef],
    share: usize,
    partial: bool,
    r: (Option<BoundaryPlan>, usize),
    i: int,
)
    requires
        engine.wf(),
        call_ensures(EvictionEngine::boundary_and_prefix, (engine, Some(cs), share, partial), r),
        0 <= i < cs@.len(),
        0 < cs@[i].token_position <= engine.policy.proposal(share),
        engine.policy.proposal(share) - cs@[i].token_position <= engine.tolerance,
    ensures
        r.0 matches Some(b) && b.aligned_cut matches Some(cut) && {
            &&& b.requested_cut == engine.policy.proposal(share)
            &&& b.status.reuses()
            &&& b.pairs_with_cache
            &&& cs@[i].token_position <= cut <= b.requested_cut
            &&& exists|j: int| 0 <= j < cs@.len() && (#[trigger] cs@[j]).token_position == cut
            &&& forall|j: int|
                0 <= j < cs@.len() ==> !(cut < (#[trigger] cs@[j]).token_position
                    <= b.requested_cut)
            &&& r.1 == cut
        },
{
    crate::llama::latest_within_is_the_maximum(cs@, 1, engine.policy.proposal(share));
    let found = crate::llama::latest_within(cs@, 1, engine.policy.proposal(share));
    let j = choose|j: int| 0 <= j < cs@.len() && cs@[j] == found->0;
    assert(cs@[j].token_position == found->0.token_position);
}

/// Where no checkpoint lies at or before the proposed cut and within the tolerance, the cut
/// falls on the first checkpoint there is, if that is within the limit on a preserved prefix;
/// beyond it, or without any checkpoint, no reuse is claimed and the proposal stands.
pub proof fn without_a_checkpoint_in_reach_the_first_decides(
    engine: &EvictionEngine,
    checkpoints: Option<&[CheckpointRef]>,
    share: usize,
    partial: bool,
    r: (Option<BoundaryPlan>, usize),
)
    requires
        engine.wf(),
        call_ensures(EvictionEngine::boundary_and_prefix, (engine, checkpoints, share, partial), r),
        checkpoints matches Some(cs) ==> forall|i: int|
            0 <= i < cs@.len() ==> !(0 < (#[trigger] cs@[i]).token_position
                <= engine.policy.proposal(share) && engine.policy.proposal(share)
                - cs@[i].token_position <= engine.tolerance),
        engine.tolerance >= 0,
    ensures
        match checkpoints {
            None => r.0 is None && r.1 == engine.policy.proposal(share),
            Some(cs) => r.0 matches Some(b) && {
                let reachable = cs@.len() > 0 && 0 < cs@[0].token_position && (
                cs@[0].token_position <= share || cs@[0].token_position == 1) && (
                cs@[0].token_position <= engine.policy.cache_prefix_max_tokens
                    || cs@[0].token_position == 1);
                &&& b.requested_cut == engine.policy.proposal(share)
                &&& b.status.reuses() == reachable
                &&& reachable ==> b.aligned_cut == Some(cs@[0].token_position) && r.1
                    == cs@[0].token_position
                &&& !reachable ==> b.aligned_cut is None && r.1 == engine.policy.proposal(share)
                &&& !reachable && cs@.len() > 0 ==> b.nearest_cut == Some(cs@[0].token_position)
            },
        },
{
    match checkpoints {
        Some(cs) => {
            crate::llama::latest_within_is_the_maximum(cs@, 1, engine.policy.proposal(share));
            let found = crate::llama::latest_within(cs@, 1, engine.policy.proposal(share));
            if found is Some {
                let j = choose|j: int| 0 <= j < cs@.len() && cs@[j] == found->0;
                assert(cs@[j].token_position == found->0.token_position);
            }
        },
        None => {},
    }
}

/// Whether episode `a` goes before episode `b`: the less valuable one, the older one where
/// they are worth the same, and the one listed first where they are also equally old.
pub open spec fn worth_less(s: Situation, a: int, b: int) -> bool {
    ||| s.scores@[a].value_key < s.scores@[b].value_key
    ||| s.scores@[a].value_key == s.scores@[b].value_key && s.episodes@[a].seq
        < s.episodes@[b].seq
    ||| s.scores@[a].value_key == s.scores@[b].value_key && s.episodes@[a].seq
        == s.episodes@[b].seq && a < b
}

/// Whether an episode can fall by one tier while `missing` tokens are wanted: there is a next
/// tier, it is cheaper, it is no drop that is not allowed, and unless only tool output is
/// masked it is no giant that gives back far more than is wanted.
pub open spec fn can_step_down(
    engine: EvictionEngine,
    row: EpisodeRow,
    score: Score,
    missing: int,
) -> bool {
    row.eviction_tier.next() matches Some(next) && {
        &&& row.cost_at(next, engine.counter) < row.cost_at(row.eviction_tier, engine.counter)
        &&& next is Dropped ==> {
            &&& engine.policy.allow_drop
            &&& row.droppable
            &&& score.dependents == 0
            &&& !score.has_dependents
        }
        &&& next is Masked || row.token_count <= 8192 || row.token_count <= 8 * missing
    }
}

/// The tokens that are still wanted once the first `k` changes of a plan are made.
pub open spec fn missing_after(plan: EvictionPlan, k: int) -> int {
    plan.live_tokens + plan.anchor_tokens + plan.fixed_tokens - plan.target - reclaimed(
        changes(plan.updates@).take(k),
    )
}

/// An episode is escalated exactly where it can fall by one tier, and then by that tier and
/// for what the two tiers cost.
pub proof fn an_episode_is_escalated_where_it_can_be(
    engine: &EvictionEngine,
    row: &EpisodeRow,
    score: &Score,
    missing: usize,
    r: Option<TierUpdate>,
)
    requires
        row.wf(),
        row.token_count <= usize::MAX,
        missing > 0,
        call_ensures(EvictionEngine::propose_escalation, (engine, row, score, missing), r),
    ensures
        r is Some <==> can_step_down(*engine, *row, *score, missing as int),
        r matches Some(u) ==> {
            &&& u.episode_id@ == row.episode_id@
            &&& u.from == row.eviction_tier
            &&& row.eviction_tier.next() == Some(u.to)
            &&& u.tokens_before == row.cost_at(u.from, engine.counter)
            &&& u.tokens_after == row.cost_at(u.to, engine.counter)
            &&& u.tokens_after < u.tokens_before
        },
{
    assert(r matches Some(u) ==> u.change().episode_id == u.episode_id@);
}

/// The candidates are the episodes of the middle outside any fold, in their order, each with
/// its own score and age.
proof fn candidates_are_all_of_the_middle(s: Situation, engine: EvictionEngine, n: int)
    requires
        0 <= n <= s.episodes@.len() <= usize::MAX,
    ensures
        ({
            let all = s.candidates(engine, n);
            &&& forall|k: int|
                0 <= k < all.len() ==> {
                    let c = #[trigger] all[k];
                    &&& c.index < n
                    &&& c.value_key == s.scores@[c.index as int].value_key
                    &&& c.seq == s.episodes@[c.index as int].seq
                }
            &&& forall|j: int, k: int|
                #![trigger all[j], all[k]]
                0 <= j < k < all.len() ==> all[j].index < all[k].index
            &&& forall|b: int|
                0 <= b < n && #[trigger] s.in_middle(engine, b) && s.episodes@[b].fold_id is None
                    ==> exists|k: int| 0 <= k < all.len() && (#[trigger] all[k]).index == b
        }),
    decreases n,
{
    if n > 0 {
        candidates_are_all_of_the_middle(s, engine, n - 1);
        let before = s.candidates(engine, n - 1);
        let all = s.candidates(engine, n);
        assert forall|b: int|
            0 <= b < n && #[trigger] s.in_middle(engine, b) && s.episodes@[b].fold_id is None
                implies exists|k: int| 0 <= k < all.len() && (#[trigger] all[k]).index == b by {
            if b == n - 1 {
                assert(all[all.len() - 1].index == b);
            } else {
                let k = choose|k: int| 0 <= k < before.len() && (#[trigger] before[k]).index == b;
                assert(all[k].index == b);
            }
        }
    }
}

/// The queue holds each episode of the middle outside any fold, the least worthy first.
proof fn the_queue_is_in_order(s: Situation, engine: EvictionEngine)
    requires
        s.episodes@.len() <= usize::MAX,
    ensures
        ({
            let queue = s.queue(engine);
            &&& queue_is_proper(s, engine, queue)
            &&& forall|p: int, q: int|
                #![trigger queue[p], queue[q]]
                0 <= p < q < queue.len() ==> worth_less(
                    s,
                    queue[p].index as int,
                    queue[q].index as int,
                )
            &&& forall|b: int|
                0 <= b < s.episodes@.len() && #[trigger] s.in_middle(engine, b)
                    && s.episodes@[b].fold_id is None ==> exists|p: int|
                    0 <= p < queue.len() && (#[trigger] queue[p]).index == b
        }),
{
    let n = s.episodes@.len() as int;
    let all = s.candidates(engine, n);
    the_queue_is_sound(s, engine);
    candidates_are_no_more(s, engine, n);
    candidates_are_all_of_the_middle(s, engine, n);
    let order = sorting_rearranges(all);
    let queue = s.queue(engine);
    assert forall|p: int, q: int|
        #![trigger queue[p], queue[q]]
        0 <= p < q < queue.len() implies worth_less(
        s,
        queue[p].index as int,
        queue[q].index as int,
    ) by {
        assert(queue[p] == all[order[p] as int]);
        assert(queue[q] == all[order[q] as int]);
    }
    assert forall|b: int|
        0 <= b < s.episodes@.len() && #[trigger] s.in_middle(engine, b)
            && s.episodes@[b].fold_id is None implies exists|p: int|
        0 <= p < queue.len() && (#[trigger] queue[p]).index == b by {
        let k = choose|k: int| 0 <= k < all.len() && (#[trigger] all[k]).index == b;
        let p = every_position_occurs(order, all.len(), k as usize);
        assert(queue[p].index == b);
    }
}

/// Whether place `p` of the queue has its turn once the first `k` of the places in `at` were
/// taken.
spec fn has_its_turn(at: Seq<int>, p: int, k: int) -> bool {
    &&& 0 <= k <= at.len()
    &&& k > 0 ==> at[k - 1] < p
    &&& k < at.len() ==> p < at[k]
}

/// The places of the queue that the changes among its first `n` candidates come from.
proof fn chosen_places(s: Situation, engine: EvictionEngine, queue: Seq<Candidate>, n: int) -> (at:
    Seq<int>)
    requires
        0 <= n <= queue.len(),
    ensures
        ({
            let (list, saved) = s.chosen(engine, queue, n);
            let needed = s.needed(engine) as int;
            &&& at.len() == list.len()
            &&& saved == reclaimed(list)
            &&& forall|k: int| 0 <= k < at.len() ==> 0 <= #[trigger] at[k] < n
            &&& forall|j: int, k: int|
                #![trigger at[j], at[k]]
                0 <= j < k < at.len() ==> at[j] < at[k]
            &&& forall|k: int|
                0 <= k < at.len() ==> {
                    let missing = needed - reclaimed(list.take(k));
                    &&& missing > 0
                    &&& s.tried(engine, queue[#[trigger] at[k]], missing as nat) == Some(list[k])
                }
            &&& forall|p: int, k: int|
                0 <= p < n && !at.contains(p) && #[trigger] has_its_turn(at, p, k) ==> {
                    let missing = needed - reclaimed(list.take(k));
                    missing <= 0 || s.tried(engine, queue[p], missing as nat) is None
                }
        }),
    decreases n,
{
    if n == 0 {
        Seq::empty()
    } else {
        let before = chosen_places(s, engine, queue, n - 1);
        let (so_far, saved) = s.chosen(engine, queue, n - 1);
        let (list, total) = s.chosen(engine, queue, n);
        let needed = s.needed(engine) as int;
        let grows = list.len() > so_far.len();
        let at = if grows {
            before.push(n - 1)
        } else {
            before
        };
        assert(so_far.take(so_far.len() as int) =~= so_far);
        if grows {
            assert(list.drop_last() =~= so_far);
        }
        assert forall|k: int| 0 <= k <= so_far.len() implies #[trigger] list.take(k)
            == so_far.take(k) by {
            assert(list.take(k) =~= so_far.take(k));
        }
        assert forall|k: int| 0 <= k < at.len() implies {
            let missing = needed - reclaimed(list.take(k));
            &&& missing > 0
            &&& s.tried(engine, queue[#[trigger] at[k]], missing as nat) == Some(list[k])
        } by {
            assert(list.take(k) == so_far.take(k));
            if k < before.len() {
                assert(at[k] == before[k]);
                assert(list[k] == so_far[k]);
            }
        }
        assert forall|p: int, k: int|
            0 <= p < n && !at.contains(p) && #[trigger] has_its_turn(at, p, k) implies {
            let missing = needed - reclaimed(list.take(k));
            missing <= 0 || s.tried(engine, queue[p], missing as nat) is None
        } by {
            if p == n - 1 {
                if grows {
                    assert(at[at.len() - 1] == p);
                }
                if k < at.len() {
                    assert(at[k] < n);
                }
                assert(k == at.len());
                assert(list.take(k) == so_far.take(k));
            } else {
                if before.contains(p) {
                    let i = choose|i: int| 0 <= i < before.len() && before[i] == p;
                    assert(at[i] == p);
                }
                if k == before.len() + 1 {
                    assert(at[k - 1] == n - 1);
                } else {
                    if k > 0 {
                        assert(at[k - 1] == before[k - 1]);
                    }
                    if k < before.len() {
                        assert(at[k] == before[k]);
                    }
                    assert(has_its_turn(before, p, k));
                    assert(list.take(k) == so_far.take(k));
                }
            }
        }
        at
    }
}

/// A plan takes the least valuable episodes first. `at` tells which episode each change is
/// made to: they are different episodes of the middle, outside any fold, each worth less than
/// the next, and each is changed while tokens are still wanted. An episode of the middle that
/// is left alone could not fall by a tier when its turn came, which is after all changes to
/// episodes worth less and before all others, or nothing more was wanted by then.
pub proof fn a_plan_takes_the_least_valuable_first(
    engine: &EvictionEngine,
    s: &Situation,
    plan: EvictionPlan,
) -> (at: Seq<int>)
    requires
        s.wf(*engine),
        call_ensures(EvictionEngine::plan, (engine, s), Ok(plan)),
        plan.pressure is Compacting,
    ensures
        at.len() == plan.updates@.len(),
        forall|k: int|
            0 <= k < at.len() ==> {
                let i = #[trigger] at[k];
                let u = plan.updates@[k];
                &&& 0 <= i < s.episodes@.len()
                &&& s.in_middle(*engine, i)
                &&& s.episodes@[i].fold_id is None
                &&& u.episode_id@ == s.episodes@[i].episode_id@
                &&& u.from == s.episodes@[i].eviction_tier
                &&& s.episodes@[i].eviction_tier.next() == Some(u.to)
                &&& missing_after(plan, k) > 0
                &&& can_step_down(*engine, s.episodes@[i], s.scores@[i], missing_after(plan, k))
            },
        forall|j: int, k: int|
            #![trigger at[j], at[k]]
            0 <= j < k < at.len() ==> worth_less(*s, at[j], at[k]),
        forall|b: int, k: int|
            #![trigger s.episodes@[b], missing_after(plan, k)]
            {
                &&& 0 <= b < s.episodes@.len()
                &&& s.in_middle(*engine, b)
                &&& s.episodes@[b].fold_id is None
                &&& !at.contains(b)
                &&& 0 <= k <= at.len()
                &&& k > 0 ==> worth_less(*s, at[k - 1], b)
                &&& k < at.len() ==> worth_less(*s, b, at[k])
            } ==> missing_after(plan, k) <= 0 || !can_step_down(
                *engine,
                s.episodes@[b],
                s.scores@[b],
                missing_after(plan, k),
            ),
{
    assert(s.episodes.len() == s.episodes@.len());
    the_queue_is_in_order(*s, *engine);
    let queue = s.queue(*engine);
    let places = chosen_places(*s, *engine, queue, queue.len() as int);
    let list = changes(plan.updates@);
    let needed = s.needed(*engine) as int;
    let at = Seq::new(places.len(), |k: int| queue[places[k]].index as int);
    assert(list == s.outcome(*engine).0);
    assert forall|k: int| 0 <= k < at.len() implies {
        let i = #[trigger] at[k];
        let u = plan.updates@[k];
        &&& 0 <= i < s.episodes@.len()
        &&& s.in_middle(*engine, i)
        &&& s.episodes@[i].fold_id is None
        &&& u.episode_id@ == s.episodes@[i].episode_id@
        &&& u.from == s.episodes@[i].eviction_tier
        &&& s.episodes@[i].eviction_tier.next() == Some(u.to)
        &&& missing_after(plan, k) > 0
        &&& can_step_down(*engine, s.episodes@[i], s.scores@[i], missing_after(plan, k))
    } by {
        assert(0 <= places[k] < queue.len());
        assert(list[k] == plan.updates@[k].change());
        an_episode_fits(s.episodes@, at[k]);
    }
    assert forall|j: int, k: int|
        #![trigger at[j], at[k]]
        0 <= j < k < at.len() implies worth_less(*s, at[j], at[k]) by {
        assert(places[j] < places[k]);
    }
    assert forall|b: int, k: int|
        #![trigger s.episodes@[b], missing_after(plan, k)]
        {
            &&& 0 <= b < s.episodes@.len()
            &&& s.in_middle(*engine, b)
            &&& s.episodes@[b].fold_id is None
            &&& !at.contains(b)
            &&& 0 <= k <= at.len()
            &&& k > 0 ==> worth_less(*s, at[k - 1], b)
            &&& k < at.len() ==> worth_less(*s, b, at[k])
        } implies missing_after(plan, k) <= 0 || !can_step_down(
        *engine,
        s.episodes@[b],
        s.scores@[b],
        missing_after(plan, k),
    ) by {
        let p = choose|p: int| 0 <= p < queue.len() && (#[trigger] queue[p]).index == b;
        if places.contains(p) {
            let i = choose|i: int| 0 <= i < places.len() && places[i] == p;
            assert(at[i] == b);
        }
        if k > 0 {
            let q = places[k - 1];
            assert(queue[q].index == at[k - 1]);
            if p <= q {
                assert(at[k - 1] != b);
                assert(p < q);
                assert(worth_less(*s, queue[p].index as int, queue[q].index as int));
            }
        }
        if k < at.len() {
            let q = places[k];
            assert(queue[q].index == at[k]);
            if q <= p {
                assert(at[k] != b);
                assert(q < p);
                assert(worth_less(*s, queue[q].index as int, queue[p].index as int));
            }
        }
        assert(has_its_turn(places, p, k));
        an_episode_fits(s.episodes@, b);
    }
    at
}

/// The size of one episode fits where the sum of all does.
proof fn an_episode_fits(episodes: Seq<EpisodeRow>, i: int)
    requires
        measurable(episodes),
        0 <= i < episodes.len(),
    ensures
        episodes[i].wf(),
        episodes[i].token_count <= usize::MAX,
{
    tokens_of_first_grow(episodes, 0, i);
    tokens_of_first_grow(episodes, i + 1, episodes.len() as int);
}

/// A plan is made exactly where the context reaches the threshold; below it nothing is touched,
/// and only what cannot be evicted, filling the window by itself, makes it an error.
pub proof fn a_plan_is_made_under_pressure_alone(
    engine: &EvictionEngine,
    s: &Situation,
    r: Result<EvictionPlan, Error>,
)
    requires
        s.wf(*engine),
        call_ensures(EvictionEngine::plan, (engine, s), r),
    ensures
        ({
            let live = engine.counter.of(s.parts.timeline@);
            let pinned = anchor_cost(s.anchors@, engine.counter);
            let fixed = s.parts.tokens_without(engine.counter, Some(RenderedPart::Timeline));
            &&& r is Err <==> live + pinned + fixed >= s.window.threshold && pinned + fixed
                >= s.window.context_window
            &&& r matches Ok(p) ==> {
                &&& p.live_tokens == live
                &&& p.anchor_tokens == pinned
                &&& p.fixed_tokens == fixed
                &&& p.target == s.window.target
                &&& p.pressure is Compacting <==> live + pinned + fixed >= s.window.threshold
                &&& !(p.pressure is Compacting) ==> p.updates@.len() == 0 && p.planned_savings == 0
                    && p.coherence is None && p.retained_prefix_tokens == p.live_tokens
            }
        }),
{
}

/// What a plan gives back is what its changes give back together; it lands within the target or
/// leaves no episode of the middle that could still fall by a tier, and it goes no further than
/// it must: without its last change it would miss the target.
pub proof fn a_plan_lands_within_its_target_or_has_nothing_left(
    engine: &EvictionEngine,
    s: &Situation,
    plan: EvictionPlan,
    b: int,
)
    requires
        s.wf(*engine),
        call_ensures(EvictionEngine::plan, (engine, s), Ok(plan)),
        plan.pressure is Compacting,
        in_sequence(s.episodes@),
        0 <= b < s.episodes@.len(),
        s.in_middle(*engine, b),
        s.episodes@[b].fold_id is None,
        s.episodes@[b].eviction_tier is Live,
        s.episodes@[b].cost_at(EpisodeTier::Masked, engine.counter) < s.episodes@[b].cost_at(
            EpisodeTier::Live,
            engine.counter,
        ),
    ensures
        plan.planned_savings == reclaimed(changes(plan.updates@)),
        plan.updates@.len() > 0 ==> missing_after(plan, plan.updates@.len() - 1) > 0,
        plan.live_tokens + plan.anchor_tokens + plan.fixed_tokens - plan.planned_savings
            > plan.target ==> exists|k: int|
            0 <= k < plan.updates@.len() && (#[trigger] plan.updates@[k]).episode_id@
                == s.episodes@[b].episode_id@ && plan.updates@[k].to is Masked,
{
    let at = a_plan_takes_the_least_valuable_first(engine, s, plan);
    assert(s.episodes.len() == s.episodes@.len());
    plans_take_no_more_than_needed(*s, *engine);
    let list = changes(plan.updates@);
    let n = list.len() as int;
    assert(list.take(n) =~= list);
    if at.len() > 0 {
        assert(at[n - 1] == at[n - 1]);
    }
    if at.contains(b) {
        let k = choose|k: int| 0 <= k < at.len() && at[k] == b;
        assert(plan.updates@[k].episode_id@ == s.episodes@[b].episode_id@);
    } else if missing_after(plan, n) > 0 {
        let k = turn_of(*s, at, b, n);
        assert(missing_after(plan, k) > 0) by {
            reclaimed_grows(list, k, n);
        }
        assert(can_step_down(*engine, s.episodes@[b], s.scores@[b], missing_after(plan, k)));
    }
}

/// When the turn of an episode comes that is not among the ordered ones `at`.
proof fn turn_of(s: Situation, at: Seq<int>, b: int, n: int) -> (k: int)
    requires
        0 <= n <= at.len(),
        !at.contains(b),
        n < at.len() ==> worth_less(s, b, at[n]),
    ensures
        0 <= k <= n,
        k > 0 ==> worth_less(s, at[k - 1], b),
        k < at.len() ==> worth_less(s, b, at[k]),
    decreases n,
{
    if n == 0 || worth_less(s, at[n - 1], b) {
        n
    } else {
        assert(at[n - 1] != b);
        turn_of(s, at, b, n - 1)
    }
}

/// More changes never give less back.
proof fn reclaimed_grows(list: Seq<Change>, k: int, n: int)
    requires
        0 <= k <= n <= list.len(),
    ensures
        reclaimed(list.take(k)) <= reclaimed(list.take(n)),
    decreases n,
{
    if k < n {
        assert(list.take(n).drop_last() =~= list.take(n - 1));
        reclaimed_grows(list, k, n - 1);
    }
}

/// The prefix that a plan leaves alone is the one that aligning the cut gives, or without
/// alignment the larger of the two reserves as far as the share of the timeline allows.
pub proof fn the_prefix_left_alone_ends_at_the_boundary(
    engine: &EvictionEngine,
    s: &Situation,
    r: (Option<BoundaryPlan>, usize),
)
    requires
        s.wf(*engine),
        call_ensures(
            EvictionEngine::boundary_and_prefix,
            (engine, s.checkpoints, s.window.prefix_share, s.partial_state_only),
            r,
        ),
    ensures
        engine.policy.cache_align ==> s.prefix_budget(*engine) == r.1,
        !engine.policy.cache_align ==> {
            let keep = s.prefix_budget(*engine);
            &&& keep <= s.window.prefix_share
            &&& keep == s.window.prefix_share || keep >= engine.policy.keep_prefix_tokens
                && keep >= engine.policy.cache_prefix_reserve_tokens
            &&& keep <= engine.policy.keep_prefix_tokens || keep
                <= engine.policy.cache_prefix_reserve_tokens
        },
{
}

/// What a plan says it retains is the tokens of all episodes before the first one that it
/// changes, and of all episodes where it changes none.
pub proof fn the_retained_prefix_ends_at_the_first_change(
    engine: &EvictionEngine,
    s: &Situation,
    plan: EvictionPlan,
) -> (m: int)
    requires
        s.wf(*engine),
        call_ensures(EvictionEngine::plan, (engine, s), Ok(plan)),
        plan.pressure is Compacting,
    ensures
        0 <= m <= s.episodes@.len(),
        plan.retained_prefix_tokens == tokens_of_first(s.episodes@, m),
        forall|i: int, k: int|
            #![trigger s.episodes@[i], plan.updates@[k]]
            0 <= i < m && 0 <= k < plan.updates@.len() ==> plan.updates@[k].episode_id@
                != s.episodes@[i].episode_id@,
        m < s.episodes@.len() ==> exists|k: int|
            0 <= k < plan.updates@.len() && (#[trigger] plan.updates@[k]).episode_id@
                == s.episodes@[m].episode_id@,
{
    let list = changes(plan.updates@);
    let m = first_touched(s.episodes@, list, 0);
    assert forall|i: int, k: int|
        #![trigger s.episodes@[i], plan.updates@[k]]
        0 <= i < m && 0 <= k < plan.updates@.len() implies plan.updates@[k].episode_id@
        != s.episodes@[i].episode_id@ by {
        assert(list[k].episode_id == plan.updates@[k].episode_id@);
        assert(!touches(list, s.episodes@[i].episode_id@));
    }
    if m < s.episodes@.len() {
        let k = choose|k: int|
            0 <= k < list.len() && (#[trigger] list[k]).episode_id == s.episodes@[m].episode_id@;
        assert(plan.updates@[k].episode_id@ == s.episodes@[m].episode_id@);
    }
    m
}

proof fn first_touched(episodes: Seq<EpisodeRow>, touched: Seq<Change>, i: int) -> (m: int)
    requires
        0 <= i <= episodes.len(),
    ensures
        i <= m <= episodes.len(),
        untouched_tokens(episodes, touched, i) == tokens_of_first(episodes, m),
        forall|k: int|
            i <= k < m ==> !touches(touched, (#[trigger] episodes[k]).episode_id@),
        m < episodes.len() ==> touches(touched, episodes[m].episode_id@),
    decreases episodes.len() - i,
{
    if i >= episodes.len() || touches(touched, episodes[i].episode_id@) {
        i
    } else {
        first_touched(episodes, touched, i + 1)
    }
}

/// One anchor more costs what it shows, and the first one the heading of the block too.
pub proof fn one_anchor_more_costs_what_it_shows(
    fewer: &[AnchorRow],
    more: &[AnchorRow],
    counter: &TokenCounter,
    a: usize,
    b: usize,
    alone: usize,
)
    requires
        call_ensures(anchor_tokens, (fewer, counter), a),
        call_ensures(anchor_tokens, (more, counter), b),
        more@.len() == fewer@.len() + 1,
        more@.drop_last() == fewer@,
        call_ensures(AnchorRow::token_cost, (&more@.last(), counter), alone),
    ensures
        fewer@.len() > 0 ==> b == a + alone,
        fewer@.len() == 0 ==> a == 0 && b == alone + 24,
{
}

/// The pressure: what cannot leave the prompt overflows once it fills the window; else there is
/// something to compact once the prompt and the anchors reach the threshold.
pub proof fn the_threshold_decides_the_pressure(
    engine: &EvictionEngine,
    window: &WindowBudget,
    parts: &PromptParts,
    anchors: &[AnchorRow],
    pinned: usize,
    fixed: usize,
    total: usize,
    r: Pressure,
)
    requires
        call_ensures(EvictionEngine::assess, (engine, window, parts, anchors), r),
        call_ensures(anchor_tokens, (anchors, &engine.counter), pinned),
        call_ensures(PromptParts::fixed_tokens, (parts, &engine.counter), fixed),
        call_ensures(PromptParts::total_tokens, (parts, &engine.counter), total),
    ensures
        r is AnchorOverflow <==> pinned + fixed >= window.context_window,
        r is Compacting <==> pinned + fixed < window.context_window && total + pinned
            >= window.threshold,
        r is Relaxed <==> pinned + fixed < window.context_window && total + pinned
            < window.threshold,
{
}

/// A plan leaves what it does not save, and reaches its target where that and what cannot leave
/// the prompt fit within it; it is cheap for the cache exactly where a prefix is reused.
pub proof fn a_plan_leaves_what_it_does_not_save(
    plan: &EvictionPlan,
    left: usize,
    reached: bool,
    cheap: bool,
)
    requires
        call_ensures(EvictionPlan::token_after_plan, (plan,), left),
        call_ensures(EvictionPlan::reaches_target, (plan,), reached),
        call_ensures(EvictionPlan::is_cache_cheap, (plan,), cheap),
    ensures
        plan.planned_savings <= plan.live_tokens ==> left + plan.planned_savings
            == plan.live_tokens,
        plan.planned_savings > plan.live_tokens ==> left == 0,
        reached <==> left + plan.anchor_tokens + plan.fixed_tokens <= plan.target,
        plan.coherence is None ==> !cheap,
        plan.coherence matches Some(c) ==> (cheap <==> c.status is PartialReuse
            || c.status is WarmRestored),
{
}

} // verus!
