//! The coherence layer: aligning evictions with what an inference server still caches.
//!
//! [`Coherence`] holds the configuration and what the server can do. It decides; the
//! application asks the server and the store, hands the answers in, and carries the
//! decision out.

pub mod plan;

use crate::error::Error;
use crate::ids::{short_hash_of_text, short_hash_str};
use crate::llama::{
    latest_within, latest_within_is_the_maximum, snap, snap_to_checkpoint, CapabilitySet, CheckpointKind,
    CheckpointRef, RestoreOutcome, SlotState, SnapReason, SnapshotOutcome,
};
use crate::lines::{lowered, to_lowercase};
use crate::order::{
    a_stable_order_sorts, sorting_rearranges, stable_sort, stably_sorted, Ranked,
};
use crate::text::{
    at_least_zero, chars_of, contains, contains_text, digits, first_at, first_at_is_first,
    nonnegative, push_int, push_nat, same, signed_digits, split_once,
};
use crate::tokens::TokenCounter;
use plan::{difference_fits, BoundaryPlan, CacheStatus, CoherenceAction};
use vstd::prelude::*;
use vstd::string::*;

verus! {

/// How the layer behaves.
#[derive(Debug, Clone, Copy, PartialEq, Eq, Structural)]
pub struct CoherenceConfig {
    /// How far a cut may move back to reach a checkpoint.
    pub snap_tolerance_tokens: i64,
    /// Save the slot before a rewrite that cannot be avoided.
    pub snapshot_before_rewrite: bool,
    /// Save even when the cut could be aligned.
    pub snapshot_even_when_aligned: bool,
    /// Keep at most this many save files per slot.
    pub snapshot_retention_per_slot: usize,
    /// Take no save while less disk space than this is free.
    pub min_free_disk_bytes: u64,
}

impl Default for CoherenceConfig {
    fn default() -> (r: Self)
        ensures
            r.snap_tolerance_tokens == 512,
            r.snapshot_before_rewrite,
            !r.snapshot_even_when_aligned,
            r.snapshot_retention_per_slot == 4,
            r.min_free_disk_bytes == 2 * 1024 * 1024 * 1024,
    {
        CoherenceConfig {
            snap_tolerance_tokens: 512,
            snapshot_before_rewrite: true,
            snapshot_even_when_aligned: false,
            snapshot_retention_per_slot: 4,
            min_free_disk_bytes: 2 * 1024 * 1024 * 1024,
        }
    }
}

/// What was observed about one prompt.
#[derive(Debug, Clone)]
pub struct PromptObservation {
    pub slot_id: String,
    pub cache_status: CacheStatus,
    /// Tokens in the prompt that was sent.
    pub prompt_tokens: usize,
    /// Tokens the slot could reuse.
    pub reused_tokens: usize,
    /// Tokens that must be evaluated.
    pub prefilled_tokens: usize,
    /// How long evaluation took, when reported.
    pub prompt_eval_ms: Option<i64>,
    pub detail: String,
}

/// How a rollback was achieved.
#[derive(Debug, Clone, Copy, PartialEq, Eq, Structural)]
pub enum RollBackMethod {
    /// The ring still holds the prefix; the next request rewinds to it.
    RingRewind,
    /// A restore from a save file.
    SlotRestore,
    /// Nothing was possible.
    Nothing,
}

/// Result of a rollback attempt.
#[derive(Debug, Clone)]
pub struct RollBackOutcome {
    pub performed: bool,
    pub method: RollBackMethod,
    pub detail: String,
}

/// Whether a checkpoint survives a restart of the server.
pub open spec fn is_durable(c: CheckpointRef) -> bool {
    c.kind is SlotSaveFile || c.kind is PreRewrite || c.kind is FoldMarker
}

fn durable(c: &CheckpointRef) -> (r: bool)
    ensures
        r == is_durable(*c),
{
    matches!(
        c.kind,
        CheckpointKind::SlotSaveFile | CheckpointKind::PreRewrite | CheckpointKind::FoldMarker
    )
}

/// Whether the list holds a checkpoint of the same position and kind.
pub open spec fn covered(cs: Seq<CheckpointRef>, c: CheckpointRef) -> bool {
    exists|i: int|
        0 <= i < cs.len() && (#[trigger] cs[i]).token_position == c.token_position && cs[i].kind
            == c.kind
}

/// The server's ring followed by the recorded checkpoints that it does not already cover.
pub open spec fn merged(ring: Seq<CheckpointRef>, recorded: Seq<CheckpointRef>) -> Seq<
    CheckpointRef,
>
    decreases recorded.len(),
{
    if recorded.len() == 0 {
        ring
    } else {
        let so_far = merged(ring, recorded.drop_last());
        if covered(so_far, recorded.last()) {
            so_far
        } else {
            so_far.push(recorded.last())
        }
    }
}

fn is_covered(cs: &Vec<CheckpointRef>, c: &CheckpointRef) -> (r: bool)
    ensures
        r == covered(cs@, *c),
{
    for i in 0..cs.len()
        invariant
            forall|j: int|
                0 <= j < i ==> !((#[trigger] cs@[j]).token_position == c.token_position
                    && cs@[j].kind == c.kind),
    {
        if cs[i].token_position == c.token_position && cs[i].kind == c.kind {
            return true;
        }
    }
    false
}

fn merge(ring: &[CheckpointRef], recorded: &[CheckpointRef]) -> (r: Vec<CheckpointRef>)
    ensures
        r@ == merged(ring@, recorded@),
{
    let mut out: Vec<CheckpointRef> = Vec::new();
    for i in 0..ring.len()
        invariant
            out@ == ring@.take(i as int),
    {
        out.push(ring[i].clone());
    }
    assert(ring@.take(ring@.len() as int) =~= ring@);
    assert(recorded@.take(0) =~= Seq::empty());
    for i in 0..recorded.len()
        invariant
            out@ == merged(ring@, recorded@.take(i as int)),
    {
        assert(recorded@.take(i as int + 1).drop_last() =~= recorded@.take(i as int));
        if !is_covered(&out, &recorded[i]) {
            out.push(recorded[i].clone());
        }
    }
    assert(recorded@.take(recorded@.len() as int) =~= recorded@);
    out
}

/// The checkpoints that survive a restart, in order.
pub open spec fn durable_of(cs: Seq<CheckpointRef>) -> Seq<CheckpointRef>
    decreases cs.len(),
{
    if cs.len() == 0 {
        Seq::empty()
    } else if is_durable(cs.last()) {
        durable_of(cs.drop_last()).push(cs.last())
    } else {
        durable_of(cs.drop_last())
    }
}

/// The checkpoints that may be rewound to: all of them, or only the durable ones where
/// checkpoints carry only part of the model's state.
pub open spec fn trusted(cs: Seq<CheckpointRef>, partial_state_only: bool) -> Seq<CheckpointRef> {
    if partial_state_only {
        durable_of(cs)
    } else {
        cs
    }
}

fn keep_trusted(cs: Vec<CheckpointRef>, partial_state_only: bool) -> (r: Vec<CheckpointRef>)
    ensures
        r@ == trusted(cs@, partial_state_only),
{
    if !partial_state_only {
        return cs;
    }
    let mut out: Vec<CheckpointRef> = Vec::new();
    for i in 0..cs.len()
        invariant
            out@ == durable_of(cs@.take(i as int)),
    {
        assert(cs@.take(i as int + 1).drop_last() =~= cs@.take(i as int));
        if durable(&cs[i]) {
            out.push(cs[i].clone());
        }
    }
    assert(cs@.take(cs@.len() as int) =~= cs@);
    out
}

/// The lowest position of a non-empty list.
pub open spec fn lowest(cs: Seq<CheckpointRef>) -> i64
    recommends
        cs.len() > 0,
    decreases cs.len(),
{
    if cs.len() <= 1 {
        cs[0].token_position
    } else {
        let rest = lowest(cs.drop_last());
        if cs.last().token_position < rest {
            cs.last().token_position
        } else {
            rest
        }
    }
}

fn find_lowest(cs: &Vec<CheckpointRef>) -> (r: i64)
    requires
        cs@.len() > 0,
    ensures
        r == lowest(cs@),
{
    let mut least: i64 = cs[0].token_position;
    assert(cs@.take(1).last() == cs@[0]);
    for i in 1..cs.len()
        invariant
            cs@.len() > 0,
            least == lowest(cs@.take(i as int)),
    {
        assert(cs@.take(i as int + 1).drop_last() =~= cs@.take(i as int));
        if cs[i].token_position < least {
            least = cs[i].token_position;
        }
    }
    assert(cs@.take(cs@.len() as int) =~= cs@);
    least
}

/// The decision about a cut, before it is written up as a plan.
pub enum Verdict {
    /// Nothing can be aligned to, for this reason.
    Rewrite { reason: Seq<char> },
    /// The cut falls at a position the server holds.
    Aligned { at: i64, snap: SnapReason },
    /// Checkpoints exist but none serves this cut.
    Unaligned { nearest: Option<i64>, why: Seq<char> },
}

/// The layer: its configuration, and what the server can do.
#[derive(Debug, Clone, Copy)]
pub struct Coherence {
    pub capabilities: CapabilitySet,
    pub config: CoherenceConfig,
}

/// What is known of a slot: its state, or why it could not be read.
pub enum SlotReading<'a> {
    State(&'a SlotState),
    Unreadable(&'a Error),
}

impl Coherence {
    pub fn new(capabilities: CapabilitySet, config: CoherenceConfig) -> (r: Self)
        ensures
            r.capabilities == capabilities,
            r.config == config,
    {
        Coherence { capabilities, config }
    }

    /// What the server can do.
    pub fn capabilities(&self) -> (r: CapabilitySet)
        ensures
            r == self.capabilities,
    {
        self.capabilities
    }

    /// The configuration in force.
    pub fn config(&self) -> (r: &CoherenceConfig)
        ensures
            *r == self.config,
    {
        &self.config
    }

    /// How far a cut may move back to reach a checkpoint.
    pub fn snap_tolerance_tokens(&self) -> (r: i64)
        ensures
            r == self.config.snap_tolerance_tokens,
    {
        self.config.snap_tolerance_tokens
    }

    /// The checkpoints that a cut could be aligned to, by position.
    pub open spec fn alignable(self, slot: SlotReading, recorded: Seq<CheckpointRef>) -> Seq<
        CheckpointRef,
    > {
        match slot {
            SlotReading::State(s) => if self.capabilities.reachable {
                trusted(
                    stably_sorted(merged(s.checkpoints@, recorded)),
                    self.capabilities.partial_state_only,
                )
            } else {
                Seq::empty()
            },
            SlotReading::Unreadable(_) => Seq::empty(),
        }
    }

    /// Every checkpoint the layer would consider for a slot: the ring and the recorded save
    /// points, by position, limited to what the model may be rewound to.
    pub fn usable_checkpoints(&self, slot: SlotReading, recorded: &[CheckpointRef]) -> (r: Vec<
        CheckpointRef,
    >)
        ensures
            r@ == self.alignable(slot, recorded@),
    {
        match slot {
            SlotReading::State(s) => {
                if !self.capabilities.reachable {
                    return Vec::new();
                }
                let all = merge(s.checkpoints.as_slice(), recorded);
                keep_trusted(stable_sort(all), self.capabilities.partial_state_only)
            },
            SlotReading::Unreadable(_) => Vec::new(),
        }
    }

    /// How far into the token stream the slot holds state: what the server reports or what
    /// was recorded, whichever is further.
    pub open spec fn live_position(state: SlotState, bookkept: Option<i64>) -> i64 {
        let known = match bookkept {
            Some(b) => b,
            None => 0,
        };
        if state.n_past > known {
            state.n_past
        } else {
            known
        }
    }

    /// Where a cut at `requested` should fall.
    ///
    /// In this order: the position the slot itself holds, when it is at or before the cut; a
    /// checkpoint exactly at the cut; the latest checkpoint before it within the tolerance.
    /// Otherwise the cut is not aligned, and the explanation tells whether the ring already
    /// starts after it.
    pub open spec fn verdict(
        self,
        slot: SlotReading,
        recorded: Seq<CheckpointRef>,
        bookkept: Option<i64>,
        requested: i64,
    ) -> Verdict {
        if !self.capabilities.reachable {
            Verdict::Rewrite {
                reason: "backend unreachable; every compaction is a full re-prefill"@,
            }
        } else {
            match slot {
                SlotReading::Unreadable(e) => Verdict::Rewrite {
                    reason: "slot state unavailable ("@ + (e.heading() + e.detail())
                        + "); full re-prefill"@,
                },
                SlotReading::State(state) => {
                    let all = merged(state.checkpoints@, recorded);
                    let usable = trusted(all, self.capabilities.partial_state_only);
                    let live = Self::live_position(*state, bookkept);
                    if all.len() == 0 {
                        Verdict::Rewrite {
                            reason: "no checkpoints are available on this backend/session; full re-prefill"@,
                        }
                    } else if usable.len() == 0 {
                        Verdict::Rewrite {
                            reason: "model checkpoints carry only partial state (SWA/hybrid) and no durable save point exists; full re-prefill is the safe path"@,
                        }
                    } else if 0 < live <= requested {
                        Verdict::Aligned {
                            at: live,
                            snap: SnapReason::InternalCheckpoint {
                                delta: (requested - live) as i64,
                            },
                        }
                    } else if exists|i: int|
                        0 <= i < usable.len() && (#[trigger] usable[i]).token_position == requested {
                        Verdict::Aligned {
                            at: requested,
                            snap: SnapReason::InternalCheckpoint { delta: 0 },
                        }
                    } else {
                        match snap(requested, usable, self.config.snap_tolerance_tokens) {
                            Some((at, reason)) => Verdict::Aligned { at, snap: reason },
                            None => {
                                let below = latest_within(
                                    usable,
                                    i64::MIN as int,
                                    requested as int,
                                );
                                Verdict::Unaligned {
                                    nearest: match below {
                                        Some(c) => Some(c.token_position),
                                        None => None,
                                    },
                                    why: if below is None && lowest(usable) > requested {
                                        "the retained checkpoint ring starts at "@ + signed_digits(
                                            lowest(usable) as int,
                                        ) + ", past the requested boundary of "@ + signed_digits(
                                            requested as int,
                                        )
                                            + ": the prefix below the cut has already been dropped by the server, so none of it is reusable. Moving the boundary forward onto a checkpoint is the only way this compaction can reuse anything"@
                                    } else {
                                        "no checkpoint is within the "@ + signed_digits(
                                            self.config.snap_tolerance_tokens as int,
                                        ) + "-token tolerance of the requested boundary"@
                                    },
                                }
                            },
                        }
                    }
                },
            }
        }
    }

    /// How many checkpoints an aligned plan says it considered.
    pub open spec fn considered(self, slot: SlotReading, recorded: Seq<CheckpointRef>) -> nat {
        match slot {
            SlotReading::State(state) => trusted(
                merged(state.checkpoints@, recorded),
                self.capabilities.partial_state_only,
            ).len(),
            SlotReading::Unreadable(_) => 0,
        }
    }

    /// Decides where a proposed cut should fall.
    ///
    /// `requested_cut` is a position in the original token stream: everything before it is
    /// the prefix that the caller means to keep. `bookkept` is how many tokens the slot was
    /// last recorded to hold.
    pub fn plan_boundary(
        &self,
        slot: SlotReading,
        recorded: &[CheckpointRef],
        bookkept: Option<i64>,
        requested_cut: i64,
    ) -> (p: BoundaryPlan)
        requires
            self.verdict(slot, recorded@, bookkept, requested_cut) matches Verdict::Unaligned {
                nearest: Some(n),
                ..
            } ==> difference_fits(requested_cut, n),
        ensures
            p.requested_cut == requested_cut,
            p.coherent(),
            p.partial_state_only == self.capabilities.partial_state_only,
            match self.verdict(slot, recorded@, bookkept, requested_cut) {
                Verdict::Rewrite { reason } => {
                    &&& p.status == CacheStatus::FullRePrefill
                    &&& p.action == CoherenceAction::EvictAndAcceptReprefill
                    &&& p.aligned_cut is None && p.nearest_cut is None && p.snap is None
                    &&& p.reason@ == reason
                    &&& p.candidates_considered == 0
                    &&& p.tolerance_tokens == 0
                },
                Verdict::Aligned { at, snap } => {
                    &&& p.status == CacheStatus::PartialReuse
                    &&& p.action == CoherenceAction::EvictAtAlignedBoundary
                    &&& p.aligned_cut == Some(at) && p.nearest_cut == Some(at)
                    &&& p.snap == Some(snap)
                    &&& p.reason@ == BoundaryPlan::aligned_text(snap)
                    &&& p.candidates_considered == self.considered(slot, recorded@)
                    &&& p.tolerance_tokens == 0
                },
                Verdict::Unaligned { nearest, why } => {
                    &&& p.status == CacheStatus::FullRePrefill
                    &&& p.action == CoherenceAction::SnapshotThenEvict
                    &&& p.aligned_cut is None && p.nearest_cut == nearest && p.snap is None
                    &&& p.reason@ == BoundaryPlan::unaligned_text(
                        requested_cut,
                        nearest,
                        self.config.snap_tolerance_tokens,
                        why,
                    )
                    &&& p.candidates_considered == 0
                    &&& p.tolerance_tokens == self.config.snap_tolerance_tokens
                },
            },
    {
        let partial: bool = self.capabilities.partial_state_only;
        if !self.capabilities.reachable {
            return BoundaryPlan::full_rewrite(
                requested_cut,
                "backend unreachable; every compaction is a full re-prefill",
            ).for_model(partial);
        }
        let state: &SlotState = match slot {
            SlotReading::State(s) => s,
            SlotReading::Unreadable(e) => {
                let mut reason = String::from_str("slot state unavailable (");
                let shown = e.to_string();
                reason.append(shown.as_str());
                reason.append("); full re-prefill");
                return BoundaryPlan::full_rewrite(requested_cut, reason.as_str()).for_model(
                    partial,
                );
            },
        };
        let all = merge(state.checkpoints.as_slice(), recorded);
        let known: i64 = match bookkept {
            Some(b) => b,
            None => 0,
        };
        let live: i64 = if state.n_past > known {
            state.n_past
        } else {
            known
        };
        if all.len() == 0 {
            return BoundaryPlan::full_rewrite(
                requested_cut,
                "no checkpoints are available on this backend/session; full re-prefill",
            ).for_model(partial);
        }
        let usable = keep_trusted(all, partial);
        if usable.len() == 0 {
            return BoundaryPlan::full_rewrite(
                requested_cut,
                "model checkpoints carry only partial state (SWA/hybrid) and no durable save point exists; full re-prefill is the safe path",
            ).for_model(partial);
        }
        if live > 0 && live <= requested_cut {
            return BoundaryPlan::aligned(
                requested_cut,
                live,
                SnapReason::InternalCheckpoint { delta: requested_cut - live },
                usable.len(),
                partial,
            );
        }
        if holds_position(&usable, requested_cut) {
            return BoundaryPlan::aligned(
                requested_cut,
                requested_cut,
                SnapReason::InternalCheckpoint { delta: 0 },
                usable.len(),
                partial,
            );
        }
        proof {
            latest_within_is_the_maximum(usable@, 1, requested_cut as int);
        }
        match snap_to_checkpoint(
            requested_cut,
            usable.as_slice(),
            self.config.snap_tolerance_tokens,
        ) {
            Some((aligned, reason)) => {
                return BoundaryPlan::aligned(requested_cut, aligned, reason, usable.len(), partial);
            },
            None => {},
        }
        let nearest: Option<i64> = position_at_or_before(&usable, requested_cut);
        let start: i64 = find_lowest(&usable);
        let why = if nearest.is_none() && start > requested_cut {
            let mut s = String::from_str("the retained checkpoint ring starts at ");
            push_int(&mut s, start);
            s.append(", past the requested boundary of ");
            push_int(&mut s, requested_cut);
            s.append(
                ": the prefix below the cut has already been dropped by the server, so none of it is reusable. Moving the boundary forward onto a checkpoint is the only way this compaction can reuse anything",
            );
            s
        } else {
            let mut s = String::from_str("no checkpoint is within the ");
            push_int(&mut s, self.config.snap_tolerance_tokens);
            s.append("-token tolerance of the requested boundary");
            s
        };
        BoundaryPlan::unaligned_reason(
            requested_cut,
            nearest,
            self.config.snap_tolerance_tokens,
            why.as_str(),
        ).for_model(partial)
    }
}

/// Whether a checkpoint lies exactly at `position`.
fn holds_position(cs: &Vec<CheckpointRef>, position: i64) -> (r: bool)
    ensures
        r == (exists|i: int|
            0 <= i < cs@.len() && (#[trigger] cs@[i]).token_position == position),
{
    for i in 0..cs.len()
        invariant
            forall|j: int| 0 <= j < i ==> (#[trigger] cs@[j]).token_position != position,
    {
        if cs[i].token_position == position {
            return true;
        }
    }
    false
}

/// The latest checkpoint position at or before `position`.
fn position_at_or_before(cs: &Vec<CheckpointRef>, position: i64) -> (r: Option<i64>)
    ensures
        r == (match latest_within(cs@, i64::MIN as int, position as int) {
            Some(c) => Some(c.token_position),
            None => None,
        }),
{
    match crate::llama::find_latest(cs.as_slice(), i64::MIN, position) {
        Some(i) => Some(cs[i].token_position),
        None => None,
    }
}

/// How many leading characters two texts share.
pub open spec fn shared_len(a: Seq<char>, b: Seq<char>) -> nat
    decreases a.len(),
{
    if a.len() > 0 && b.len() > 0 && a[0] == b[0] {
        1 + shared_len(a.drop_first(), b.drop_first())
    } else {
        0
    }
}

/// The shared length is that of a common prefix, and the texts differ or end right after it.
pub proof fn shared_len_is_the_longest_common_prefix(a: Seq<char>, b: Seq<char>)
    ensures
        shared_len(a, b) <= a.len(),
        shared_len(a, b) <= b.len(),
        a.take(shared_len(a, b) as int) == b.take(shared_len(a, b) as int),
        shared_len(a, b) < a.len() && shared_len(a, b) < b.len() ==> a[shared_len(a, b) as int]
            != b[shared_len(a, b) as int],
    decreases a.len(),
{
    if a.len() > 0 && b.len() > 0 && a[0] == b[0] {
        let x = a.drop_first();
        let y = b.drop_first();
        shared_len_is_the_longest_common_prefix(x, y);
        let n = shared_len(a, b) as int;
        assert(n == shared_len(x, y) + 1);
        assert forall|i: int| 0 <= i < n implies a[i] == b[i] by {
            if i > 0 {
                assert(x.take(n - 1)[i - 1] == y.take(n - 1)[i - 1]);
                assert(a[i] == x[i - 1] && b[i] == y[i - 1]);
            }
        }
        assert(a.take(n) =~= b.take(n));
        if n < a.len() && n < b.len() {
            assert(a[n] == x[n - 1] && b[n] == y[n - 1]);
        }
    } else {
        assert(a.take(0) =~= b.take(0));
    }
}

/// Tokens shared between `retained` and `prompt` from the start.
///
/// A slot with no recorded state can reuse nothing.
pub fn common_prefix_tokens(retained: &str, prompt: &str, counter: &TokenCounter) -> (r: usize)
    ensures
        r == counter.of(prompt@.take(shared_len(retained@, prompt@) as int)),
{
    let a = chars_of(retained);
    let b = chars_of(prompt);
    let mut n: usize = 0;
    assert(a@.skip(0) =~= a@);
    assert(b@.skip(0) =~= b@);
    while n < a.len() && n < b.len() && a[n] == b[n]
        invariant
            n <= a@.len(),
            n <= b@.len(),
            shared_len(a@, b@) == n + shared_len(a@.skip(n as int), b@.skip(n as int)),
        decreases a.len() - n,
    {
        assert(a@.skip(n as int).drop_first() =~= a@.skip(n as int + 1));
        assert(b@.skip(n as int).drop_first() =~= b@.skip(n as int + 1));
        n = n + 1;
    }
    counter.count_chars(n).get()
}

/// A shared prefix never counts for more than the prompt itself.
pub proof fn a_shared_prefix_is_within_the_prompt(
    retained: Seq<char>,
    prompt: Seq<char>,
    counter: TokenCounter,
)
    ensures
        counter.of(prompt.take(shared_len(retained, prompt) as int)) <= counter.of(prompt),
{
    shared_len_is_the_longest_common_prefix(retained, prompt);
    crate::tokens::count_is_monotonic(
        counter,
        prompt.take(shared_len(retained, prompt) as int),
        prompt,
    );
}

impl CheckpointKind {
    /// The name a checkpoint's kind is stored under.
    pub open spec fn name(self) -> Seq<char> {
        match self {
            CheckpointKind::Internal => "internal_checkpoint"@,
            CheckpointKind::SlotSaveFile => "slot_save_file"@,
            CheckpointKind::FoldMarker => "fold_marker"@,
            CheckpointKind::PreRewrite => "pre_rewrite"@,
        }
    }

    /// The kind a stored name stands for; an unknown name stands for a ring entry.
    pub open spec fn named(name: Seq<char>) -> CheckpointKind {
        if name == "slot_save_file"@ {
            CheckpointKind::SlotSaveFile
        } else if name == "fold_marker"@ {
            CheckpointKind::FoldMarker
        } else if name == "pre_rewrite"@ {
            CheckpointKind::PreRewrite
        } else {
            CheckpointKind::Internal
        }
    }

    /// The name a checkpoint's kind is stored under.
    pub fn as_str(self) -> (r: &'static str)
        ensures
            r@ == self.name(),
    {
        match self {
            CheckpointKind::Internal => "internal_checkpoint",
            CheckpointKind::SlotSaveFile => "slot_save_file",
            CheckpointKind::FoldMarker => "fold_marker",
            CheckpointKind::PreRewrite => "pre_rewrite",
        }
    }

    /// The kind a stored name stands for.
    pub fn from_stored(name: &str) -> (r: Self)
        ensures
            r == Self::named(name@),
    {
        if same(name, "slot_save_file") {
            CheckpointKind::SlotSaveFile
        } else if same(name, "fold_marker") {
            CheckpointKind::FoldMarker
        } else if same(name, "pre_rewrite") {
            CheckpointKind::PreRewrite
        } else {
            CheckpointKind::Internal
        }
    }
}

/// A stored kind reads back as itself.
pub proof fn checkpoint_kinds_round_trip(kind: CheckpointKind)
    ensures
        CheckpointKind::named(kind.name()) == kind,
{
    reveal_strlit("internal_checkpoint");
    reveal_strlit("slot_save_file");
    reveal_strlit("fold_marker");
    reveal_strlit("pre_rewrite");
    assert("internal_checkpoint"@.len() == 19 && "slot_save_file"@.len() == 14);
    assert("fold_marker"@.len() == 11 && "pre_rewrite"@.len() == 11);
    assert("fold_marker"@[0] == 'f' && "pre_rewrite"@[0] == 'p');
}

/// The checkpoint that a save amounts to: named by its file, or else by the save's id.
pub open spec fn is_checkpoint_of(
    c: CheckpointRef,
    outcome: SnapshotOutcome,
    position: int,
    kind: CheckpointKind,
) -> bool {
    &&& c.id@ == (match outcome.file_path {
        Some(p) => p@,
        None => outcome.snapshot_id@,
    })
    &&& c.token_position == position
    &&& c.kind == kind
    &&& c.size_bytes == outcome.size_bytes
}

fn checkpoint_of(outcome: &SnapshotOutcome, position: i64, kind: CheckpointKind) -> (c:
    CheckpointRef)
    ensures
        is_checkpoint_of(c, *outcome, position as int, kind),
{
    let id = match &outcome.file_path {
        Some(p) => p.clone(),
        None => outcome.snapshot_id.clone(),
    };
    CheckpointRef { id, token_position: position, kind, size_bytes: outcome.size_bytes }
}

/// The index of the first save from `k` on that was taken at a position.
pub open spec fn save_at(saves: Seq<(i64, String)>, position: i64, k: int) -> Option<int>
    decreases saves.len() - k,
{
    if k >= saves.len() {
        None
    } else if saves[k].0 == position {
        Some(k)
    } else {
        save_at(saves, position, k + 1)
    }
}

/// The save to go back to a position by: the first that was taken there, else the first of all.
pub open spec fn chosen_save(saves: Seq<(i64, String)>, position: i64) -> Option<Seq<char>> {
    match save_at(saves, position, 0) {
        Some(i) => Some(saves[i].1@),
        None => if saves.len() > 0 {
            Some(saves[0].1@)
        } else {
            None
        },
    }
}

fn pick_save(saves: &[(i64, String)], position: i64) -> (r: Option<String>)
    ensures
        match chosen_save(saves@, position) {
            Some(path) => r matches Some(p) && p@ == path,
            None => r is None,
        },
{
    for i in 0..saves.len()
        invariant
            save_at(saves@, position, 0) == save_at(saves@, position, i as int),
    {
        if saves[i].0 == position {
            return Some(saves[i].1.clone());
        }
    }
    if saves.len() > 0 {
        Some(saves[0].1.clone())
    } else {
        None
    }
}

/// The next step of a rollback.
#[derive(Debug, Clone)]
pub enum RollBackStep {
    /// Nothing more to do.
    Done(RollBackOutcome),
    /// Restore the slot from this file, and report what came of it.
    Restore(String),
}

/// The tokens a slot is recorded to hold, or what the server reports, or none.
pub open spec fn held_tokens(retained: Option<i64>, state: Option<&SlotState>) -> i64 {
    match retained {
        Some(r) => r,
        None => match state {
            Some(s) => s.n_past,
            None => 0,
        },
    }
}

impl CoherenceConfig {
    /// Whether a save is asked for before a cut: before a rewrite that cannot be avoided, and
    /// before an aligned cut where that is switched on as well.
    pub open spec fn saves(self, action: CoherenceAction) -> bool {
        match action {
            CoherenceAction::SnapshotThenEvict => self.snapshot_before_rewrite,
            CoherenceAction::EvictAtAlignedBoundary => self.snapshot_even_when_aligned,
            _ => false,
        }
    }

    /// Whether a save is asked for before a cut.
    pub fn asks_for_save(&self, action: CoherenceAction) -> (r: bool)
        ensures
            r == self.saves(action),
    {
        match action {
            CoherenceAction::SnapshotThenEvict => self.snapshot_before_rewrite,
            CoherenceAction::EvictAtAlignedBoundary => self.snapshot_even_when_aligned,
            _ => false,
        }
    }
}

impl Coherence {
    /// Whether to save the slot before a cut: that is asked for, the server can do it, and the
    /// disk is not known to be short of space.
    pub fn saves_before(&self, action: CoherenceAction, free_disk: Option<u64>) -> (r: bool)
        ensures
            r == (self.config.saves(action) && self.capabilities.slot_save && (
            free_disk matches Some(free) ==> free >= self.config.min_free_disk_bytes)),
    {
        if !self.config.asks_for_save(action) || !self.capabilities.slot_save {
            return false;
        }
        match free_disk {
            Some(free) => free >= self.config.min_free_disk_bytes,
            None => true,
        }
    }

    /// The checkpoint that a save before a rewrite amounts to.
    ///
    /// It is placed where the last plan left the slot; the server's own count may include
    /// tokens that it generated, so it is used only where nothing was recorded.
    pub fn pre_rewrite_snapshot(
        &self,
        retained: Option<i64>,
        state: Option<&SlotState>,
        outcome: &SnapshotOutcome,
    ) -> (c: CheckpointRef)
        ensures
            is_checkpoint_of(
                c,
                *outcome,
                held_tokens(retained, state) as int,
                CheckpointKind::PreRewrite,
            ),
    {
        let position: i64 = match retained {
            Some(r) => r,
            None => match state {
                Some(s) => s.n_past,
                None => 0,
            },
        };
        checkpoint_of(outcome, position, CheckpointKind::PreRewrite)
    }

    /// The checkpoint that an explicitly requested save amounts to.
    pub fn snapshot(&self, state: Option<&SlotState>, outcome: &SnapshotOutcome) -> (c:
        CheckpointRef)
        ensures
            is_checkpoint_of(
                c,
                *outcome,
                held_tokens(None, state) as int,
                CheckpointKind::SlotSaveFile,
            ),
    {
        let position: i64 = match state {
            Some(s) => s.n_past,
            None => 0,
        };
        checkpoint_of(outcome, position, CheckpointKind::SlotSaveFile)
    }

    /// The verdict to record for a slot after a restore.
    pub fn restore(&self, outcome: &RestoreOutcome) -> (r: CacheStatus)
        ensures
            r == (if outcome.restored {
                CacheStatus::WarmRestored
            } else {
                CacheStatus::Cold
            }),
    {
        if outcome.restored {
            CacheStatus::WarmRestored
        } else {
            CacheStatus::Cold
        }
    }

    /// The marker to record when a fold is opened at `token_position`.
    pub fn mark_fold_open(&self, fold_id: &str, token_position: i64) -> (c: CheckpointRef)
        ensures
            c.id@ == fold_id@,
            c.token_position == token_position,
            c.kind == CheckpointKind::FoldMarker,
            c.size_bytes is None,
    {
        CheckpointRef {
            id: fold_id.to_owned(),
            token_position,
            kind: CheckpointKind::FoldMarker,
            size_bytes: None,
        }
    }

    /// The save files to drop, given a slot's files from the newest to the oldest: all but
    /// the newest few that the policy keeps.
    pub fn prune_snapshots(&self, newest_first: &Vec<String>) -> (r: Vec<String>)
        ensures
            r@ == newest_first@.skip(
                if newest_first@.len() < self.config.snapshot_retention_per_slot {
                    newest_first@.len() as int
                } else {
                    self.config.snapshot_retention_per_slot as int
                },
            ),
            newest_first@.len() - r@.len() <= self.config.snapshot_retention_per_slot,
    {
        let mut out: Vec<String> = Vec::new();
        let n: usize = newest_first.len();
        let start: usize = if n < self.config.snapshot_retention_per_slot {
            n
        } else {
            self.config.snapshot_retention_per_slot
        };
        let mut i: usize = start;
        while i < n
            invariant
                start <= i <= n == newest_first@.len(),
                out@ == newest_first@.subrange(start as int, i as int),
            decreases n - i,
        {
            out.push(newest_first[i].clone());
            i = i + 1;
        }
        assert(newest_first@.subrange(start as int, n as int) =~= newest_first@.skip(start as int));
        out
    }

    /// Whether a save file may be deleted, by the directory it stands in: only where the
    /// directory's name shows that this program wrote it.
    pub fn may_delete(&self, dir: Option<&str>) -> (r: bool)
        ensures
            r == (match dir {
                Some(d) => contains_text(lowered(d@), "sakur4"@),
                None => false,
            }),
    {
        match dir {
            Some(d) => {
                let small = to_lowercase(d);
                contains(small.as_str(), "sakur4")
            },
            None => false,
        }
    }

    /// What is stored about an applied plan: the hash of the retained prefix and the plan.
    pub open spec fn detail_text(retained_prefix: Seq<char>, plan_json: Seq<char>) -> Seq<char> {
        short_hash_of_text(retained_prefix).push('|') + plan_json
    }

    /// Composes what is stored about an applied plan, and the tokens it retained.
    pub fn record_plan(
        &self,
        retained_prefix: &str,
        plan_json: &str,
        counter: &TokenCounter,
    ) -> (r: (usize, String))
        ensures
            r.0 == counter.of(retained_prefix@),
            r.1@ == Self::detail_text(retained_prefix@, plan_json@),
            first_at(r.1@, '|') == Some(16int),
            r.1@.take(16) == short_hash_of_text(retained_prefix@),
    {
        let mut detail = short_hash_str(retained_prefix);
        proof {
            assert forall|j: int| 0 <= j < detail@.len() implies #[trigger] detail@[j] != '|' by {
                assert(crate::ids::is_hex(detail@[j]));
            }
            stored_detail_comes_apart(detail@, plan_json@);
        }
        detail.push('|');
        detail.append(plan_json);
        (counter.count(retained_prefix).get(), detail)
    }

    /// Takes apart what is stored about an applied plan: the hash and the plan's text, both
    /// empty where the separator is missing.
    pub fn split_detail(detail: &str) -> (r: (String, String))
        ensures
            match first_at(detail@, '|') {
                Some(i) => r.0@ == detail@.take(i) && r.1@ == detail@.skip(i + 1),
                None => r.0@.len() == 0 && r.1@.len() == 0,
            },
    {
        match split_once(detail, '|') {
            Some(parts) => parts,
            None => (String::new(), String::new()),
        }
    }

    /// What the slot is recorded to hold decides how much of a prompt it can reuse.
    ///
    /// `recorded` is the hash and the plan stored for the slot, where something is stored;
    /// the plan is absent where it could not be read.
    pub fn observe_prompt(
        &self,
        slot_id: &str,
        prompt: &str,
        counter: &TokenCounter,
        recorded: Option<(&str, Option<&BoundaryPlan>)>,
    ) -> (o: PromptObservation)
        ensures
            o.slot_id@ == slot_id@,
            o.prompt_tokens == counter.of(prompt@),
            o.prefilled_tokens == at_least_zero(o.prompt_tokens - o.reused_tokens),
            o.prompt_eval_ms is None,
            match recorded {
                None => {
                    &&& o.cache_status == CacheStatus::Cold
                    &&& o.reused_tokens == 0
                    &&& o.detail@ == "no prior state recorded for this slot; expect a cold prefill"@
                },
                Some((hash, None)) => {
                    &&& o.cache_status == CacheStatus::Cold
                    &&& o.reused_tokens == 0
                    &&& o.detail@ == "slot state present but unreadable; treating as cold"@
                },
                Some((hash, Some(plan))) => {
                    let held = match plan.aligned_cut {
                        Some(a) => a as int,
                        None => 0,
                    };
                    let kept = at_least_zero(held);
                    match plan.status {
                        CacheStatus::PartialReuse => {
                            let reused = if kept < o.prompt_tokens {
                                kept as int
                            } else {
                                o.prompt_tokens as int
                            };
                            &&& o.cache_status == CacheStatus::PartialReuse
                            &&& o.reused_tokens == reused
                            &&& o.detail@ == "slot retained "@ + digits(kept)
                                + " tokens at checkpoint "@ + signed_digits(held) + " (hash "@
                                + hash@ + "); "@ + digits(reused as nat)
                                + " tokens reused from the LCP, "@ + digits(
                                at_least_zero(o.prompt_tokens - kept),
                            ) + " prefilled"@
                        },
                        CacheStatus::WarmRestored => {
                            &&& o.cache_status == CacheStatus::WarmRestored
                            &&& o.reused_tokens == kept
                            &&& o.detail@ == "slot was warm-restored ("@ + hash@
                                + "); prefix reuse expected"@
                        },
                        _ => {
                            &&& o.cache_status == CacheStatus::FullRePrefill
                            &&& o.reused_tokens == 0
                            &&& o.detail@ == plan.reason@ + " Full re-prefill of "@ + digits(
                                o.prompt_tokens as nat,
                            ) + " tokens"@
                        },
                    }
                },
            },
    {
        let prompt_tokens: usize = counter.count(prompt).get();
        let (status, reused, detail): (CacheStatus, usize, String) = match recorded {
            None => (
                CacheStatus::Cold,
                0,
                "no prior state recorded for this slot; expect a cold prefill".to_owned(),
            ),
            Some((hash, None)) => (
                CacheStatus::Cold,
                0,
                "slot state present but unreadable; treating as cold".to_owned(),
            ),
            Some((hash, Some(plan))) => {
                let held: i64 = match plan.aligned_cut {
                    Some(a) => a,
                    None => 0,
                };
                let kept: usize = nonnegative(held);
                match plan.status {
                    CacheStatus::PartialReuse => {
                        let reused: usize = if kept < prompt_tokens {
                            kept
                        } else {
                            prompt_tokens
                        };
                        let fresh: usize = if kept < prompt_tokens {
                            prompt_tokens - kept
                        } else {
                            0
                        };
                        let mut d = String::from_str("slot retained ");
                        push_nat(&mut d, kept as u64);
                        d.append(" tokens at checkpoint ");
                        push_int(&mut d, held);
                        d.append(" (hash ");
                        d.append(hash);
                        d.append("); ");
                        push_nat(&mut d, reused as u64);
                        d.append(" tokens reused from the LCP, ");
                        push_nat(&mut d, fresh as u64);
                        d.append(" prefilled");
                        (CacheStatus::PartialReuse, reused, d)
                    },
                    CacheStatus::WarmRestored => {
                        let mut d = String::from_str("slot was warm-restored (");
                        d.append(hash);
                        d.append("); prefix reuse expected");
                        (CacheStatus::WarmRestored, kept, d)
                    },
                    _ => {
                        let mut d = plan.reason.clone();
                        d.append(" Full re-prefill of ");
                        push_nat(&mut d, prompt_tokens as u64);
                        d.append(" tokens");
                        (CacheStatus::FullRePrefill, 0, d)
                    },
                }
            },
        };
        let prefilled: usize = if reused < prompt_tokens {
            prompt_tokens - reused
        } else {
            0
        };
        PromptObservation {
            slot_id: slot_id.to_owned(),
            cache_status: status,
            prompt_tokens,
            reused_tokens: reused,
            prefilled_tokens: prefilled,
            prompt_eval_ms: None,
            detail,
        }
    }

    /// How to bring a slot back to `target_tokens`: by the ring where it still holds that
    /// very position and rewinding is safe, else from a save file. `saves` holds the position
    /// and the path of each, the newest first. The one that was taken at the target is chosen,
    /// and where there is none the newest.
    pub fn roll_back_to(
        &self,
        slot_id: &str,
        state: Option<&SlotState>,
        saves: &[(i64, String)],
        target_tokens: i64,
    ) -> (step: RollBackStep)
        ensures
            ({
                let on_ring = state matches Some(s) && exists|i: int|
                    0 <= i < s.checkpoints@.len() && (
                    #[trigger] s.checkpoints@[i]).token_position == target_tokens;
                if !self.capabilities.reachable {
                    step matches RollBackStep::Done(o) && !o.performed && o.method
                        == RollBackMethod::Nothing && o.detail@
                        == "backend unreachable; rollback skipped"@
                } else if on_ring && !self.capabilities.partial_state_only {
                    step matches RollBackStep::Done(o) && o.performed && o.method
                        == RollBackMethod::RingRewind && o.detail@ == "slot "@ + slot_id@
                        + " retained a ring checkpoint at "@ + signed_digits(target_tokens as int)
                        + " tokens; the next request with that prefix rewinds in place"@
                } else {
                    match chosen_save(saves@, target_tokens) {
                        Some(path) => step matches RollBackStep::Restore(p) && p@ == path,
                        None => step matches RollBackStep::Done(o) && !o.performed && o.method
                            == RollBackMethod::Nothing && o.detail@
                            == "no usable checkpoint or save file; next turn pays full prefill"@,
                    }
                }
            }),
    {
        if !self.capabilities.reachable {
            return RollBackStep::Done(
                RollBackOutcome {
                    performed: false,
                    method: RollBackMethod::Nothing,
                    detail: "backend unreachable; rollback skipped".to_owned(),
                },
            );
        }
        match state {
            Some(s) => {
                proof {
                    latest_within_is_the_maximum(
                        s.checkpoints@,
                        i64::MIN as int,
                        target_tokens as int,
                    );
                }
                match s.nearest_checkpoint_at_or_before(target_tokens) {
                    Some(cp) => {
                        if cp.token_position == target_tokens
                            && !self.capabilities.partial_state_only {
                            let mut detail = String::from_str("slot ");
                            detail.append(slot_id);
                            detail.append(" retained a ring checkpoint at ");
                            push_int(&mut detail, cp.token_position);
                            detail.append(
                                " tokens; the next request with that prefix rewinds in place",
                            );
                            return RollBackStep::Done(
                                RollBackOutcome {
                                    performed: true,
                                    method: RollBackMethod::RingRewind,
                                    detail,
                                },
                            );
                        }
                    },
                    None => {},
                }
            },
            None => {},
        }
        match pick_save(saves, target_tokens) {
            Some(path) => RollBackStep::Restore(path),
            None => RollBackStep::Done(
                RollBackOutcome {
                    performed: false,
                    method: RollBackMethod::Nothing,
                    detail: "no usable checkpoint or save file; next turn pays full prefill".to_owned(),
                },
            ),
        }
    }

    /// What came of restoring the slot from `path`.
    pub fn rolled_back_by_restore(path: &str, result: Result<&RestoreOutcome, &Error>) -> (o:
        RollBackOutcome)
        ensures
            match result {
                Ok(r) => {
                    &&& o.performed == r.restored
                    &&& o.method == RollBackMethod::SlotRestore
                    &&& o.detail@ == "restored slot state from "@ + path@ + " in "@ + signed_digits(
                        r.restore_time_ms as int,
                    ) + " ms"@
                },
                Err(e) => {
                    &&& !o.performed
                    &&& o.method == RollBackMethod::Nothing
                    &&& o.detail@ == "restore from "@ + path@ + " failed ("@ + (e.heading()
                        + e.detail()) + "); next turn pays full prefill"@
                },
            },
    {
        match result {
            Ok(r) => {
                let mut detail = String::from_str("restored slot state from ");
                detail.append(path);
                detail.append(" in ");
                push_int(&mut detail, r.restore_time_ms);
                detail.append(" ms");
                RollBackOutcome {
                    performed: r.restored,
                    method: RollBackMethod::SlotRestore,
                    detail,
                }
            },
            Err(e) => {
                let mut detail = String::from_str("restore from ");
                detail.append(path);
                detail.append(" failed (");
                let shown = e.to_string();
                detail.append(shown.as_str());
                detail.append("); next turn pays full prefill");
                RollBackOutcome { performed: false, method: RollBackMethod::Nothing, detail }
            },
        }
    }

    /// The one-line status of a slot.
    pub fn status_line(&self, backend: &str, recorded_status: Option<&str>) -> (r: String)
        ensures
            r@ == "backend="@ + backend@ + " caps="@ + self.capabilities.summary_text() + " last="@
                + (match recorded_status {
                Some(s) => s@,
                None => "unknown"@,
            }),
    {
        let mut out = String::from_str("backend=");
        out.append(backend);
        out.append(" caps=");
        let caps = self.capabilities.summary();
        out.append(caps.as_str());
        out.append(" last=");
        match recorded_status {
            Some(s) => out.append(s),
            None => out.append("unknown"),
        }
        out
    }
}

/// What is stored about a plan comes apart into the hash and the plan's text, for any hash
/// that does not hold the separator.
pub proof fn stored_detail_comes_apart(hash: Seq<char>, plan_json: Seq<char>)
    requires
        !hash.contains('|'),
    ensures
        ({
            let detail = hash.push('|') + plan_json;
            first_at(detail, '|') == Some(hash.len() as int) && detail.take(hash.len() as int)
                == hash && detail.skip(hash.len() as int + 1) == plan_json
        }),
{
    let detail = hash.push('|') + plan_json;
    let n = hash.len() as int;
    assert forall|j: int| 0 <= j < n implies detail[j] != '|' by {
        assert(detail[j] == hash[j]);
    }
    first_at_is_first(detail, '|');
    assert(detail[n] == '|');
    assert(detail.take(n) =~= hash);
    assert(detail.skip(n + 1) =~= plan_json);
}

/// A cut is never moved forward, and reuse is claimed exactly where the cut was aligned
/// onto a position that the server holds: its own, or that of a checkpoint.
pub proof fn an_aligned_cut_is_held_by_the_server(
    layer: Coherence,
    slot: SlotReading,
    recorded: Seq<CheckpointRef>,
    bookkept: Option<i64>,
    requested: i64,
)
    ensures
        layer.verdict(slot, recorded, bookkept, requested) matches Verdict::Aligned { at, snap }
            ==> {
            &&& layer.capabilities.reachable
            &&& at <= requested
            &&& snap.moved() == requested - at
            &&& slot matches SlotReading::State(state) && {
                let usable = trusted(
                    merged(state.checkpoints@, recorded),
                    layer.capabilities.partial_state_only,
                );
                ||| at == Coherence::live_position(*state, bookkept)
                ||| exists|i: int|
                    0 <= i < usable.len() && (#[trigger] usable[i]).token_position == at
            }
        },
{
    match slot {
        SlotReading::State(state) => {
            let usable = trusted(
                merged(state.checkpoints@, recorded),
                layer.capabilities.partial_state_only,
            );
            latest_within_is_the_maximum(usable, 1, requested as int);
            match latest_within(usable, 1, requested as int) {
                Some(b) => {
                    let k = choose|k: int| 0 <= k < usable.len() && usable[k] == b;
                    assert(usable[k].token_position == b.token_position);
                },
                None => {},
            }
        },
        SlotReading::Unreadable(_) => {},
    }
}

/// Where checkpoints carry only part of the model's state, a ring entry is never aligned to:
/// without a durable save point the prompt is evaluated in full.
pub proof fn partial_state_trusts_durable_saves_only(
    layer: Coherence,
    slot: SlotReading,
    recorded: Seq<CheckpointRef>,
    bookkept: Option<i64>,
    requested: i64,
)
    requires
        layer.capabilities.partial_state_only,
        slot matches SlotReading::State(state) ==> forall|i: int|
            0 <= i < merged(state.checkpoints@, recorded).len() ==> !is_durable(
                #[trigger] merged(state.checkpoints@, recorded)[i],
            ),
    ensures
        layer.verdict(slot, recorded, bookkept, requested) is Rewrite,
{
    match slot {
        SlotReading::State(state) => {
            nothing_durable(merged(state.checkpoints@, recorded));
        },
        SlotReading::Unreadable(_) => {},
    }
}

/// The fallback is always there and always explained: without a server, without a readable
/// slot and without a checkpoint to align to, the prompt is evaluated in full, for a reason
/// that is given.
pub proof fn every_fallback_has_a_reason(
    layer: Coherence,
    slot: SlotReading,
    recorded: Seq<CheckpointRef>,
    bookkept: Option<i64>,
    requested: i64,
)
    ensures
        !layer.capabilities.reachable ==> layer.verdict(
            slot,
            recorded,
            bookkept,
            requested,
        ) is Rewrite,
        slot is Unreadable ==> layer.verdict(slot, recorded, bookkept, requested) is Rewrite,
        layer.considered(slot, recorded) == 0 ==> layer.verdict(
            slot,
            recorded,
            bookkept,
            requested,
        ) is Rewrite,
        match layer.verdict(slot, recorded, bookkept, requested) {
            Verdict::Rewrite { reason } => reason.len() > 0,
            Verdict::Aligned { at, snap } => true,
            Verdict::Unaligned { nearest, why } => why.len() > 0,
        },
{
    reveal_strlit("backend unreachable; every compaction is a full re-prefill");
    reveal_strlit("slot state unavailable (");
    reveal_strlit("no checkpoints are available on this backend/session; full re-prefill");
    reveal_strlit(
        "model checkpoints carry only partial state (SWA/hybrid) and no durable save point exists; full re-prefill is the safe path",
    );
    reveal_strlit("the retained checkpoint ring starts at ");
    reveal_strlit("no checkpoint is within the ");
}

/// A list without durable checkpoints has no durable ones to keep.
proof fn nothing_durable(cs: Seq<CheckpointRef>)
    requires
        forall|i: int| 0 <= i < cs.len() ==> !is_durable(#[trigger] cs[i]),
    ensures
        durable_of(cs).len() == 0,
    decreases cs.len(),
{
    if cs.len() > 0 {
        nothing_durable(cs.drop_last());
    }
}

/// Merging loses no checkpoint: every ring entry stays, and every recorded one is there by
/// position and kind. No recorded one is added that was there already.
pub proof fn merging_covers_everything(ring: Seq<CheckpointRef>, recorded: Seq<CheckpointRef>)
    ensures
        forall|i: int|
            0 <= i < ring.len() ==> covered(merged(ring, recorded), #[trigger] ring[i]),
        forall|i: int|
            0 <= i < recorded.len() ==> covered(merged(ring, recorded), #[trigger] recorded[i]),
        ring.len() <= merged(ring, recorded).len() <= ring.len() + recorded.len(),
        forall|i: int, j: int|
            #![trigger merged(ring, recorded)[i], merged(ring, recorded)[j]]
            0 <= i < j < merged(ring, recorded).len() && j >= ring.len() ==> !(merged(
                ring,
                recorded,
            )[i].token_position == merged(ring, recorded)[j].token_position && merged(
                ring,
                recorded,
            )[i].kind == merged(ring, recorded)[j].kind),
    decreases recorded.len(),
{
    if recorded.len() == 0 {
        assert forall|i: int| 0 <= i < ring.len() implies covered(
            merged(ring, recorded),
            #[trigger] ring[i],
        ) by {
            assert(ring[i].token_position == ring[i].token_position);
        }
    } else {
        let rest = recorded.drop_last();
        merging_covers_everything(ring, rest);
        let before = merged(ring, rest);
        let after = merged(ring, recorded);
        assert forall|i: int, j: int|
            #![trigger after[i], after[j]]
            0 <= i < j < after.len() && j >= ring.len() implies !(after[i].token_position
            == after[j].token_position && after[i].kind == after[j].kind) by {
            assert(after[i] == before[i]);
            if j < before.len() {
                assert(after[j] == before[j]);
            }
        }
        assert forall|c: CheckpointRef| covered(before, c) implies #[trigger] covered(after, c) by {
            let k = choose|k: int|
                0 <= k < before.len() && (#[trigger] before[k]).token_position == c.token_position
                    && before[k].kind == c.kind;
            assert(after[k] == before[k]);
        }
        assert forall|i: int| 0 <= i < recorded.len() implies covered(
            after,
            #[trigger] recorded[i],
        ) by {
            if i < rest.len() {
                assert(rest[i] == recorded[i]);
            } else if !covered(before, recorded.last()) {
                assert(after[after.len() - 1] == recorded.last());
            }
        }
    }
}

/// Whether the server may be rewound to a checkpoint: any, or only one that survives a restart
/// where checkpoints carry only part of the model's state.
pub open spec fn may_be_trusted(c: CheckpointRef, partial_state_only: bool) -> bool {
    !partial_state_only || c.kind is SlotSaveFile || c.kind is PreRewrite || c.kind is FoldMarker
}

/// Whether a checkpoint that may be trusted lies at a position, on the ring or recorded.
pub open spec fn can_rewind_to(
    ring: Seq<CheckpointRef>,
    recorded: Seq<CheckpointRef>,
    partial_state_only: bool,
    position: int,
) -> bool {
    ||| exists|i: int|
        0 <= i < ring.len() && (#[trigger] ring[i]).token_position == position && may_be_trusted(
            ring[i],
            partial_state_only,
        )
    ||| exists|i: int|
        0 <= i < recorded.len() && (#[trigger] recorded[i]).token_position == position
            && may_be_trusted(recorded[i], partial_state_only)
}

/// What is merged was on the ring or recorded.
proof fn merged_ones_were_given(ring: Seq<CheckpointRef>, recorded: Seq<CheckpointRef>, k: int)
    requires
        0 <= k < merged(ring, recorded).len(),
    ensures
        ring.contains(merged(ring, recorded)[k]) || recorded.contains(merged(ring, recorded)[k]),
    decreases recorded.len(),
{
    if recorded.len() == 0 {
        assert(ring[k] == merged(ring, recorded)[k]);
    } else {
        let rest = recorded.drop_last();
        let before = merged(ring, rest);
        let c = merged(ring, recorded)[k];
        if k < before.len() {
            merged_ones_were_given(ring, rest, k);
            if rest.contains(c) {
                let i = choose|i: int| 0 <= i < rest.len() && rest[i] == c;
                assert(recorded[i] == c);
            }
        } else {
            assert(recorded[recorded.len() - 1] == c);
        }
    }
}

/// What may be rewound to are exactly the trusted ones of a list.
proof fn trusted_ones_are_given(cs: Seq<CheckpointRef>, partial: bool)
    ensures
        forall|k: int|
            0 <= k < trusted(cs, partial).len() ==> cs.contains(#[trigger] trusted(cs, partial)[k])
                && may_be_trusted(trusted(cs, partial)[k], partial),
        forall|k: int|
            0 <= k < cs.len() && may_be_trusted(#[trigger] cs[k], partial) ==> trusted(
                cs,
                partial,
            ).contains(cs[k]),
    decreases cs.len(),
{
    if cs.len() > 0 && partial {
        let rest = cs.drop_last();
        trusted_ones_are_given(rest, partial);
        let before = trusted(rest, partial);
        let after = trusted(cs, partial);
        assert forall|k: int| 0 <= k < after.len() implies cs.contains(#[trigger] after[k])
            && may_be_trusted(after[k], partial) by {
            if k < before.len() {
                assert(after[k] == before[k]);
                let i = choose|i: int| 0 <= i < rest.len() && rest[i] == before[k];
                assert(cs[i] == after[k]);
            } else {
                assert(cs[cs.len() - 1] == after[k]);
            }
        }
        assert forall|k: int| 0 <= k < cs.len() && may_be_trusted(#[trigger] cs[k], partial) implies
            after.contains(cs[k]) by {
            if k < rest.len() {
                assert(rest[k] == cs[k]);
                let i = choose|i: int| 0 <= i < before.len() && before[i] == cs[k];
                assert(after[i] == cs[k]);
            } else {
                assert(after[after.len() - 1] == cs[k]);
            }
        }
    } else if !partial {
        assert forall|k: int| 0 <= k < cs.len() implies cs.contains(#[trigger] cs[k]) by {}
    }
}

/// A usable checkpoint lies at a position exactly where one on the ring or a recorded one does.
proof fn usable_positions(
    ring: Seq<CheckpointRef>,
    recorded: Seq<CheckpointRef>,
    partial: bool,
    position: int,
)
    ensures
        can_rewind_to(ring, recorded, partial, position) <==> exists|k: int|
            0 <= k < trusted(merged(ring, recorded), partial).len() && (#[trigger] trusted(
                merged(ring, recorded),
                partial,
            )[k]).token_position == position,
{
    let all = merged(ring, recorded);
    let usable = trusted(all, partial);
    trusted_ones_are_given(all, partial);
    merging_covers_everything(ring, recorded);
    if can_rewind_to(ring, recorded, partial, position) {
        let c = if exists|i: int|
            0 <= i < ring.len() && (#[trigger] ring[i]).token_position == position
                && may_be_trusted(ring[i], partial) {
            ring[choose|i: int|
                0 <= i < ring.len() && (#[trigger] ring[i]).token_position == position
                    && may_be_trusted(ring[i], partial)]
        } else {
            recorded[choose|i: int|
                0 <= i < recorded.len() && (#[trigger] recorded[i]).token_position == position
                    && may_be_trusted(recorded[i], partial)]
        };
        assert(covered(all, c));
        let m = choose|m: int|
            0 <= m < all.len() && (#[trigger] all[m]).token_position == c.token_position
                && all[m].kind == c.kind;
        assert(usable.contains(all[m]));
        let k = choose|k: int| 0 <= k < usable.len() && usable[k] == all[m];
        assert(usable[k].token_position == position);
    }
    if exists|k: int| 0 <= k < usable.len() && (#[trigger] usable[k]).token_position == position {
        let k = choose|k: int|
            0 <= k < usable.len() && (#[trigger] usable[k]).token_position == position;
        let m = choose|m: int| 0 <= m < all.len() && all[m] == usable[k];
        merged_ones_were_given(ring, recorded, m);
        if ring.contains(all[m]) {
            let i = choose|i: int| 0 <= i < ring.len() && ring[i] == all[m];
            assert(ring[i].token_position == position);
        } else {
            let i = choose|i: int| 0 <= i < recorded.len() && recorded[i] == all[m];
            assert(recorded[i].token_position == position);
        }
    }
}

/// A cut falls where the slot itself stands, if that is at or before the cut and there is
/// anything to rewind to; else on the latest checkpoint at or before it, if it lies within the
/// tolerance; and else it is not aligned. `p` is any position that could be rewound to.
pub proof fn a_cut_is_aligned_wherever_it_can_be(
    layer: &Coherence,
    state: &SlotState,
    recorded: &[CheckpointRef],
    bookkept: Option<i64>,
    requested: i64,
    plan: BoundaryPlan,
    p: int,
)
    requires
        call_ensures(
            Coherence::plan_boundary,
            (layer, SlotReading::State(state), recorded, bookkept, requested),
            plan,
        ),
        layer.capabilities.reachable,
        can_rewind_to(state.checkpoints@, recorded@, layer.capabilities.partial_state_only, p),
    ensures
        ({
            let known = match bookkept {
                Some(b) => b,
                None => 0,
            };
            let live = if state.n_past > known {
                state.n_past
            } else {
                known
            };
            let partial = layer.capabilities.partial_state_only;
            &&& plan.requested_cut == requested
            &&& 0 < live <= requested ==> plan.aligned_cut == Some(live)
            &&& !(0 < live <= requested) && 0 < p <= requested && requested - p
                <= layer.config.snap_tolerance_tokens ==> (plan.aligned_cut matches Some(a) && p <= a
                <= requested)
            &&& !(0 < live <= requested) && p == requested ==> plan.aligned_cut == Some(requested)
            &&& plan.aligned_cut matches Some(a) ==> {
                &&& a <= requested
                &&& a == live || can_rewind_to(state.checkpoints@, recorded@, partial, a as int)
                &&& !(0 < live <= requested) ==> !(a < p <= requested)
            }
            &&& plan.status.reuses() <==> plan.aligned_cut is Some
        }),
{
    let ring = state.checkpoints@;
    let partial = layer.capabilities.partial_state_only;
    let usable = trusted(merged(ring, recorded@), partial);
    usable_positions(ring, recorded@, partial, p);
    usable_positions(ring, recorded@, partial, requested as int);
    let k = choose|k: int| 0 <= k < usable.len() && (#[trigger] usable[k]).token_position == p;
    assert(merged(ring, recorded@).len() > 0) by {
        trusted_ones_are_given(merged(ring, recorded@), partial);
        assert(merged(ring, recorded@).contains(usable[k]));
    }
    latest_within_is_the_maximum(usable, 1, requested as int);
    match latest_within(usable, 1, requested as int) {
        Some(b) => {
            let m = choose|m: int| 0 <= m < usable.len() && usable[m] == b;
            assert(usable[m].token_position == b.token_position);
            usable_positions(ring, recorded@, partial, b.token_position as int);
        },
        None => {},
    }
}

/// Without a server, without a readable slot and without anything to rewind to, a cut is not
/// aligned, and the prompt is evaluated in full.
pub proof fn without_anything_to_rewind_to_nothing_is_reused(
    layer: &Coherence,
    slot: SlotReading,
    recorded: &[CheckpointRef],
    bookkept: Option<i64>,
    requested: i64,
    plan: BoundaryPlan,
)
    requires
        call_ensures(Coherence::plan_boundary, (layer, slot, recorded, bookkept, requested), plan),
        layer.capabilities.reachable ==> (slot matches SlotReading::State(state) ==> forall|p: int|
            !#[trigger] can_rewind_to(
                state.checkpoints@,
                recorded@,
                layer.capabilities.partial_state_only,
                p,
            )),
    ensures
        plan.aligned_cut is None,
        !plan.status.reuses(),
        plan.status is FullRePrefill,
{
    match slot {
        SlotReading::State(state) => {
            let partial = layer.capabilities.partial_state_only;
            let usable = trusted(merged(state.checkpoints@, recorded@), partial);
            if layer.capabilities.reachable && usable.len() > 0 {
                let p = usable[0].token_position as int;
                usable_positions(state.checkpoints@, recorded@, partial, p);
                assert(can_rewind_to(state.checkpoints@, recorded@, partial, p));
            }
        },
        SlotReading::Unreadable(_) => {},
    }
}

/// The usable checkpoints stand in the order of their positions, and there is one at a position
/// exactly where the ring or the record has one that may be trusted.
pub proof fn usable_checkpoints_ascend(
    layer: &Coherence,
    state: &SlotState,
    recorded: &[CheckpointRef],
    r: Vec<CheckpointRef>,
    p: int,
)
    requires
        call_ensures(
            Coherence::usable_checkpoints,
            (layer, SlotReading::State(state), recorded),
            r,
        ),
        state.checkpoints@.len() + recorded@.len() <= usize::MAX,
    ensures
        forall|i: int, j: int|
            #![trigger r@[i], r@[j]]
            0 <= i < j < r@.len() ==> r@[i].token_position <= r@[j].token_position,
        (exists|i: int| 0 <= i < r@.len() && (#[trigger] r@[i]).token_position == p) <==> (
        layer.capabilities.reachable && can_rewind_to(
            state.checkpoints@,
            recorded@,
            layer.capabilities.partial_state_only,
            p,
        )),
{
    let ring = state.checkpoints@;
    let partial = layer.capabilities.partial_state_only;
    let all = merged(ring, recorded@);
    merging_covers_everything(ring, recorded@);
    if layer.capabilities.reachable {
        let order = sorting_rearranges(all);
        a_stable_order_sorts(all, order);
        let sorted = stably_sorted(all);
        trusted_ones_ascend(sorted, partial);
        trusted_ones_are_given(sorted, partial);
        trusted_ones_are_given(all, partial);
        usable_positions(ring, recorded@, partial, p);
        let usable = trusted(all, partial);
        if exists|i: int| 0 <= i < r@.len() && (#[trigger] r@[i]).token_position == p {
            let i = choose|i: int| 0 <= i < r@.len() && (#[trigger] r@[i]).token_position == p;
            assert(sorted.contains(r@[i]));
            assert(all.contains(r@[i]));
            let m = choose|m: int| 0 <= m < all.len() && all[m] == r@[i];
            assert(usable.contains(all[m]));
            let k = choose|k: int| 0 <= k < usable.len() && usable[k] == all[m];
            assert(usable[k].token_position == p);
        }
        if exists|k: int| 0 <= k < usable.len() && (#[trigger] usable[k]).token_position == p {
            let k = choose|k: int| 0 <= k < usable.len() && (#[trigger] usable[k]).token_position
                == p;
            assert(all.contains(usable[k]));
            assert(sorted.contains(usable[k]));
            let m = choose|m: int| 0 <= m < sorted.len() && sorted[m] == usable[k];
            assert(r@.contains(sorted[m]));
            let i = choose|i: int| 0 <= i < r@.len() && r@[i] == sorted[m];
            assert(r@[i].token_position == p);
        }
    }
}

proof fn trusted_ones_ascend(cs: Seq<CheckpointRef>, partial: bool)
    requires
        forall|i: int, j: int|
            #![trigger cs[i], cs[j]]
            0 <= i < j < cs.len() ==> !cs[j].precedes(&cs[i]),
    ensures
        forall|i: int, j: int|
            #![trigger trusted(cs, partial)[i], trusted(cs, partial)[j]]
            0 <= i < j < trusted(cs, partial).len() ==> trusted(cs, partial)[i].token_position
                <= trusted(cs, partial)[j].token_position,
    decreases cs.len(),
{
    if partial && cs.len() > 0 {
        let rest = cs.drop_last();
        assert forall|i: int, j: int|
            #![trigger rest[i], rest[j]]
            0 <= i < j < rest.len() implies !rest[j].precedes(&rest[i]) by {
            assert(rest[i] == cs[i] && rest[j] == cs[j]);
        }
        trusted_ones_ascend(rest, partial);
        trusted_ones_are_given(rest, partial);
        let before = trusted(rest, partial);
        let after = trusted(cs, partial);
        assert forall|i: int, j: int|
            #![trigger after[i], after[j]]
            0 <= i < j < after.len() implies after[i].token_position <= after[j].token_position by {
            assert(after[i] == before[i]);
            if j < before.len() {
                assert(after[j] == before[j]);
            } else {
                assert(rest.contains(before[i]));
                let m = choose|m: int| 0 <= m < rest.len() && rest[m] == before[i];
                assert(cs[m] == before[i] && after[j] == cs[cs.len() - 1]);
            }
        }
    }
}

/// A rollback goes by the ring where it holds the very position and may be trusted; else by the
/// newest save that was taken there, or by the newest of all where none was; without any save
/// nothing is done, and without a server neither.
pub proof fn a_rollback_goes_by_the_save_of_its_position(
    layer: &Coherence,
    slot_id: &str,
    state: Option<&SlotState>,
    saves: &[(i64, String)],
    target: i64,
    step: RollBackStep,
    i: int,
)
    requires
        call_ensures(Coherence::roll_back_to, (layer, slot_id, state, saves, target), step),
        0 <= i < saves@.len(),
        layer.capabilities.reachable,
        layer.capabilities.partial_state_only || (state matches Some(s) ==> forall|k: int|
            0 <= k < s.checkpoints@.len() ==> (#[trigger] s.checkpoints@[k]).token_position
                != target),
    ensures
        saves@[i].0 == target && (forall|k: int| 0 <= k < i ==> (#[trigger] saves@[k]).0 != target)
            ==> (step matches RollBackStep::Restore(p) && p@ == saves@[i].1@),
        (forall|k: int| 0 <= k < saves@.len() ==> (#[trigger] saves@[k]).0 != target) ==> (
        step matches RollBackStep::Restore(p) && p@ == saves@[0].1@),
{
    first_save_is_first(saves@, target, 0);
}

proof fn first_save_is_first(saves: Seq<(i64, String)>, position: i64, k: int)
    requires
        0 <= k <= saves.len(),
    ensures
        match save_at(saves, position, k) {
            Some(i) => k <= i < saves.len() && saves[i].0 == position && forall|j: int|
                k <= j < i ==> (#[trigger] saves[j]).0 != position,
            None => forall|j: int| k <= j < saves.len() ==> (#[trigger] saves[j]).0 != position,
        },
    decreases saves.len() - k,
{
    if k < saves.len() && saves[k].0 != position {
        first_save_is_first(saves, position, k + 1);
    }
}

/// A rewind in place is claimed exactly where the ring holds the position, the server is there,
/// and its checkpoints carry all of the model's state; with neither that nor a save, nothing is
/// claimed.
pub proof fn a_rewind_in_place_needs_the_position_on_the_ring(
    layer: &Coherence,
    slot_id: &str,
    state: Option<&SlotState>,
    saves: &[(i64, String)],
    target: i64,
    step: RollBackStep,
)
    requires
        call_ensures(Coherence::roll_back_to, (layer, slot_id, state, saves, target), step),
    ensures
        (step matches RollBackStep::Done(o) && o.performed) <==> {
            &&& layer.capabilities.reachable
            &&& !layer.capabilities.partial_state_only
            &&& state matches Some(s) && exists|k: int|
                0 <= k < s.checkpoints@.len() && (#[trigger] s.checkpoints@[k]).token_position
                    == target
        },
        step matches RollBackStep::Done(o) ==> (o.performed <==> o.method is RingRewind) && (
        !o.performed ==> o.method is Nothing),
        !layer.capabilities.reachable ==> step is Done,
        saves@.len() == 0 ==> step is Done,
{
    first_save_is_first(saves@, target, 0);
}

/// Of the save files of a slot the newest stay, as many as the policy keeps, and all others go.
pub proof fn the_newest_saves_stay(
    layer: &Coherence,
    newest_first: &Vec<String>,
    r: Vec<String>,
    i: int,
)
    requires
        call_ensures(Coherence::prune_snapshots, (layer, newest_first), r),
        0 <= i < newest_first@.len(),
    ensures
        ({
            let keep = layer.config.snapshot_retention_per_slot as int;
            &&& newest_first@.len() <= keep ==> r@.len() == 0
            &&& newest_first@.len() > keep ==> r@.len() == newest_first@.len() - keep
            &&& i >= keep ==> r@[i - keep] == newest_first@[i]
        }),
{
}

/// A save is taken before a cut that breaks the cache, and before one that does not only where
/// that is asked for; never where the server cannot save or the disk is known to be too full.
pub proof fn saves_are_taken_where_asked_and_possible(
    layer: &Coherence,
    action: CoherenceAction,
    free_disk: Option<u64>,
    r: bool,
)
    requires
        call_ensures(Coherence::saves_before, (layer, action, free_disk), r),
    ensures
        !layer.capabilities.slot_save ==> !r,
        free_disk matches Some(free) ==> free < layer.config.min_free_disk_bytes ==> !r,
        action is EvictAndAcceptReprefill || action is Skip ==> !r,
        layer.capabilities.slot_save && (free_disk matches Some(free) ==> free
            >= layer.config.min_free_disk_bytes) ==> {
            &&& action is SnapshotThenEvict ==> r == layer.config.snapshot_before_rewrite
            &&& action is EvictAtAlignedBoundary ==> r == layer.config.snapshot_even_when_aligned
        },
{
}

/// Of a prompt that meets a slot whose cut was aligned, the tokens before the cut are reused and
/// the rest is evaluated; with nothing recorded, and after a cut that broke the cache, all of it
/// is evaluated. What is reused and what is evaluated add up to the prompt.
pub proof fn a_prompt_is_reused_or_evaluated(
    layer: &Coherence,
    slot_id: &str,
    prompt: &str,
    counter: &TokenCounter,
    recorded: Option<(&str, Option<&BoundaryPlan>)>,
    o: PromptObservation,
)
    requires
        call_ensures(Coherence::observe_prompt, (layer, slot_id, prompt, counter, recorded), o),
    ensures
        o.prompt_tokens == counter.of(prompt@),
        o.reused_tokens <= o.prompt_tokens ==> o.reused_tokens + o.prefilled_tokens
            == o.prompt_tokens,
        o.reused_tokens > o.prompt_tokens ==> o.prefilled_tokens == 0,
        recorded is None ==> o.reused_tokens == 0 && o.cache_status is Cold,
        recorded matches Some((_, None)) ==> o.reused_tokens == 0 && o.cache_status is Cold,
        recorded matches Some((_, Some(plan))) ==> {
            &&& o.cache_status.reuses() == plan.status.reuses()
            &&& !plan.status.reuses() ==> o.reused_tokens == 0 && o.cache_status is FullRePrefill
            &&& plan.status.reuses() ==> o.cache_status == plan.status
            &&& plan.status is PartialReuse ==> o.reused_tokens <= o.prompt_tokens
            &&& plan.aligned_cut matches Some(cut) ==> {
                &&& plan.status is PartialReuse && 0 <= cut <= o.prompt_tokens
                    ==> o.reused_tokens == cut
                &&& plan.status is PartialReuse && cut > o.prompt_tokens ==> o.reused_tokens
                    == o.prompt_tokens
                &&& plan.status.reuses() && cut < 0 ==> o.reused_tokens == 0
                &&& plan.status is WarmRestored && 0 <= cut <= usize::MAX ==> o.reused_tokens
                    == cut
            }
            &&& plan.aligned_cut is None ==> o.reused_tokens == 0
        },
{
}

/// What a slot shares with a prompt is counted in full: the tokens of every common beginning,
/// and no more than those of the longest one.
pub proof fn the_whole_common_beginning_counts(
    retained: &str,
    prompt: &str,
    counter: &TokenCounter,
    r: usize,
    n: int,
) -> (m: int)
    requires
        call_ensures(common_prefix_tokens, (retained, prompt, counter), r),
        0 <= n <= retained@.len(),
        n <= prompt@.len(),
        retained@.take(n) == prompt@.take(n),
    ensures
        r >= counter.of(prompt@.take(n)),
        n <= m <= retained@.len(),
        m <= prompt@.len(),
        retained@.take(m) == prompt@.take(m),
        r == counter.of(prompt@.take(m)),
{
    shared_len_is_the_longest_common_prefix(retained@, prompt@);
    let m = shared_len(retained@, prompt@) as int;
    if m < n {
        assert(retained@.take(n)[m] == retained@[m]);
        assert(prompt@.take(n)[m] == prompt@[m]);
    }
    crate::tokens::count_is_monotonic(*counter, prompt@.take(n), prompt@.take(m));
    m
}

/// What is stored about an applied plan reads back: the plan's text as it was.
pub proof fn a_stored_plan_reads_back(
    layer: &Coherence,
    retained_prefix: &str,
    plan_json: &str,
    counter: &TokenCounter,
    stored: (usize, String),
    detail: &str,
    r: (String, String),
)
    requires
        call_ensures(Coherence::record_plan, (layer, retained_prefix, plan_json, counter), stored),
        detail@ == stored.1@,
        call_ensures(Coherence::split_detail, (detail,), r),
    ensures
        r.1@ == plan_json@,
        r.0@ == short_hash_of_text(retained_prefix@),
        stored.0 == counter.of(retained_prefix@),
{
    let hash = short_hash_of_text(retained_prefix@);
    assert(first_at(detail@, '|') == Some(16int));
    assert(detail@ == hash.push('|') + plan_json@);
    first_at_is_first(detail@, '|');
    assert(detail@.take(16).len() == 16);
    assert(detail@.skip(17) =~= plan_json@);
}

/// A save counts for the tokens that the slot was recorded to hold, or for what the server
/// reports where nothing was recorded; it is named by its file where there is one.
pub proof fn a_save_stands_where_the_slot_stood(
    layer: &Coherence,
    retained: Option<i64>,
    state: Option<&SlotState>,
    outcome: &SnapshotOutcome,
    before: CheckpointRef,
    asked: CheckpointRef,
)
    requires
        call_ensures(Coherence::pre_rewrite_snapshot, (layer, retained, state, outcome), before),
        call_ensures(Coherence::snapshot, (layer, state, outcome), asked),
    ensures
        retained matches Some(n) ==> before.token_position == n,
        retained is None ==> before.token_position == asked.token_position,
        state matches Some(s) ==> asked.token_position == s.n_past,
        state is None ==> asked.token_position == 0,
        before.kind is PreRewrite && asked.kind is SlotSaveFile,
        outcome.file_path matches Some(p) ==> before.id@ == p@ && asked.id@ == p@,
        outcome.file_path is None ==> before.id@ == outcome.snapshot_id@ && asked.id@
            == outcome.snapshot_id@,
{
}

/// Only what stands in a directory of this program may be deleted.
pub proof fn only_own_files_may_be_deleted(c: &Coherence, dir: &str, known: bool, unknown: bool)
    requires
        call_ensures(Coherence::may_delete, (c, Some(dir)), known),
        call_ensures(Coherence::may_delete, (c, None::<&str>), unknown),
    ensures
        !unknown,
        known ==> contains_text(lowered(dir@), "sakur4"@),
        contains_text(lowered(dir@), "sakur4"@) ==> known,
{
}

} // verus!
