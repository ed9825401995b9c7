//! Backends that need no external server.
//!
//! [`EmbeddedBackend`] models a server's slot, with the same ring of checkpoints, so that
//! the coherence layer runs unchanged where no server is listening. [`NullBackend`] can do
//! nothing at all, which routes every compaction down the full re-prefill path.

use super::{
    BackendHealth, CapabilitySet, CheckpointKind, CheckpointRef, RestoreOutcome, SlotState,
};
use crate::error::Error;
use crate::text::{digits, push_int, push_nat, signed_digits, texts};
use crate::tokens::TokenCounter;
use vstd::prelude::*;
use vstd::string::*;

verus! {

/// The positions of the newest `capacity` multiples of `interval` at or below `tokens`.
pub open spec fn ring_at(tokens: int, interval: int, capacity: nat) -> Seq<i64> {
    let all = tokens / interval;
    let kept = if all < capacity {
        all
    } else {
        capacity as int
    };
    Seq::new(kept as nat, |i: int| ((all - kept + 1 + i) * interval) as i64)
}

/// A model of one server slot.
#[derive(Debug)]
pub struct EmbeddedBackend {
    n_ctx: i64,
    checkpoint_interval: i64,
    ring_capacity: usize,
    n_past: i64,
    checkpoint_positions: Vec<i64>,
    rewrote: bool,
}

impl EmbeddedBackend {
    /// The size of the window.
    pub closed spec fn window(self) -> i64 {
        self.n_ctx
    }

    /// The distance between ring entries.
    pub closed spec fn interval(self) -> i64 {
        self.checkpoint_interval
    }

    /// How many ring entries are kept.
    pub closed spec fn capacity(self) -> usize {
        self.ring_capacity
    }

    /// The tokens the slot holds.
    pub closed spec fn held(self) -> i64 {
        self.n_past
    }

    /// The positions of the ring entries, oldest first.
    pub closed spec fn ring(self) -> Seq<i64> {
        self.checkpoint_positions@
    }

    /// Whether a rewrite was simulated.
    pub closed spec fn rewritten(self) -> bool {
        self.rewrote
    }

    /// The window, the interval and the capacity are positive, and nothing negative is held.
    pub open spec fn wf(self) -> bool {
        self.window() >= 1 && self.interval() >= 1 && self.capacity() >= 1 && self.held() >= 0
    }

    /// An empty slot of 32768 tokens with a checkpoint every 1024, the newest 32 kept.
    pub fn new() -> (r: Self)
        ensures
            r.wf(),
            r.window() == 32768,
            r.interval() == 1024,
            r.capacity() == 32,
            r.held() == 0,
            r.ring().len() == 0,
            !r.rewritten(),
    {
        EmbeddedBackend {
            n_ctx: 32768,
            checkpoint_interval: 1024,
            ring_capacity: 32,
            n_past: 0,
            checkpoint_positions: Vec::new(),
            rewrote: false,
        }
    }

    /// Sets the size of the window, at least one.
    pub fn with_n_ctx(self, n_ctx: i64) -> (r: Self)
        requires
            self.wf(),
        ensures
            r.wf(),
            r.window() == (if n_ctx > 1 {
                n_ctx
            } else {
                1
            }),
            r.interval() == self.interval(),
            r.capacity() == self.capacity(),
            r.held() == self.held(),
            r.ring() == self.ring(),
            r.rewritten() == self.rewritten(),
    {
        EmbeddedBackend {
            n_ctx: if n_ctx > 1 {
                n_ctx
            } else {
                1
            },
            ..self
        }
    }

    /// Sets the spacing and the depth of the ring, each at least one.
    pub fn with_ring(self, interval: i64, capacity: usize) -> (r: Self)
        requires
            self.wf(),
        ensures
            r.wf(),
            r.interval() == (if interval > 1 {
                interval
            } else {
                1
            }),
            r.capacity() == (if capacity > 1 {
                capacity
            } else {
                1
            }),
            r.window() == self.window(),
            r.held() == self.held(),
            r.ring() == self.ring(),
            r.rewritten() == self.rewritten(),
    {
        EmbeddedBackend {
            checkpoint_interval: if interval > 1 {
                interval
            } else {
                1
            },
            ring_capacity: if capacity > 1 {
                capacity
            } else {
                1
            },
            ..self
        }
    }

    /// Moves the slot to `tokens` tokens (a negative number counts as zero). The ring then
    /// holds an entry at every multiple of the interval up to there, the newest few kept.
    pub fn advance_to(&mut self, tokens: i64)
        requires
            old(self).wf(),
            tokens <= i64::MAX - old(self).interval(),
        ensures
            final(self).wf(),
            final(self).held() == (if tokens > 0 {
                tokens
            } else {
                0
            }),
            final(self).ring() == ring_at(
                final(self).held() as int,
                old(self).interval() as int,
                old(self).capacity() as nat,
            ),
            final(self).window() == old(self).window(),
            final(self).interval() == old(self).interval(),
            final(self).capacity() == old(self).capacity(),
            final(self).rewritten() == old(self).rewritten(),
    {
        let target: i64 = if tokens > 0 {
            tokens
        } else {
            0
        };
        let interval: i64 = self.checkpoint_interval;
        let capacity: usize = self.ring_capacity;
        let mut all: Vec<i64> = Vec::new();
        let mut pos: i64 = interval;
        assert(pos == (0 + 1) * interval) by (nonlinear_arith)
            requires
                pos == interval,
        ;
        while pos <= target
            invariant
                interval >= 1,
                0 <= target <= i64::MAX - interval,
                pos == (all@.len() + 1) * interval,
                pos <= target + interval,
                forall|i: int| 0 <= i < all@.len() ==> #[trigger] all@[i] == (i + 1) * interval,
            decreases target + interval - pos,
        {
            all.push(pos);
            assert((all@.len() + 1) * interval == all@.len() * interval + interval)
                by (nonlinear_arith);
            pos = pos + interval;
        }
        let n: usize = all.len();
        proof {
            multiples_up_to(target as int, interval as int, n as int);
        }
        let start: usize = if n > capacity {
            n - capacity
        } else {
            0
        };
        let mut ring: Vec<i64> = Vec::new();
        let mut i: usize = start;
        while i < n
            invariant
                start <= i <= n == all@.len(),
                ring@ == all@.subrange(start as int, i as int),
            decreases n - i,
        {
            ring.push(all[i]);
            i = i + 1;
        }
        assert(ring@ =~= ring_at(target as int, interval as int, capacity as nat)) by {
            assert forall|k: int| 0 <= k < ring@.len() implies ring@[k] == #[trigger] ring_at(
                target as int,
                interval as int,
                capacity as nat,
            )[k] by {
                assert(all@[start + k] == (start + k + 1) * interval);
            }
        }
        self.n_past = target;
        self.checkpoint_positions = ring;
    }

    /// Moves the slot on by `tokens` tokens.
    pub fn advance_by(&mut self, tokens: i64)
        requires
            old(self).wf(),
            i64::MIN <= old(self).held() + tokens <= i64::MAX - old(self).interval(),
        ensures
            final(self).wf(),
            final(self).held() == (if old(self).held() + tokens > 0 {
                old(self).held() + tokens
            } else {
                0
            }),
            final(self).ring() == ring_at(
                final(self).held() as int,
                old(self).interval() as int,
                old(self).capacity() as nat,
            ),
            final(self).window() == old(self).window(),
            final(self).interval() == old(self).interval(),
            final(self).capacity() == old(self).capacity(),
            final(self).rewritten() == old(self).rewritten(),
    {
        self.advance_to(self.n_past + tokens);
    }

    /// Simulates a rewrite: the slot keeps `retained_tokens`, and its ring is gone.
    pub fn simulate_rewrite(&mut self, retained_tokens: i64)
        requires
            old(self).wf(),
            retained_tokens <= i64::MAX - old(self).interval(),
        ensures
            final(self).wf(),
            final(self).held() == (if retained_tokens > 0 {
                retained_tokens
            } else {
                0
            }),
            final(self).ring().len() == 0,
            final(self).rewritten(),
            final(self).window() == old(self).window(),
            final(self).interval() == old(self).interval(),
            final(self).capacity() == old(self).capacity(),
    {
        self.advance_to(retained_tokens);
        self.rewrote = true;
        self.checkpoint_positions.clear();
    }

    /// Whether a rewrite was simulated.
    pub fn was_rewritten(&self) -> (r: bool)
        ensures
            r == self.rewritten(),
    {
        self.rewrote
    }

    /// Everything a slot can do, and no restriction.
    pub fn capabilities(&self) -> (r: CapabilitySet)
        ensures
            r == (CapabilitySet {
                reachable: true,
                slots: true,
                slot_save: true,
                slot_restore: true,
                slot_erase: true,
                checkpoint_ring: true,
                tokenize: true,
                props: true,
                metrics: true,
                partial_state_only: false,
                context_shift: false,
            }),
    {
        CapabilitySet {
            reachable: true,
            slots: true,
            slot_save: true,
            slot_restore: true,
            slot_erase: true,
            checkpoint_ring: true,
            tokenize: true,
            props: true,
            metrics: true,
            partial_state_only: false,
            context_shift: false,
        }
    }

    /// The slot's state, with its ring.
    pub fn slot_state(&self, slot_id: &str) -> (s: SlotState)
        ensures
            s.slot_id@ == slot_id@,
            s.n_past == self.held(),
            s.n_ctx == self.window(),
            !s.is_processing,
            s.prompt_eval_ms is None,
            s.checkpoints@.len() == self.ring().len(),
            forall|i: int|
                0 <= i < s.checkpoints@.len() ==> {
                    &&& (#[trigger] s.checkpoints@[i]).id@ == "embedded-ring"@ + digits(i as nat)
                    &&& s.checkpoints@[i].token_position == self.ring()[i]
                    &&& s.checkpoints@[i].kind == CheckpointKind::Internal
                    &&& s.checkpoints@[i].size_bytes is None
                },
    {
        let mut checkpoints: Vec<CheckpointRef> = Vec::new();
        for i in 0..self.checkpoint_positions.len()
            invariant
                checkpoints@.len() == i,
                forall|k: int|
                    0 <= k < i ==> {
                        &&& (#[trigger] checkpoints@[k]).id@ == "embedded-ring"@ + digits(k as nat)
                        &&& checkpoints@[k].token_position == self.checkpoint_positions@[k]
                        &&& checkpoints@[k].kind == CheckpointKind::Internal
                        &&& checkpoints@[k].size_bytes is None
                    },
        {
            let mut id = String::from_str("embedded-ring");
            push_nat(&mut id, i as u64);
            checkpoints.push(
                CheckpointRef {
                    id,
                    token_position: self.checkpoint_positions[i],
                    kind: CheckpointKind::Internal,
                    size_bytes: None,
                },
            );
        }
        SlotState {
            slot_id: slot_id.to_owned(),
            n_past: self.n_past,
            n_ctx: self.n_ctx,
            is_processing: false,
            checkpoints,
            prompt_eval_ms: None,
        }
    }

    /// Drops the slot's state.
    pub fn erase_slot(&mut self)
        requires
            old(self).wf(),
        ensures
            final(self).wf(),
            final(self).held() == 0,
            final(self).ring().len() == 0,
            final(self).window() == old(self).window(),
            final(self).interval() == old(self).interval(),
            final(self).capacity() == old(self).capacity(),
            final(self).rewritten() == old(self).rewritten(),
    {
        self.advance_to(0);
        assert(0int / self.checkpoint_interval as int == 0) by (nonlinear_arith)
            requires
                self.checkpoint_interval >= 1,
        ;
    }

    /// Keeps the matching head of a diverging prompt and re-bases the ring on it.
    pub fn note_compaction(&mut self, retained_tokens: i64)
        requires
            old(self).wf(),
            retained_tokens <= i64::MAX - old(self).interval(),
        ensures
            final(self).wf(),
            final(self).held() == (if retained_tokens > 0 {
                retained_tokens
            } else {
                0
            }),
            final(self).ring() == ring_at(
                final(self).held() as int,
                old(self).interval() as int,
                old(self).capacity() as nat,
            ),
            final(self).window() == old(self).window(),
            final(self).interval() == old(self).interval(),
            final(self).capacity() == old(self).capacity(),
            final(self).rewritten() == old(self).rewritten(),
    {
        self.advance_to(retained_tokens);
    }

    /// What a save of the slot holds.
    pub fn save_slot(&self) -> (r: SavedSlot)
        ensures
            r.n_past == self.held(),
            r.n_ctx == self.window(),
            r.checkpoints@ == self.ring(),
    {
        let mut checkpoints: Vec<i64> = Vec::new();
        for i in 0..self.checkpoint_positions.len()
            invariant
                checkpoints@ == self.checkpoint_positions@.take(i as int),
        {
            checkpoints.push(self.checkpoint_positions[i]);
            assert(checkpoints@ =~= self.checkpoint_positions@.take(i as int + 1));
        }
        assert(checkpoints@ =~= self.checkpoint_positions@);
        SavedSlot { n_past: self.n_past, n_ctx: self.n_ctx, checkpoints }
    }

    /// Takes the slot back to the tokens that a save holds, none where it names none.
    pub fn restore_slot(
        &mut self,
        slot_id: &str,
        n_past: Option<i64>,
        path: &str,
        elapsed_ms: i64,
    ) -> (r: RestoreOutcome)
        requires
            old(self).wf(),
            n_past matches Some(n) ==> n <= i64::MAX - old(self).interval(),
        ensures
            ({
                let named = match n_past {
                    Some(n) => n,
                    None => 0,
                };
                &&& final(self).wf()
                &&& final(self).held() == (if named > 0 {
                    named
                } else {
                    0
                })
                &&& final(self).ring() == ring_at(
                    final(self).held() as int,
                    old(self).interval() as int,
                    old(self).capacity() as nat,
                )
                &&& final(self).window() == old(self).window()
                &&& final(self).interval() == old(self).interval()
                &&& final(self).capacity() == old(self).capacity()
                &&& final(self).rewritten() == old(self).rewritten()
                &&& r.restored
                &&& r.restore_time_ms == elapsed_ms
                &&& r.detail@ == "embedded slot "@ + slot_id@ + " restored to "@ + signed_digits(
                    named as int,
                ) + " tokens from "@ + path@
            }),
    {
        let named: i64 = match n_past {
            Some(n) => n,
            None => 0,
        };
        assert(self.interval() >= 1);
        self.advance_to(named);
        let mut detail = String::from_str("embedded slot ");
        detail.append(slot_id);
        detail.append(" restored to ");
        push_int(&mut detail, named);
        detail.append(" tokens from ");
        detail.append(path);
        RestoreOutcome { restored: true, restore_time_ms: elapsed_ms, detail }
    }

    /// The one model there is.
    pub fn models(&self) -> (r: Vec<String>)
        ensures
            texts(r@) == seq!["sakur4-embedded"@],
    {
        let mut out: Vec<String> = Vec::new();
        out.push("sakur4-embedded".to_owned());
        assert(texts(out@) =~= seq!["sakur4-embedded"@]);
        out
    }

    /// The tokens a text counts for.
    pub fn tokenize(&self, text: &str) -> (r: usize)
        ensures
            r == crate::tokens::tokens_for(text@.len(), 4),
    {
        TokenCounter::heuristic().count(text).get()
    }

    /// What the backend says of itself.
    pub fn health(&self) -> (h: BackendHealth)
        ensures
            h.name@ == "embedded"@,
            h.spec@ == "sakur4://embedded"@,
            h.capabilities == (CapabilitySet {
                reachable: true,
                slots: true,
                slot_save: true,
                slot_restore: true,
                slot_erase: true,
                checkpoint_ring: true,
                tokenize: true,
                props: true,
                metrics: true,
                partial_state_only: false,
                context_shift: false,
            }),
            h.detail@ == "simulated slot: n_ctx="@ + signed_digits(self.window() as int)
                + ", ring every "@ + signed_digits(self.interval() as int) + " tokens ("@ + digits(
                self.capacity() as nat,
            ) + " deep) — cache statuses produced against this backend are simulated"@,
    {
        let mut detail = String::from_str("simulated slot: n_ctx=");
        push_int(&mut detail, self.n_ctx);
        detail.append(", ring every ");
        push_int(&mut detail, self.checkpoint_interval);
        detail.append(" tokens (");
        push_nat(&mut detail, self.ring_capacity as u64);
        detail.append(" deep) — cache statuses produced against this backend are simulated");
        BackendHealth {
            name: "embedded".to_owned(),
            spec: "sakur4://embedded".to_owned(),
            capabilities: self.capabilities(),
            detail,
        }
    }
}

impl Default for EmbeddedBackend {
    fn default() -> (r: Self)
        ensures
            r.wf(),
            r.window() == 32768,
            r.interval() == 1024,
            r.capacity() == 32,
            r.held() == 0,
            r.ring().len() == 0,
            !r.rewritten(),
    {
        EmbeddedBackend::new()
    }
}

/// If `n` multiples of `interval` fit below `tokens` and one more does not, `n` is the quotient.
proof fn multiples_up_to(tokens: int, interval: int, n: int)
    by (nonlinear_arith)
    requires
        interval >= 1,
        tokens >= 0,
        n >= 0,
        (n + 1) * interval > tokens,
        (n + 1) * interval <= tokens + interval,
    ensures
        tokens / interval == n,
{
}

/// The ring holds positive multiples of the interval, in ascending order, none beyond what
/// the slot holds and at most as many as its capacity; the newest is within one interval of
/// what the slot holds.
pub proof fn ring_entries_are_held(tokens: int, interval: int, capacity: nat)
    requires
        0 <= tokens <= i64::MAX,
        1 <= interval <= i64::MAX,
        capacity >= 1,
    ensures
        ring_at(tokens, interval, capacity).len() <= capacity,
        forall|i: int|
            0 <= i < ring_at(tokens, interval, capacity).len() ==> {
                &&& 0 < #[trigger] ring_at(tokens, interval, capacity)[i] <= tokens
                &&& ring_at(tokens, interval, capacity)[i] as int % interval == 0
            },
        forall|i: int, j: int|
            0 <= i < j < ring_at(tokens, interval, capacity).len() ==> #[trigger] ring_at(
                tokens,
                interval,
                capacity,
            )[i] < #[trigger] ring_at(tokens, interval, capacity)[j],
        tokens >= interval ==> {
            &&& ring_at(tokens, interval, capacity).len() > 0
            &&& tokens - ring_at(tokens, interval, capacity).last() < interval
        },
{
    let ring = ring_at(tokens, interval, capacity);
    let all = tokens / interval;
    let kept = ring.len() as int;
    assert(all >= 0 && all * interval <= tokens < all * interval + interval && (tokens >= interval
        ==> all >= 1)) by (nonlinear_arith)
        requires
            all == tokens / interval,
            interval >= 1,
            tokens >= 0,
    ;
    assert forall|i: int| 0 <= i < kept implies {
        &&& 0 < #[trigger] ring[i] <= tokens
        &&& ring[i] as int == (all - kept + 1 + i) * interval
        &&& ring[i] as int % interval == 0
    } by {
        let m = all - kept + 1 + i;
        assert(0 < m * interval <= all * interval && (m * interval) % interval == 0)
            by (nonlinear_arith)
            requires
                1 <= m <= all,
                interval >= 1,
        ;
    }
    assert forall|i: int, j: int| 0 <= i < j < kept implies #[trigger] ring[i]
        < #[trigger] ring[j] by {
        let a = all - kept + 1 + i;
        let b = all - kept + 1 + j;
        assert(a * interval < b * interval) by (nonlinear_arith)
            requires
                a < b,
                interval >= 1,
        ;
    }
}

/// The backend that can do nothing.
#[derive(Debug, Clone, Copy)]
pub struct NullBackend {}

impl Default for NullBackend {
    fn default() -> (r: Self)
        ensures
            r == (NullBackend {  }),
    {
        NullBackend::new()
    }
}

/// What a save of the simulated slot holds.
#[derive(Debug)]
pub struct SavedSlot {
    pub n_past: i64,
    pub n_ctx: i64,
    pub checkpoints: Vec<i64>,
}

/// Why the backend that can do nothing refused `what` for a slot.
pub open spec fn refusal(what: Seq<char>, slot_id: Seq<char>) -> Seq<char> {
    what + " is unavailable with --backend none (slot "@ + slot_id + ")"@
}

fn refuse(what: &str, slot_id: &str) -> (e: Error)
    ensures
        e matches Error::BackendUnavailable(m) && m@ == refusal(what@, slot_id@),
{
    let mut m = String::from_str(what);
    m.append(" is unavailable with --backend none (slot ");
    m.append(slot_id);
    m.append(")");
    Error::BackendUnavailable(m)
}

impl NullBackend {
    pub fn new() -> (r: Self)
        ensures
            r == (NullBackend {  }),
    {
        NullBackend {  }
    }

    /// Nothing.
    pub fn capabilities(&self) -> (r: CapabilitySet)
        ensures
            r == CapabilitySet::nothing(),
    {
        CapabilitySet::default()
    }

    /// Always refused.
    pub fn slot_state(&self, slot_id: &str) -> (r: Result<SlotState, Error>)
        ensures
            r matches Err(Error::BackendUnavailable(m)) && m@ == refusal("slot state"@, slot_id@),
    {
        Err(refuse("slot state", slot_id))
    }

    /// Always refused.
    pub fn save_slot(&self, slot_id: &str) -> (r: Result<super::SnapshotOutcome, Error>)
        ensures
            r matches Err(Error::BackendUnavailable(m)) && m@ == refusal("slot save"@, slot_id@),
    {
        Err(refuse("slot save", slot_id))
    }

    /// Always refused.
    pub fn restore_slot(&self, slot_id: &str) -> (r: Result<super::RestoreOutcome, Error>)
        ensures
            r matches Err(Error::BackendUnavailable(m)) && m@ == refusal("slot restore"@, slot_id@),
    {
        Err(refuse("slot restore", slot_id))
    }

    /// What the backend says of itself.
    pub fn health(&self) -> (h: BackendHealth)
        ensures
            h.name@ == "none"@,
            h.spec@ == "none"@,
            h.capabilities == CapabilitySet::nothing(),
            h.detail@ == "cache coherence disabled; every compaction reports full-re-prefill"@,
    {
        BackendHealth {
            name: "none".to_owned(),
            spec: "none".to_owned(),
            capabilities: CapabilitySet::default(),
            detail: "cache coherence disabled; every compaction reports full-re-prefill".to_owned(),
        }
    }
}

/// After the slot has moved, its ring holds multiples of the spacing only, none beyond what the
/// slot holds; each lies one spacing after the one before it, and the last less than one
/// spacing before the end. It falls short of its depth only where it goes back to the first
/// multiple.
pub proof fn the_ring_follows_the_slot(
    before: &mut EmbeddedBackend,
    tokens: i64,
    i: int,
)
    requires
        before.wf(),
        tokens >= 0,
        tokens <= i64::MAX - before.interval(),
        call_ensures(EmbeddedBackend::advance_to, (before, tokens), ()),
        0 <= i < final(before).ring().len(),
    ensures
        ({
            let ring = final(before).ring();
            let step = old(before).interval();
            &&& final(before).held() == tokens
            &&& 0 < ring[i] <= tokens && ring[i] as int % step as int == 0
            &&& ring.len() <= old(before).capacity()
            &&& i > 0 ==> ring[i] - ring[i - 1] == step
            &&& tokens - ring.last() < step
            &&& ring.len() < old(before).capacity() ==> ring[0] == step
        }),
{
    let ring = final(before).ring();
    let step = before.interval() as int;
    let capacity = before.capacity() as nat;
    ring_entries_are_held(tokens as int, step, capacity);
    let all = tokens as int / step;
    let kept = ring.len() as int;
    assert(all * step <= tokens && all >= kept) by (nonlinear_arith)
        requires
            all == tokens as int / step,
            step >= 1,
            tokens >= 0,
            all >= kept,
    ;
    assert forall|k: int| 0 <= k < kept implies #[trigger] ring[k] as int == (all - kept + 1 + k)
        * step by {
        let m = all - kept + 1 + k;
        assert(0 < m * step <= all * step) by (nonlinear_arith)
            requires
                1 <= m <= all,
                step >= 1,
        ;
    }
    if i > 0 {
        assert(ring[i - 1] as int == (all - kept + i) * step);
        assert((all - kept + 1 + i) * step == (all - kept + i) * step + step) by (nonlinear_arith);
    }
    if kept < capacity {
        assert(ring[0] as int == (all - kept + 1) * step);
        assert(all == kept);
        assert(1 * step == step);
    }
    if tokens < step {
        assert(all == 0) by (nonlinear_arith)
            requires
                all == tokens as int / step,
                0 <= tokens < step,
        ;
    }
}

/// What a save holds is what the slot held, and restoring it brings the slot back there.
pub proof fn a_restored_slot_stands_where_it_was_saved(
    saved: &EmbeddedBackend,
    save: SavedSlot,
    later: &mut EmbeddedBackend,
    slot_id: &str,
    path: &str,
    ms: i64,
    outcome: RestoreOutcome,
)
    requires
        saved.wf(),
        later.wf(),
        call_ensures(EmbeddedBackend::save_slot, (saved,), save),
        save.n_past <= i64::MAX - later.interval(),
        call_ensures(
            EmbeddedBackend::restore_slot,
            (later, slot_id, Some(save.n_past), path, ms),
            outcome,
        ),
    ensures
        save.n_past == saved.held() && save.checkpoints@ == saved.ring(),
        outcome.restored,
        final(later).held() == saved.held(),
{
}

} // verus!
