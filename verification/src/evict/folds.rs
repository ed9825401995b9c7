//! Carrying a plan out, and folds: isolated stretches of a session that collapse to a result.

use super::{
    changes, measurable, tokens_of_first, Change, EvictionEngine, EvictionOutcome, EvictionPlan,
    FoldOutcome, FoldTrace, FoldTraceEntry, Pressure, TierUpdate, UnfoldOutcome,
};
use crate::cache::plan::CacheStatus;
use crate::cache::{CoherenceConfig, RollBackOutcome};
use crate::error::Error;
use crate::ids::{hex_text, new_id};
use crate::json::{quote, quoted};
use crate::memory::dependency::{EdgeKind, EdgeRow, NodeKind, NodeRef};
use crate::memory::episodic::{EpisodeRow, EpisodeTier, NewEpisode, Role};
use crate::prompt::PromptParts;
use crate::text::{
    blank, blank_trims_to_nothing, digits, is_blank, push_int, push_nat, same, signed_digits, trim,
    trimmed,
};
use crate::tokens::TokenCounter;
use vstd::prelude::*;
use vstd::string::*;

verus! {

/// What has to be done to carry a plan out, in this order.
#[derive(Debug)]
pub struct ApplySteps {
    /// Why to save the slot first, where that is called for.
    pub snapshot_reason: Option<String>,
    /// The new tiers.
    pub tiers: Vec<(String, EpisodeTier)>,
    /// The text that the next prompt still begins with, to be recorded with the boundary.
    pub retained_text: Option<String>,
    /// How much of the timeline survives, for the backend to know.
    pub retained_tokens: usize,
}

/// The tiers that a list of changes leads to, by episode.
pub open spec fn tier_list(list: Seq<(String, EpisodeTier)>) -> Seq<(Seq<char>, EpisodeTier)> {
    Seq::new(list.len(), |i: int| (list[i].0@, list[i].1))
}

/// The tiers that a list of changes leads to, by episode.
pub open spec fn targets(list: Seq<Change>) -> Seq<(Seq<char>, EpisodeTier)> {
    Seq::new(list.len(), |i: int| (list[i].episode_id, list[i].to))
}

/// The tiers that a list of updates leads to.
fn tiers_of(updates: &Vec<TierUpdate>) -> (r: Vec<(String, EpisodeTier)>)
    ensures
        tier_list(r@) == targets(changes(updates@)),
{
    let mut out: Vec<(String, EpisodeTier)> = Vec::new();
    for i in 0..updates.len()
        invariant
            tier_list(out@) == targets(changes(updates@)).take(i as int),
    {
        let ghost before = tier_list(out@);
        let entry = (updates[i].episode_id.clone(), updates[i].to);
        out.push(entry);
        assert(tier_list(out@) =~= before.push((entry.0@, entry.1)));
        assert(tier_list(out@) =~= targets(changes(updates@)).take(i as int + 1));
    }
    assert(tier_list(out@) =~= targets(changes(updates@)));
    out
}

impl EvictionEngine {
    /// What has to be done to carry a plan out. The slot is saved first where the cut rewrites
    /// it, and before an aligned cut as well where that is switched on.
    pub fn apply(&self, plan: &EvictionPlan, parts: &PromptParts, config: &CoherenceConfig) -> (r:
        ApplySteps)
        ensures
            match plan.coherence {
                Some(c) => {
                    &&& if config.saves(c.action) {
                        r.snapshot_reason matches Some(why) && why@ == c.reason@
                    } else {
                        r.snapshot_reason is None
                    }
                    &&& r.retained_text matches Some(t) && t@ == parts.retained(
                        parts.section_list(),
                        plan.retained_prefix_tokens as int,
                    )
                },
                None => r.snapshot_reason is None && r.retained_text is None,
            },
            tier_list(r.tiers@) == targets(changes(plan.updates@)),
            r.retained_tokens == plan.retained_prefix_tokens,
    {
        let snapshot_reason: Option<String> = match &plan.coherence {
            Some(c) => if config.asks_for_save(c.action) {
                Some(c.reason.clone())
            } else {
                None
            },
            None => None,
        };
        let retained_text: Option<String> = match &plan.coherence {
            Some(_) => Some(parts.retained_prefix_text(plan.retained_prefix_tokens)),
            None => None,
        };
        ApplySteps {
            snapshot_reason,
            tiers: tiers_of(&plan.updates),
            retained_text,
            retained_tokens: plan.retained_prefix_tokens,
        }
    }

    /// What came of carrying a plan out, given how many tiers were set and whether the slot
    /// was saved.
    pub fn applied(&self, plan: &EvictionPlan, applied: usize, snapshot_taken: bool) -> (r:
        EvictionOutcome)
        requires
            plan.countable(),
        ensures
            r.applied == applied,
            r.tokens_reclaimed == plan.planned_savings,
            r.snapshot_taken == snapshot_taken,
            r.cache_status == (match plan.coherence {
                Some(c) => c.status,
                None => CacheStatus::Unknown,
            }),
            r.detail@ == plan.summary_text(),
    {
        EvictionOutcome {
            applied,
            tokens_reclaimed: plan.planned_savings,
            snapshot_taken,
            cache_status: match &plan.coherence {
                Some(c) => c.status,
                None => CacheStatus::Unknown,
            },
            detail: plan.summary(),
        }
    }

    /// Whether a plan is worth carrying out.
    pub fn compact_if_needed(&self, plan: &EvictionPlan) -> (r: bool)
        ensures
            r == (plan.pressure != Pressure::Relaxed && plan.updates@.len() > 0),
    {
        plan.pressure != Pressure::Relaxed && !plan.is_empty()
    }

    /// Accepts a request to open a fold and names it.
    pub fn begin_fold(&self, description: &str) -> (r: Result<String, Error>)
        ensures
            if is_blank(description@) {
                r matches Err(Error::Invalid(m)) && m@ == "fold() requires a description"@
            } else {
                r matches Ok(id) && id@.len() == 37 && id@.take(4) == "fold"@ && id@[4] == '_'
                    && exists|bytes: Seq<u8>|
                    bytes.len() == 16 && bytes[6] / 16 == 7 && bytes[8] / 64 == 2 && id@.skip(5)
                        == #[trigger] hex_text(bytes)
            },
    {
        if blank(description) {
            return Err(Error::Invalid("fold() requires a description".to_owned()));
        }
        proof {
            reveal_strlit("fold");
            assert("fold"@.len() == 4);
        }
        Ok(new_id("fold"))
    }

    /// What came of opening a fold: where in the token stream it opened, and what a rollback
    /// can rely on.
    ///
    /// `checkpoint` is the save point, where one was taken; `n_past` is the slot's position,
    /// where it could be read.
    pub fn fold(
        &self,
        fold_id: String,
        tokens_at_open: usize,
        checkpoint: Option<String>,
        n_past: Option<i64>,
    ) -> (r: FoldOutcome)
        requires
            tokens_at_open <= i64::MAX,
        ensures
            r.fold_id == fold_id,
            r.checkpoint == checkpoint,
            r.tokens_at_open == tokens_at_open,
            r.token_position == (match n_past {
                Some(n) => n as int,
                None => tokens_at_open as int,
            }),
            r.cache_note@ == (match checkpoint {
                Some(path) => "save point "@ + path@ + " recorded at token "@ + signed_digits(
                    r.token_position as int,
                ) + "; unfold() will roll the slot back to it"@,
                None => "backend took no save point; unfold() will rely on the in-memory ring at token "@
                    + signed_digits(r.token_position as int)
                    + ", or report that no rollback was possible"@,
            }),
    {
        let token_position: i64 = match n_past {
            Some(n) => n,
            None => tokens_at_open as i64,
        };
        let cache_note = match &checkpoint {
            Some(path) => {
                let mut out = String::from_str("save point ");
                out.append(path.as_str());
                out.append(" recorded at token ");
                push_int(&mut out, token_position);
                out.append("; unfold() will roll the slot back to it");
                out
            },
            None => {
                let mut out = String::from_str(
                    "backend took no save point; unfold() will rely on the in-memory ring at token ",
                );
                push_int(&mut out, token_position);
                out.append(", or report that no rollback was possible");
                out
            },
        };
        FoldOutcome { fold_id, checkpoint, token_position, tokens_at_open, cache_note }
    }

    /// The edge that hangs a fold on its session.
    pub fn fold_edge(&self, fold_id: &str, session_id: &str) -> (r: EdgeRow)
        ensures
            r.src_type@ == NodeKind::Fold.name() && r.src_id@ == fold_id@,
            r.dst_type@ == NodeKind::Project.name() && r.dst_id@ == session_id@,
            r.edge_kind == EdgeKind::DependsOn,
            r.target_hash is None,
    {
        EdgeRow::new(
            &NodeRef::new(NodeKind::Fold, fold_id),
            &NodeRef::new(NodeKind::Project, session_id),
            EdgeKind::DependsOn,
        )
    }

    /// The edge that attaches an episode to a fold, given how many rows the tag was written
    /// to.
    pub fn tag_episode_with_fold(&self, episode_id: &str, fold_id: &str, rows: usize) -> (r: Result<
        EdgeRow,
        Error,
    >)
        ensures
            if rows == 0 {
                r matches Err(Error::NotFound(m)) && m@ == "episode "@ + episode_id@
            } else {
                r matches Ok(e) && e.src_type@ == NodeKind::Episode.name() && e.src_id@
                    == episode_id@ && e.dst_type@ == NodeKind::Fold.name() && e.dst_id@ == fold_id@
                    && e.edge_kind == EdgeKind::FoldedFrom && e.target_hash is None
            },
    {
        if rows == 0 {
            return Err(Error::NotFound(String::from_str("episode ").concat(episode_id)));
        }
        Ok(
            EdgeRow::new(
                &NodeRef::episode(episode_id),
                &NodeRef::new(NodeKind::Fold, fold_id),
                EdgeKind::FoldedFrom,
            ),
        )
    }

    /// What has to be done to close a fold, in this order: set the tiers, commit the summary
    /// as an episode, roll the slot back, store the result.
    pub fn unfold(&self, request: &UnfoldRequest, fold: Option<&FoldRecord>, episodes: &[EpisodeRow]) -> (r:
        Result<UnfoldSteps, Error>)
        requires
            measurable(episodes@),
        ensures
            if is_blank(request.result_summary@) {
                r matches Err(Error::Invalid(m)) && m@
                    == "unfold() requires a result_summary: the whole point is that the folded trace collapses to a result, and an empty result would lose all of it"@
            } else {
                match fold {
                    None => r matches Err(Error::NotFound(m)) && m@ == "fold "@ + request.fold_id@,
                    Some(f) => if f.status@ == "closed"@ {
                        r matches Err(Error::Invalid(m)) && m@ == "fold "@ + request.fold_id@
                            + " is already closed"@
                    } else {
                        r matches Ok(s) && s.collapses(*request, *f, episodes@, self.counter)
                    },
                }
            },
    {
        let summary = trim(request.result_summary);
        proof {
            blank_trims_to_nothing(request.result_summary@);
        }
        if summary.as_str().is_empty() {
            return Err(
                Error::Invalid(
                    "unfold() requires a result_summary: the whole point is that the folded trace collapses to a result, and an empty result would lose all of it".to_owned(),
                ),
            );
        }
        let f: &FoldRecord = match fold {
            Some(f) => f,
            None => {
                return Err(Error::NotFound(String::from_str("fold ").concat(request.fold_id)));
            },
        };
        if same(f.status.as_str(), "closed") {
            let mut m = String::from_str("fold ");
            m.append(request.fold_id);
            m.append(" is already closed");
            return Err(Error::Invalid(m));
        }
        let n: usize = episodes.len();
        let mut tiers: Vec<(String, EpisodeTier)> = Vec::new();
        let mut tokens_before: usize = 0;
        for i in 0..n
            invariant
                n == episodes@.len(),
                measurable(episodes@),
                tokens_before == tokens_of_first(episodes@, i as int),
                tier_list(tiers@) == all_referenced(episodes@).take(i as int),
        {
            proof {
                super::tokens_of_first_grow(episodes@, i as int + 1, n as int);
                assert(episodes@[i as int].wf());
            }
            let ghost before = tier_list(tiers@);
            tokens_before = tokens_before + episodes[i].token_count as usize;
            let entry = (episodes[i].episode_id.clone(), EpisodeTier::Referenced);
            tiers.push(entry);
            assert(tier_list(tiers@) =~= before.push((entry.0@, entry.1)));
            assert(tier_list(tiers@) =~= all_referenced(episodes@).take(i as int + 1));
        }
        assert(tier_list(tiers@) =~= all_referenced(episodes@));
        let mut content = String::from_str("[fold ");
        content.append(request.fold_id);
        content.append(" · ");
        content.append(f.description.as_str());
        content.append("] result: ");
        content.append(summary.as_str());
        let mut meta = String::from_str("{\"fold_id\":");
        meta.append(quote(request.fold_id).as_str());
        meta.append(",\"folded_episodes\":");
        push_nat(&mut meta, n as u64);
        meta.append(",\"folded_tokens\":");
        push_nat(&mut meta, tokens_before as u64);
        meta.append(",\"goal\":");
        meta.append(quote(f.goal.as_str()).as_str());
        meta.append("}");
        let episode = NewEpisode {
            session_id: request.session_id.to_owned(),
            slot_id: Some(request.slot_id.to_owned()),
            role: Role::Internal,
            content,
            tool_name: None,
            fold_id: None,
            droppable: false,
            meta: Some(meta),
            project_id: None,
        };
        let summary_tokens: usize = self.counter.count(summary.as_str()).get();
        Ok(
            UnfoldSteps {
                tiers,
                episode,
                roll_back_to: f.opened_token_position,
                tokens_reclaimed: tokens_before.saturating_sub(summary_tokens),
                episodes_folded: n,
                summary,
            },
        )
    }

    /// What came of closing a fold, given how the rollback went, where it could be tried.
    pub fn unfolded(&self, fold_id: &str, steps: &UnfoldSteps, rollback: Option<&RollBackOutcome>) -> (r:
        UnfoldOutcome)
        ensures
            r.fold_id@ == fold_id@,
            r.tokens_reclaimed == steps.tokens_reclaimed,
            r.episodes_folded == steps.episodes_folded,
            r.trace_retrievable,
            match rollback {
                Some(b) => r.rollback_performed == b.performed && r.rollback_detail@ == b.detail@,
                None => !r.rollback_performed && r.rollback_detail@
                    == "rollback could not be attempted"@,
            },
    {
        let (performed, detail): (bool, String) = match rollback {
            Some(b) => (b.performed, b.detail.clone()),
            None => (false, "rollback could not be attempted".to_owned()),
        };
        UnfoldOutcome {
            fold_id: fold_id.to_owned(),
            tokens_reclaimed: steps.tokens_reclaimed,
            episodes_folded: steps.episodes_folded,
            rollback_performed: performed,
            rollback_detail: detail,
            trace_retrievable: true,
        }
    }

    /// Everything that happened inside a fold.
    pub fn recall_fold(&self, fold_id: &str, fold: Option<FoldRecord>, episodes: Vec<EpisodeRow>) -> (r:
        Result<FoldTrace, Error>)
        requires
            forall|i: int| 0 <= i < episodes@.len() ==> (#[trigger] episodes@[i]).wf(),
            fold matches Some(f) ==> f.wf(),
        ensures
            match fold {
                None => r matches Err(Error::NotFound(m)) && m@ == "fold "@ + fold_id@,
                Some(f) => r matches Ok(t) && {
                    &&& t.fold_id@ == fold_id@
                    &&& t.description == f.description && t.goal == f.goal && t.status == f.status
                    &&& t.result_summary == f.result_summary
                    &&& t.tokens_at_open == (match f.tokens_at_open {
                        Some(n) => n as int,
                        None => 0,
                    })
                    &&& t.tokens_reclaimed == (match f.tokens_reclaimed {
                        Some(n) => n as int,
                        None => 0,
                    })
                    &&& t.created_at == f.created_at && t.closed_at == f.closed_at
                    &&& t.episodes@.len() == episodes@.len()
                    &&& forall|i: int|
                        0 <= i < episodes@.len() ==> traces(#[trigger] t.episodes@[i], episodes@[i])
                },
            },
    {
        let f: FoldRecord = match fold {
            Some(f) => f,
            None => {
                return Err(Error::NotFound(String::from_str("fold ").concat(fold_id)));
            },
        };
        let ghost all = episodes@;
        let mut out: Vec<FoldTraceEntry> = Vec::new();
        for e in it: episodes
            invariant
                it.seq() == all,
                forall|i: int| 0 <= i < all.len() ==> (#[trigger] all[i]).wf(),
                out@.len() == it.index(),
                forall|i: int| 0 <= i < out@.len() ==> traces(#[trigger] out@[i], all[i]),
        {
            assert(all[it.index() as int].wf());
            out.push(
                FoldTraceEntry {
                    episode_id: e.episode_id,
                    seq: e.seq,
                    role: e.role,
                    tool_name: e.tool_name,
                    token_count: e.token_count as usize,
                    content: e.content,
                },
            );
        }
        Ok(
            FoldTrace {
                fold_id: fold_id.to_owned(),
                description: f.description,
                goal: f.goal,
                status: f.status,
                result_summary: f.result_summary,
                tokens_at_open: match f.tokens_at_open {
                    Some(n) => n as usize,
                    None => 0,
                },
                tokens_reclaimed: match f.tokens_reclaimed {
                    Some(n) => n as usize,
                    None => 0,
                },
                created_at: f.created_at,
                closed_at: f.closed_at,
                episodes: out,
            },
        )
    }
}

/// Whether a trace shows this episode.
pub open spec fn traces(entry: FoldTraceEntry, row: EpisodeRow) -> bool {
    &&& entry.episode_id == row.episode_id
    &&& entry.seq == row.seq
    &&& entry.role == row.role
    &&& entry.tool_name == row.tool_name
    &&& entry.token_count == row.token_count
    &&& entry.content == row.content
}

/// A stored fold.
#[derive(Debug)]
pub struct FoldRecord {
    pub description: String,
    pub goal: String,
    /// `open` or `closed`.
    pub status: String,
    pub result_summary: Option<String>,
    /// Where it opened, zero if that was not recorded.
    pub opened_token_position: i64,
    pub tokens_at_open: Option<i64>,
    pub tokens_reclaimed: Option<i64>,
    pub created_at: String,
    pub closed_at: Option<String>,
}

impl FoldRecord {
    /// A stored fold has proper sizes.
    pub open spec fn wf(self) -> bool {
        &&& self.tokens_at_open matches Some(n) ==> 0 <= n <= usize::MAX
        &&& self.tokens_reclaimed matches Some(n) ==> 0 <= n <= usize::MAX
    }
}

/// A request to close a fold.
pub struct UnfoldRequest<'a> {
    pub session_id: &'a str,
    pub slot_id: &'a str,
    pub fold_id: &'a str,
    pub result_summary: &'a str,
}

/// What has to be done to close a fold.
#[derive(Debug)]
pub struct UnfoldSteps {
    /// The episodes of the fold leave the window.
    pub tiers: Vec<(String, EpisodeTier)>,
    /// The result stands in the stream as one episode.
    pub episode: NewEpisode,
    /// Where the slot is rolled back to.
    pub roll_back_to: i64,
    pub tokens_reclaimed: usize,
    pub episodes_folded: usize,
    /// The result, trimmed.
    pub summary: String,
}

/// Every episode out of the window, in their order.
pub open spec fn all_referenced(episodes: Seq<EpisodeRow>) -> Seq<(Seq<char>, EpisodeTier)> {
    Seq::new(episodes.len(), |i: int| (episodes[i].episode_id@, EpisodeTier::Referenced))
}

impl UnfoldSteps {
    /// Whether these steps collapse the fold's episodes to the requested result.
    pub open spec fn collapses(
        self,
        request: UnfoldRequest,
        fold: FoldRecord,
        episodes: Seq<EpisodeRow>,
        counter: TokenCounter,
    ) -> bool {
        let summary = trimmed(request.result_summary@);
        let tokens = tokens_of_first(episodes, episodes.len() as int);
        &&& tier_list(self.tiers@) == all_referenced(episodes)
        &&& self.summary@ == summary
        &&& self.roll_back_to == fold.opened_token_position
        &&& self.episodes_folded == episodes.len()
        &&& self.tokens_reclaimed == (if tokens > counter.of(summary) {
            tokens - counter.of(summary)
        } else {
            0
        })
        &&& self.episode.session_id@ == request.session_id@
        &&& self.episode.slot_id matches Some(s) && s@ == request.slot_id@
        &&& self.episode.role == Role::Internal
        &&& self.episode.content@ == "[fold "@ + request.fold_id@ + " · "@ + fold.description@
            + "] result: "@ + summary
        &&& self.episode.tool_name is None && self.episode.fold_id is None
        &&& !self.episode.droppable && self.episode.project_id is None
        &&& self.episode.meta matches Some(m) && m@ == "{\"fold_id\":"@ + quoted(request.fold_id@)
            + ",\"folded_episodes\":"@ + digits(episodes.len()) + ",\"folded_tokens\":"@ + digits(
            tokens as nat,
        ) + ",\"goal\":"@ + quoted(fold.goal@) + "}"@
    }
}

/// Closing a fold loses nothing of it: every episode only leaves the window, and the trace
/// still shows each of them word for word.
pub proof fn folding_keeps_the_trace(
    steps: UnfoldSteps,
    trace: FoldTrace,
    request: UnfoldRequest,
    fold: FoldRecord,
    episodes: Seq<EpisodeRow>,
    counter: TokenCounter,
    i: int,
)
    requires
        steps.collapses(request, fold, episodes, counter),
        trace.episodes@.len() == episodes.len(),
        forall|k: int|
            0 <= k < episodes.len() ==> traces(#[trigger] trace.episodes@[k], episodes[k]),
        0 <= i < episodes.len(),
    ensures
        tier_list(steps.tiers@)[i] == (episodes[i].episode_id@, EpisodeTier::Referenced),
        trace.episodes@[i].content@ == episodes[i].content@,
{
    assert(traces(trace.episodes@[i], episodes[i]));
}

/// Carrying a plan out sets each episode of it to the tier that the plan gives it, in order and
/// no other, and keeps what the plan retains. The slot is saved first only where the
/// configuration asks for that, for the reason that the boundary gives.
pub proof fn applying_sets_what_was_planned(
    engine: &EvictionEngine,
    plan: &EvictionPlan,
    parts: &PromptParts,
    config: &CoherenceConfig,
    r: ApplySteps,
    kept: String,
    i: int,
)
    requires
        call_ensures(EvictionEngine::apply, (engine, plan, parts, config), r),
        call_ensures(PromptParts::retained_prefix_text, (parts, plan.retained_prefix_tokens), kept),
        0 <= i < plan.updates@.len(),
    ensures
        r.tiers@.len() == plan.updates@.len(),
        r.tiers@[i].0@ == plan.updates@[i].episode_id@,
        r.tiers@[i].1 == plan.updates@[i].to,
        r.retained_tokens == plan.retained_prefix_tokens,
        plan.coherence is None ==> r.snapshot_reason is None && r.retained_text is None,
        plan.coherence is Some ==> (r.retained_text matches Some(t) && t@ == kept@),
        plan.coherence matches Some(c) ==> {
            let asked = c.action is SnapshotThenEvict && config.snapshot_before_rewrite
                || c.action is EvictAtAlignedBoundary && config.snapshot_even_when_aligned;
            &&& r.snapshot_reason is Some <==> asked
            &&& r.snapshot_reason matches Some(why) ==> why@ == c.reason@
        },
{
    let list = tier_list(r.tiers@);
    assert(list.len() == r.tiers@.len());
    assert(list[i] == (r.tiers@[i].0@, r.tiers@[i].1));
    assert(changes(plan.updates@)[i] == plan.updates@[i].change());
    assert(list[i] == targets(changes(plan.updates@))[i]);
}

/// A plan is carried out exactly where there is pressure and something to change.
pub proof fn only_a_plan_with_changes_is_carried_out(
    engine: &EvictionEngine,
    plan: &EvictionPlan,
    r: bool,
)
    requires
        call_ensures(EvictionEngine::compact_if_needed, (engine, plan), r),
    ensures
        plan.updates@.len() == 0 ==> !r,
        plan.pressure is Relaxed ==> !r,
        plan.pressure is Compacting && plan.updates@.len() > 0 ==> r,
{
}

/// What came of a plan is told by its own figures.
pub proof fn an_outcome_tells_of_its_plan(
    engine: &EvictionEngine,
    plan: &EvictionPlan,
    applied: usize,
    saved: bool,
    r: EvictionOutcome,
)
    requires
        call_ensures(EvictionEngine::applied, (engine, plan, applied, saved), r),
    ensures
        r.applied == applied && r.snapshot_taken == saved,
        r.tokens_reclaimed == plan.planned_savings,
        plan.coherence matches Some(c) ==> r.cache_status == c.status,
        plan.coherence is None ==> r.cache_status is Unknown,
{
}

/// An open fold is closed where a result is given: every episode of it leaves the window as a
/// reference, in order; one episode with the result takes their place; the slot goes back to
/// where the fold opened; and what is saved is what they cost together, less what the result
/// costs. Without a result, without such a fold, and where it is closed already nothing is done.
pub proof fn closing_a_fold_leaves_its_result(
    engine: &EvictionEngine,
    request: &UnfoldRequest,
    fold: Option<&FoldRecord>,
    episodes: &[EpisodeRow],
    r: Result<UnfoldSteps, Error>,
    i: int,
)
    requires
        call_ensures(EvictionEngine::unfold, (engine, request, fold, episodes), r),
        0 <= i < episodes@.len(),
    ensures
        r is Ok <==> !is_blank(request.result_summary@) && (fold matches Some(f) && f.status@
            != "closed"@),
        r matches Ok(s) ==> {
            &&& s.tiers@.len() == episodes@.len() && s.episodes_folded == episodes@.len()
            &&& s.tiers@[i].0@ == episodes@[i].episode_id@ && s.tiers@[i].1 is Referenced
            &&& s.summary@ == trimmed(request.result_summary@)
            &&& s.roll_back_to == fold->0.opened_token_position
            &&& s.episode.role is Internal && s.episode.session_id@ == request.session_id@
                && s.episode.fold_id is None && !s.episode.droppable
            &&& s.episode.content@.len() >= s.summary@.len() && s.episode.content@.skip(
                s.episode.content@.len() - s.summary@.len(),
            ) == s.summary@
            &&& ({
                let cost = tokens_of_first(episodes@, episodes@.len() as int);
                let left = engine.counter.of(s.summary@);
                &&& cost >= left ==> s.tokens_reclaimed + left == cost
                &&& cost < left ==> s.tokens_reclaimed == 0
            })
        },
{
    if r is Ok {
        let s = r->Ok_0;
        let list = tier_list(s.tiers@);
        assert(list.len() == s.tiers@.len());
        assert(list[i] == (s.tiers@[i].0@, s.tiers@[i].1));
        assert(list[i] == all_referenced(episodes@)[i]);
        let content = s.episode.content@;
        let summary = s.summary@;
        assert(content.skip(content.len() - summary.len()) =~= summary);
    }
}

/// The trace of a fold shows every episode of it as it was, in order.
pub proof fn a_trace_shows_every_episode(
    engine: &EvictionEngine,
    fold_id: &str,
    fold: Option<FoldRecord>,
    episodes: Vec<EpisodeRow>,
    r: Result<FoldTrace, Error>,
    i: int,
)
    requires
        call_ensures(EvictionEngine::recall_fold, (engine, fold_id, fold, episodes), r),
        0 <= i < episodes@.len(),
    ensures
        r is Ok <==> fold is Some,
        r matches Ok(t) ==> t.episodes@.len() == episodes@.len() && t.episodes@[i].content
            == episodes@[i].content && t.episodes@[i].episode_id == episodes@[i].episode_id
            && t.episodes@[i].seq == episodes@[i].seq && t.episodes@[i].token_count
            == episodes@[i].token_count,
        r matches Ok(t) ==> t.status == fold->0.status && t.result_summary == fold->0.result_summary,
{
    if r is Ok {
        assert(traces(r->Ok_0.episodes@[i], episodes@[i]));
    }
}

/// A fold opens where the slot stands, or where the window ends in case that is not known; and
/// closing it goes back to that very position.
pub proof fn a_fold_opens_where_the_slot_stands(
    engine: &EvictionEngine,
    fold_id: String,
    tokens: usize,
    checkpoint: Option<String>,
    n_past: Option<i64>,
    r: FoldOutcome,
)
    requires
        call_ensures(EvictionEngine::fold, (engine, fold_id, tokens, checkpoint, n_past), r),
    ensures
        n_past matches Some(n) ==> r.token_position == n,
        n_past is None ==> r.token_position == tokens,
        r.fold_id == fold_id && r.tokens_at_open == tokens && r.checkpoint == checkpoint,
{
}

} // verus!
