//! Consolidation: memory work that is done while nothing else runs.
//!
//! A pass promotes telling episodes into the atlas, derives stale entries anew, and archives
//! what has long been cold. It only ever runs when every tracked slot is known to be idle, and
//! it stops between two items as soon as that no longer holds.

pub use crate::summary::{extractive_summary, truncate_words};

use crate::error::Error;
use crate::ids::{parse_rfc3339, rfc3339_instant, Instant};
use crate::json::{trees_in_order, Json, Tree};
use crate::memory::dependency::{NodeKind, ReachedNode};
use crate::memory::episodic::{EpisodeRow, EpisodeTier};
use crate::memory::semantic::{AnchorType, SemanticWrite};
use crate::memory::symbolic::SymbolicFact;
use crate::summary::summary_of;
use crate::text::{
    at_least_zero, blank, digits, is_blank, nonnegative, push_int, push_nat, same, signed_digits,
    strip_back, texts, trim, trim_end_char, trimmed,
};
use crate::tokens::TokenCounter;
use vstd::prelude::*;
use vstd::string::*;

verus! {

/// How summaries are made.
#[derive(Debug)]
pub enum SummaryPolicy {
    /// From the text's own sentences.
    Extractive,
    /// By a model behind an endpoint.
    AuxiliaryModel { base_url: String, model: String, max_tokens: usize },
}

/// The settings of a pass.
#[derive(Debug)]
pub struct ConsolidatorConfig {
    /// Seconds without activity before a pass may start.
    pub quiet_period_secs: u64,
    pub poll_interval_secs: u64,
    /// The least tokens that make an episode worth summarising.
    pub min_episode_tokens: usize,
    /// The most items that one pass works on, over all of its phases.
    pub max_items_per_pass: usize,
    pub regenerate_stale: bool,
    pub promote_episodes: bool,
    pub reembed: bool,
    /// Days after which an episode is archived, if at all.
    pub archive_after_days: Option<i64>,
    pub max_regenerations_per_pass: usize,
    pub summary_policy: SummaryPolicy,
}

impl Default for ConsolidatorConfig {
    fn default() -> (r: Self)
        ensures
            r.quiet_period_secs == 90,
            r.poll_interval_secs == 15,
            r.min_episode_tokens == 96,
            r.max_items_per_pass == 24,
            r.regenerate_stale && r.promote_episodes && r.reembed,
            r.archive_after_days == Some(14i64),
            r.max_regenerations_per_pass == 8,
            r.summary_policy is Extractive,
    {
        ConsolidatorConfig {
            quiet_period_secs: 90,
            poll_interval_secs: 15,
            min_episode_tokens: 96,
            max_items_per_pass: 24,
            regenerate_stale: true,
            promote_episodes: true,
            reembed: true,
            archive_after_days: Some(14),
            max_regenerations_per_pass: 8,
            summary_policy: SummaryPolicy::Extractive,
        }
    }
}

/// How many stale entries a pass looks up.
pub const STALE_LOOKED_UP: usize = 64;

/// How many entries without a vector a pass looks up.
pub const UNEMBEDDED_LOOKED_UP: usize = 64;

/// How many sessions a pass looks through for episodes to promote.
pub const SESSIONS_TO_PROMOTE: usize = 16;

/// How many sessions a pass looks through for episodes to archive.
pub const SESSIONS_TO_ARCHIVE: usize = 64;

/// What one pass did.
#[derive(Debug)]
pub struct ConsolidationReport {
    pub ran: bool,
    pub skipped_reason: Option<String>,
    pub promoted: usize,
    pub regenerated: usize,
    pub reembedded: usize,
    pub archived: usize,
    pub pruned_vectors: usize,
    pub interrupted: bool,
    pub elapsed_ms: i64,
    pub notes: Vec<String>,
}

impl Default for ConsolidationReport {
    fn default() -> (r: Self)
        ensures
            !r.ran && !r.interrupted,
            r.skipped_reason is None,
            r.promoted == 0 && r.regenerated == 0 && r.reembedded == 0 && r.archived == 0,
            r.pruned_vectors == 0 && r.elapsed_ms == 0,
            r.notes@.len() == 0,
    {
        ConsolidationReport {
            ran: false,
            skipped_reason: None,
            promoted: 0,
            regenerated: 0,
            reembedded: 0,
            archived: 0,
            pruned_vectors: 0,
            interrupted: false,
            elapsed_ms: 0,
            notes: Vec::new(),
        }
    }
}

/// Something that happened in a pass.
#[derive(Debug)]
pub enum PassEvent {
    /// Activity came up before an item of a phase.
    Interrupted { phase: Phase },
    /// An entry's text could not be derived.
    NotDerived { atlas_id: String, error: String },
    /// An entry was derived anew; embedding it may have failed.
    Regenerated { embed_error: Option<String> },
    /// An entry could not be written.
    NotRefreshed { atlas_id: String, error: String },
    /// An episode is not worth promoting.
    NotWorthPromoting { note: String },
    /// An episode was promoted.
    Promoted,
    /// An episode could not be promoted.
    NotPromoted { episode_id: String, error: String },
    /// An entry was embedded.
    Embedded,
    /// An episode was archived.
    Archived,
}

impl PassEvent {
    /// The note that an event leaves, where it leaves one.
    pub open spec fn note(self) -> Seq<Seq<char>> {
        match self {
            PassEvent::Interrupted { phase } => match phase {
                Phase::Regenerate => seq!["interrupted by new activity while regenerating"@],
                Phase::Promote => seq!["interrupted by new activity while promoting"@],
                _ => Seq::empty(),
            },
            PassEvent::NotDerived { atlas_id, error } => seq![
                "could not re-derive a summary for "@ + atlas_id@ + ": "@ + error@,
            ],
            PassEvent::Regenerated { embed_error } => match embed_error {
                Some(e) => seq!["re-embed failed: "@ + e@],
                None => Seq::empty(),
            },
            PassEvent::NotRefreshed { atlas_id, error } => seq![
                "regeneration of "@ + atlas_id@ + " failed: "@ + error@,
            ],
            PassEvent::NotWorthPromoting { note } => seq![note@],
            PassEvent::NotPromoted { episode_id, error } => seq![
                "promotion of "@ + episode_id@ + " failed: "@ + error@,
            ],
            _ => Seq::empty(),
        }
    }

    /// Whether the event ends the pass early.
    pub open spec fn interrupts(self) -> bool {
        self is Interrupted
    }
}

/// One where it applies, else none.
pub open spec fn one_if(applies: bool) -> nat {
    if applies {
        1
    } else {
        0
    }
}

impl ConsolidationReport {
    /// Whether the counters have room for one more.
    pub open spec fn has_room(self) -> bool {
        self.promoted < usize::MAX && self.regenerated < usize::MAX && self.reembedded < usize::MAX
            && self.archived < usize::MAX
    }

    /// Whether the counters have room for one more.
    pub fn room(&self) -> (r: bool)
        ensures
            r == self.has_room(),
    {
        self.promoted < usize::MAX && self.regenerated < usize::MAX && self.reembedded < usize::MAX
            && self.archived < usize::MAX
    }

    /// A report on a pass that did not run.
    pub open spec fn is_skip(self, reason: Seq<char>) -> bool {
        &&& !self.ran && !self.interrupted
        &&& self.skipped_reason matches Some(s) && s@ == reason
        &&& self.promoted == 0 && self.regenerated == 0 && self.reembedded == 0 && self.archived
            == 0
        &&& self.pruned_vectors == 0 && self.elapsed_ms == 0
        &&& self.notes@.len() == 0
    }

    fn skipped(reason: String) -> (r: Self)
        ensures
            r.is_skip(reason@),
    {
        ConsolidationReport { skipped_reason: Some(reason), ..ConsolidationReport::default() }
    }

    /// Takes an event in.
    pub fn record(&mut self, event: PassEvent)
        requires
            old(self).has_room(),
        ensures
            texts(final(self).notes@) == texts(old(self).notes@) + event.note(),
            final(self).interrupted == (old(self).interrupted || event.interrupts()),
            final(self).promoted == old(self).promoted + one_if(event is Promoted),
            final(self).regenerated == old(self).regenerated + one_if(event is Regenerated),
            final(self).reembedded == old(self).reembedded + one_if(event is Embedded),
            final(self).archived == old(self).archived + one_if(event is Archived),
            final(self).ran == old(self).ran,
            final(self).skipped_reason == old(self).skipped_reason,
            final(self).pruned_vectors == old(self).pruned_vectors,
            final(self).elapsed_ms == old(self).elapsed_ms,
    {
        let ghost before = texts(self.notes@);
        let ghost event_note = event.note();
        let note: Option<String> = match event {
            PassEvent::Interrupted { phase } => {
                self.interrupted = true;
                match phase {
                    Phase::Regenerate => Some(
                        "interrupted by new activity while regenerating".to_owned(),
                    ),
                    Phase::Promote => Some(
                        "interrupted by new activity while promoting".to_owned(),
                    ),
                    _ => None,
                }
            },
            PassEvent::NotDerived { atlas_id, error } => {
                let mut s = String::from_str("could not re-derive a summary for ");
                s.append(atlas_id.as_str());
                s.append(": ");
                s.append(error.as_str());
                Some(s)
            },
            PassEvent::Regenerated { embed_error } => {
                self.regenerated = self.regenerated + 1;
                match embed_error {
                    Some(e) => Some(String::from_str("re-embed failed: ").concat(e.as_str())),
                    None => None,
                }
            },
            PassEvent::NotRefreshed { atlas_id, error } => {
                let mut s = String::from_str("regeneration of ");
                s.append(atlas_id.as_str());
                s.append(" failed: ");
                s.append(error.as_str());
                Some(s)
            },
            PassEvent::NotWorthPromoting { note } => Some(note),
            PassEvent::Promoted => {
                self.promoted = self.promoted + 1;
                None
            },
            PassEvent::NotPromoted { episode_id, error } => {
                let mut s = String::from_str("promotion of ");
                s.append(episode_id.as_str());
                s.append(" failed: ");
                s.append(error.as_str());
                Some(s)
            },
            PassEvent::Embedded => {
                self.reembedded = self.reembedded + 1;
                None
            },
            PassEvent::Archived => {
                self.archived = self.archived + 1;
                None
            },
        };
        match note {
            Some(s) => {
                let ghost added = s@;
                self.notes.push(s);
                assert(texts(self.notes@) =~= before.push(added));
                assert(event_note =~= seq![added]);
                assert(before + event_note =~= before.push(added));
            },
            None => {
                assert(before + event_note =~= before);
            },
        }
    }

    /// The report in one line.
    pub open spec fn shown(self) -> Seq<char> {
        if !self.ran {
            "consolidation skipped: "@ + (match self.skipped_reason {
                Some(s) => s@,
                None => "unknown reason"@,
            })
        } else {
            "dream cycle: promoted "@ + digits(self.promoted as nat) + ", regenerated "@ + digits(
                self.regenerated as nat,
            ) + ", re-embedded "@ + digits(self.reembedded as nat) + ", archived "@ + digits(
                self.archived as nat,
            ) + (if self.interrupted {
                " (interrupted)"@
            } else {
                ""@
            }) + " · "@ + signed_digits(self.elapsed_ms as int) + " ms"@
        }
    }

    /// The report in one line.
    pub fn summary(&self) -> (r: String)
        ensures
            r@ == self.shown(),
    {
        if !self.ran {
            let why: &str = match &self.skipped_reason {
                Some(s) => s.as_str(),
                None => "unknown reason",
            };
            return String::from_str("consolidation skipped: ").concat(why);
        }
        let mut out = String::from_str("dream cycle: promoted ");
        push_nat(&mut out, self.promoted as u64);
        out.append(", regenerated ");
        push_nat(&mut out, self.regenerated as u64);
        out.append(", re-embedded ");
        push_nat(&mut out, self.reembedded as u64);
        out.append(", archived ");
        push_nat(&mut out, self.archived as u64);
        if self.interrupted {
            out.append(" (interrupted)");
        } else {
            out.append("");
        }
        out.append(" · ");
        push_int(&mut out, self.elapsed_ms);
        out.append(" ms");
        out
    }
}

/// What is known of a slot.
#[derive(Debug, Clone, Copy, PartialEq, Eq, Structural)]
pub enum SlotActivity {
    Idle,
    Generating,
    /// A slot that cannot be read cannot be shown to be idle.
    Unreadable,
}

/// A kind of work that a pass may do, in the order in which a pass does them.
#[derive(Debug, Clone, Copy, PartialEq, Eq, Structural)]
pub enum Phase {
    /// Stale entries are derived anew.
    Regenerate,
    /// Episodes are promoted into the atlas.
    Promote,
    /// Entries without a vector get one.
    Embed,
    /// Long-cold episodes are archived.
    Archive,
    /// Vectors of what no longer exists are removed.
    Prune,
}

impl Phase {
    /// The place among the phases.
    pub open spec fn place(self) -> int {
        match self {
            Phase::Regenerate => 0,
            Phase::Promote => 1,
            Phase::Embed => 2,
            Phase::Archive => 3,
            Phase::Prune => 4,
        }
    }
}

/// What a pass waits for.
#[derive(Debug, Clone, Copy, PartialEq, Eq, Structural)]
pub enum Stage {
    /// Whether the phase has another item.
    Fetching,
    /// Whether work may be done.
    Asking,
    /// That the item is done.
    Working,
    /// Nothing: the pass is over.
    Over,
}

/// Where a pass stands, and which phases it has.
#[derive(Debug, Clone, Copy, PartialEq, Eq, Structural)]
pub struct PassState {
    pub regenerate: bool,
    pub promote: bool,
    pub reembed: bool,
    pub archive: bool,
    /// How many more items may be worked on. Removing vectors is no item.
    pub left: usize,
    pub phase: Phase,
    pub stage: Stage,
}

/// What a pass is told.
#[derive(Debug, Clone, Copy, PartialEq, Eq, Structural)]
pub enum PassSignal {
    /// The phase has another item.
    Item,
    /// The phase has no further item.
    NoMore,
    /// It has been quiet for long enough, and every watched slot is known to be idle.
    Idle,
    /// Work may not be done.
    Busy,
    /// The item is done.
    Done,
}

/// What a pass does next.
#[derive(Debug, Clone, Copy, PartialEq, Eq, Structural)]
pub enum PassAction {
    /// Look up the next item of a phase.
    Fetch(Phase),
    /// Ask every watched slot.
    Ask,
    /// Do the item.
    Work(Phase),
    /// Record that activity came up, and end the pass.
    Interrupt(Phase),
    /// End the pass.
    Stop,
}

impl PassState {
    /// Whether the pass has a phase.
    pub open spec fn includes(self, phase: Phase) -> bool {
        match phase {
            Phase::Regenerate => self.regenerate,
            Phase::Promote => self.promote,
            Phase::Embed => self.reembed,
            Phase::Archive => self.archive,
            Phase::Prune => true,
        }
    }

    /// The first phase of the pass that has this place or a later one.
    pub open spec fn phase_from(self, place: int) -> Phase {
        if place <= 0 && self.regenerate {
            Phase::Regenerate
        } else if place <= 1 && self.promote {
            Phase::Promote
        } else if place <= 2 && self.reembed {
            Phase::Embed
        } else if place <= 3 && self.archive {
            Phase::Archive
        } else {
            Phase::Prune
        }
    }

    fn first_from(&self, place: u8) -> (r: Phase)
        ensures
            r == self.phase_from(place as int),
    {
        if place == 0 && self.regenerate {
            Phase::Regenerate
        } else if place <= 1 && self.promote {
            Phase::Promote
        } else if place <= 2 && self.reembed {
            Phase::Embed
        } else if place <= 3 && self.archive {
            Phase::Archive
        } else {
            Phase::Prune
        }
    }

    /// The pass that waits for something else.
    pub open spec fn at(self, phase: Phase, stage: Stage) -> PassState {
        PassState { phase, stage, ..self }
    }

    /// Whether a pass with these phases can stand there.
    pub open spec fn wf(self) -> bool {
        self.includes(self.phase)
    }

    /// Whether the pass has worked on as many items as it may.
    pub open spec fn used_up(self) -> bool {
        self.left == 0 && !(self.phase is Prune)
    }

    /// What is left after an item of the phase.
    pub open spec fn less_one(self) -> PassState {
        if self.phase is Prune {
            self
        } else {
            PassState { left: (self.left - 1) as usize, ..self }
        }
    }

    /// What follows on a signal. Activity ends the pass, whatever it waits for. Work is done
    /// on an item only once the slots were asked and found idle, and on no more items than
    /// the pass may take.
    pub open spec fn after(self, signal: PassSignal) -> (PassState, PassAction) {
        if self.stage is Over {
            (self, PassAction::Stop)
        } else if signal is Busy {
            (self.at(self.phase, Stage::Over), PassAction::Interrupt(self.phase))
        } else if self.used_up() && !(self.stage is Working) {
            (self.at(Phase::Prune, Stage::Fetching), PassAction::Fetch(Phase::Prune))
        } else {
            match self.stage {
                Stage::Fetching => match signal {
                    PassSignal::Item => (self.at(self.phase, Stage::Asking), PassAction::Ask),
                    PassSignal::NoMore => if self.phase is Prune {
                        (self.at(self.phase, Stage::Over), PassAction::Stop)
                    } else {
                        let next = self.phase_from(self.phase.place() + 1);
                        (self.at(next, Stage::Fetching), PassAction::Fetch(next))
                    },
                    _ => (self, PassAction::Fetch(self.phase)),
                },
                Stage::Asking => if signal is Idle {
                    (self.less_one().at(self.phase, Stage::Working), PassAction::Work(self.phase))
                } else {
                    (self, PassAction::Ask)
                },
                _ => (self.at(self.phase, Stage::Fetching), PassAction::Fetch(self.phase)),
            }
        }
    }
}

/// The next step of a pass.
pub fn next_step(state: PassState, event: PassSignal) -> (r: (PassState, PassAction))
    ensures
        r == state.after(event),
        r.1 is Work ==> state.stage is Asking && event is Idle,
        event is Busy ==> r.0.stage is Over && (r.1 is Interrupt || r.1 is Stop),
        state.wf() ==> r.0.wf(),
{
    if state.stage == Stage::Over {
        return (state, PassAction::Stop);
    }
    if event == PassSignal::Busy {
        return (PassState { stage: Stage::Over, ..state }, PassAction::Interrupt(state.phase));
    }
    if state.left == 0 && state.phase != Phase::Prune && state.stage != Stage::Working {
        let phase = Phase::Prune;
        return (PassState { phase, stage: Stage::Fetching, ..state }, PassAction::Fetch(phase));
    }
    match state.stage {
        Stage::Fetching => match event {
            PassSignal::Item => (PassState { stage: Stage::Asking, ..state }, PassAction::Ask),
            PassSignal::NoMore => {
                let next: Phase = match state.phase {
                    Phase::Regenerate => state.first_from(1),
                    Phase::Promote => state.first_from(2),
                    Phase::Embed => state.first_from(3),
                    Phase::Archive => state.first_from(4),
                    Phase::Prune => {
                        return (PassState { stage: Stage::Over, ..state }, PassAction::Stop);
                    },
                };
                (PassState { phase: next, ..state }, PassAction::Fetch(next))
            },
            _ => (state, PassAction::Fetch(state.phase)),
        },
        Stage::Asking => if event == PassSignal::Idle {
            let left: usize = if state.phase == Phase::Prune {
                state.left
            } else {
                state.left - 1
            };
            (PassState { left, stage: Stage::Working, ..state }, PassAction::Work(state.phase))
        } else {
            (state, PassAction::Ask)
        },
        _ => (PassState { stage: Stage::Fetching, ..state }, PassAction::Fetch(state.phase)),
    }
}

/// Where a pass stands after some signals.
pub open spec fn state_after(start: PassState, signals: Seq<PassSignal>) -> PassState
    decreases signals.len(),
{
    if signals.len() == 0 {
        start
    } else {
        state_after(start, signals.drop_last()).after(signals.last()).0
    }
}

/// What a pass does on the signal at an index.
pub open spec fn action_at(start: PassState, signals: Seq<PassSignal>, i: int) -> PassAction {
    state_after(start, signals.take(i)).after(signals[i]).1
}

/// One more signal takes the pass one step further.
proof fn one_more_signal(start: PassState, signals: Seq<PassSignal>, i: int)
    requires
        0 <= i < signals.len(),
    ensures
        state_after(start, signals.take(i + 1)) == state_after(start, signals.take(i)).after(
            signals[i],
        ).0,
{
    assert(signals.take(i + 1).drop_last() =~= signals.take(i));
    assert(signals.take(i + 1).last() == signals[i]);
}

/// Once work may not be done the pass does nothing more: neither on that signal nor on any
/// later one does it fetch, ask or work.
pub proof fn no_work_follows_activity(start: PassState, signals: Seq<PassSignal>, i: int, j: int)
    requires
        0 <= i <= j < signals.len(),
        signals[i] is Busy,
    ensures
        action_at(start, signals, j) is Interrupt || action_at(start, signals, j) is Stop,
        state_after(start, signals.take(j + 1)).stage is Over,
    decreases j - i,
{
    one_more_signal(start, signals, j);
    if i < j {
        no_work_follows_activity(start, signals, i, j - 1);
    }
}

/// Before each item every watched slot is asked, and the item is worked on only on the
/// answer that all of them are idle.
pub proof fn slots_are_asked_before_each_item(start: PassState, signals: Seq<PassSignal>, j: int)
    requires
        start.stage is Fetching,
        0 <= j < signals.len(),
        action_at(start, signals, j) is Work,
    ensures
        signals[j] is Idle,
        j > 0 && action_at(start, signals, j - 1) is Ask,
{
    assert(state_after(start, signals.take(j)).stage is Asking);
    if j == 0 {
        assert(signals.take(0) =~= Seq::<PassSignal>::empty());
    } else {
        one_more_signal(start, signals, j - 1);
    }
}

/// How many items a pass has worked on.
pub open spec fn worked(start: PassState, signals: Seq<PassSignal>) -> nat
    decreases signals.len(),
{
    if signals.len() == 0 {
        0
    } else {
        let action = state_after(start, signals.drop_last()).after(signals.last()).1;
        worked(start, signals.drop_last()) + one_if(
            action matches PassAction::Work(phase) && !(phase is Prune),
        )
    }
}

/// A pass works on no more items than it may take, over all of its phases.
pub proof fn items_are_bounded(start: PassState, signals: Seq<PassSignal>)
    ensures
        worked(start, signals) + state_after(start, signals).left == start.left,
        worked(start, signals) <= start.left,
    decreases signals.len(),
{
    if signals.len() > 0 {
        items_are_bounded(start, signals.drop_last());
    }
}

/// The phases of a pass stay what they were, and it stands in one of them.
proof fn phases_stay(start: PassState, signals: Seq<PassSignal>)
    requires
        start.wf(),
    ensures
        ({
            let s = state_after(start, signals);
            &&& s.wf()
            &&& s.regenerate == start.regenerate && s.promote == start.promote && s.reembed
                == start.reembed && s.archive == start.archive
            &&& s.phase.place() >= start.phase.place()
        }),
    decreases signals.len(),
{
    if signals.len() > 0 {
        phases_stay(start, signals.drop_last());
    }
}

/// A phase that is switched off does no work.
pub proof fn only_phases_of_the_pass_work(
    start: PassState,
    signals: Seq<PassSignal>,
    j: int,
    phase: Phase,
)
    requires
        start.wf(),
        0 <= j < signals.len(),
        action_at(start, signals, j) == PassAction::Work(phase),
    ensures
        start.includes(phase),
{
    phases_stay(start, signals.take(j));
}

/// Where a pass stands never moves back to an earlier phase.
proof fn phases_move_on(start: PassState, signals: Seq<PassSignal>, i: int, j: int)
    requires
        0 <= i <= j <= signals.len(),
    ensures
        state_after(start, signals.take(i)).phase.place() <= state_after(
            start,
            signals.take(j),
        ).phase.place(),
    decreases j - i,
{
    if i < j {
        phases_move_on(start, signals, i, j - 1);
        one_more_signal(start, signals, j - 1);
    }
}

/// The phases do their work in order: none is taken up again once a later one has worked.
pub proof fn phases_work_in_order(
    start: PassState,
    signals: Seq<PassSignal>,
    i: int,
    j: int,
    first: Phase,
    second: Phase,
)
    requires
        0 <= i <= j < signals.len(),
        action_at(start, signals, i) == PassAction::Work(first),
        action_at(start, signals, j) == PassAction::Work(second),
    ensures
        first.place() <= second.place(),
{
    phases_move_on(start, signals, i, j);
}

/// The consolidator: its settings, the slots that it watches, whether a pass is running, and
/// when there last was activity.
#[derive(Debug)]
pub struct Consolidator {
    config: ConsolidatorConfig,
    tracked_slots: Vec<String>,
    running: bool,
    last_activity: u64,
}

impl Consolidator {
    pub closed spec fn settings(self) -> ConsolidatorConfig {
        self.config
    }

    /// The slots that are watched.
    pub closed spec fn slots(self) -> Seq<Seq<char>> {
        texts(self.tracked_slots@)
    }

    /// Whether a pass is running.
    pub closed spec fn is_running(self) -> bool {
        self.running
    }

    /// When there last was activity, in seconds.
    pub closed spec fn last_seen(self) -> u64 {
        self.last_activity
    }

    /// No slot is watched twice.
    pub open spec fn wf(self) -> bool {
        forall|i: int, j: int|
            #![trigger self.slots()[i], self.slots()[j]]
            0 <= i < j < self.slots().len() ==> self.slots()[i] != self.slots()[j]
    }

    /// A consolidator that watches the first slot, as of now.
    pub fn new(config: ConsolidatorConfig, now: u64) -> (r: Self)
        ensures
            r.wf(),
            r.settings() == config,
            r.slots() == seq!["0"@],
            !r.is_running(),
            r.last_seen() == now,
    {
        let mut slots: Vec<String> = Vec::new();
        slots.push("0".to_owned());
        assert(texts(slots@) =~= seq!["0"@]);
        Consolidator { config, tracked_slots: slots, running: false, last_activity: now }
    }

    pub fn config(&self) -> (r: &ConsolidatorConfig)
        ensures
            *r == self.settings(),
    {
        &self.config
    }

    /// Watches a slot, if it is not watched yet.
    pub fn track_slot(&mut self, slot_id: &str)
        requires
            old(self).wf(),
        ensures
            final(self).wf(),
            final(self).slots() == (if old(self).slots().contains(slot_id@) {
                old(self).slots()
            } else {
                old(self).slots().push(slot_id@)
            }),
            final(self).settings() == old(self).settings(),
            final(self).is_running() == old(self).is_running(),
            final(self).last_seen() == old(self).last_seen(),
    {
        let ghost before = texts(self.tracked_slots@);
        for i in 0..self.tracked_slots.len()
            invariant
                *self == *old(self),
                before == texts(self.tracked_slots@),
                old(self).wf(),
                before == old(self).slots(),
                forall|k: int| 0 <= k < i ==> #[trigger] before[k] != slot_id@,
        {
            if same(self.tracked_slots[i].as_str(), slot_id) {
                assert(before[i as int] == slot_id@);
                return;
            }
        }
        let copy = slot_id.to_owned();
        self.tracked_slots.push(copy);
        assert(self.slots() =~= before.push(slot_id@));
    }

    pub fn tracked_slots(&self) -> (r: &Vec<String>)
        ensures
            texts(r@) == self.slots(),
    {
        &self.tracked_slots
    }

    /// Takes note of activity. Every request sets the quiet period back.
    pub fn note_activity(&mut self, now: u64)
        ensures
            final(self).last_seen() == now,
            final(self).slots() == old(self).slots(),
            final(self).settings() == old(self).settings(),
            final(self).is_running() == old(self).is_running(),
    {
        self.last_activity = now;
    }

    /// Whether it has been quiet for long enough.
    pub open spec fn quiet(self, now: u64) -> bool {
        now - self.last_seen() >= self.settings().quiet_period_secs || self.settings(
        ).quiet_period_secs == 0
    }

    /// Whether work may be done: it has been quiet for long enough, and every watched slot is
    /// known to be idle.
    pub open spec fn idle(self, now: u64, slots: Seq<SlotActivity>) -> bool {
        self.quiet(now) && forall|i: int|
            0 <= i < slots.len() ==> #[trigger] slots[i] == SlotActivity::Idle
    }

    /// Whether work may be done, given what is known of each watched slot.
    pub fn is_idle(&self, now: u64, slots: &[SlotActivity]) -> (r: bool)
        requires
            slots@.len() == self.slots().len(),
        ensures
            r == self.idle(now, slots@),
    {
        let quiet_for: u64 = now.saturating_sub(self.last_activity);
        if quiet_for < self.config.quiet_period_secs {
            return false;
        }
        for i in 0..slots.len()
            invariant
                self.quiet(now),
                forall|k: int| 0 <= k < i ==> #[trigger] slots@[k] == SlotActivity::Idle,
        {
            if slots[i] != SlotActivity::Idle {
                assert(slots@[i as int] != SlotActivity::Idle);
                return false;
            }
        }
        true
    }

    /// Starts a pass, or says why not. Two passes never run at once.
    pub fn maybe_run(&mut self, now: u64, slots: &[SlotActivity]) -> (r: Result<
        ConsolidationReport,
        ConsolidationReport,
    >)
        requires
            slots@.len() == old(self).slots().len(),
        ensures
            final(self).settings() == old(self).settings(),
            final(self).slots() == old(self).slots(),
            final(self).last_seen() == old(self).last_seen(),
            if old(self).is_running() {
                &&& r matches Err(report) && report.is_skip(
                    "another consolidation pass is already running"@,
                )
                &&& final(self).is_running()
            } else if !old(self).idle(now, slots@) {
                &&& r matches Err(report) && report.is_skip(
                    "not idle yet (quiet period is "@ + digits(
                        old(self).settings().quiet_period_secs as nat,
                    ) + "s, or a tracked slot is generating)"@,
                )
                &&& !final(self).is_running()
            } else {
                &&& r matches Ok(report) && report.ran && !report.interrupted && report.promoted
                    == 0 && report.regenerated == 0 && report.reembedded == 0 && report.archived
                    == 0 && report.notes@.len() == 0 && report.skipped_reason is None
                    && report.pruned_vectors == 0 && report.elapsed_ms == 0
                &&& final(self).is_running()
            },
            !old(self).is_running() && now - old(self).last_seen()
                >= old(self).settings().quiet_period_secs && (forall|i: int|
                0 <= i < slots@.len() ==> #[trigger] slots@[i] is Idle) ==> (r matches Ok(report)
                && report.ran) && final(self).is_running(),
            r is Ok ==> !old(self).is_running() && now - old(self).last_seen()
                >= old(self).settings().quiet_period_secs || r is Ok && !old(self).is_running()
                && old(self).settings().quiet_period_secs == 0,
            r is Ok ==> forall|i: int| 0 <= i < slots@.len() ==> #[trigger] slots@[i] is Idle,
    {
        if self.running {
            return Err(
                ConsolidationReport::skipped(
                    "another consolidation pass is already running".to_owned(),
                ),
            );
        }
        if !self.is_idle(now, slots) {
            let mut why = String::from_str("not idle yet (quiet period is ");
            push_nat(&mut why, self.config.quiet_period_secs);
            why.append("s, or a tracked slot is generating)");
            return Err(ConsolidationReport::skipped(why));
        }
        self.running = true;
        Ok(ConsolidationReport { ran: true, ..ConsolidationReport::default() })
    }

    /// Ends a pass.
    pub fn finish(&mut self)
        ensures
            !final(self).is_running(),
            final(self).settings() == old(self).settings(),
            final(self).slots() == old(self).slots(),
            final(self).last_seen() == old(self).last_seen(),
    {
        self.running = false;
    }

    /// How a pass begins: with the first phase that is switched on.
    pub fn first_step(&self) -> (r: (PassState, PassAction))
        ensures
            r.0.regenerate == self.settings().regenerate_stale,
            r.0.promote == self.settings().promote_episodes,
            r.0.reembed == self.settings().reembed,
            r.0.archive == (self.settings().archive_after_days is Some),
            r.0.left == self.settings().max_items_per_pass,
            r.0.phase == r.0.phase_from(0),
            r.0.stage is Fetching,
            r.0.wf(),
            r.1 == PassAction::Fetch(r.0.phase),
    {
        let state = PassState {
            regenerate: self.config.regenerate_stale,
            promote: self.config.promote_episodes,
            reembed: self.config.reembed,
            archive: self.config.archive_after_days.is_some(),
            left: self.config.max_items_per_pass,
            phase: Phase::Prune,
            stage: Stage::Fetching,
        };
        let phase: Phase = state.first_from(0);
        (PassState { phase, ..state }, PassAction::Fetch(phase))
    }

    /// How many of the stale entries are derived anew in one pass.
    pub fn regenerations(&self, stale: usize) -> (r: usize)
        ensures
            r == (if stale < self.settings().max_regenerations_per_pass {
                stale
            } else {
                self.settings().max_regenerations_per_pass
            }),
    {
        if stale < self.config.max_regenerations_per_pass {
            stale
        } else {
            self.config.max_regenerations_per_pass
        }
    }

    /// Whether an episode may be promoted: it is live, large enough, and a turn of someone or
    /// a tool.
    pub open spec fn promotable(self, row: EpisodeRow) -> bool {
        &&& row.eviction_tier == EpisodeTier::Live
        &&& row.token_count >= self.settings().min_episode_tokens
        &&& row.role@ == "user"@ || row.role@ == "assistant"@ || row.role@ == "tool"@
    }

    /// The newest promotable episodes before index `i`, the newest first, at most `limit`.
    pub open spec fn newest_promotable(
        self,
        episodes: Seq<EpisodeRow>,
        i: int,
        limit: nat,
    ) -> Seq<int>
        decreases i,
    {
        if i <= 0 || limit == 0 {
            Seq::empty()
        } else if self.promotable(episodes[i - 1]) {
            seq![i - 1] + self.newest_promotable(episodes, i - 1, (limit - 1) as nat)
        } else {
            self.newest_promotable(episodes, i - 1, limit)
        }
    }

    /// Which episodes of a session to promote: the newest four that may be, the newest first.
    pub fn promotion_candidates(&self, episodes: &[EpisodeRow]) -> (r: Vec<usize>)
        requires
            forall|i: int| 0 <= i < episodes@.len() ==> (#[trigger] episodes@[i]).wf(),
        ensures
            r@.map_values(|i: usize| i as int) == self.newest_promotable(
                episodes@,
                episodes@.len() as int,
                4,
            ),
    {
        let mut out: Vec<usize> = Vec::new();
        let n: usize = episodes.len();
        let mut i: usize = n;
        let ghost all = self.newest_promotable(episodes@, n as int, 4);
        let view = Ghost(|i: usize| i as int);
        assert(out@.map_values(view@) + self.newest_promotable(episodes@, i as int, 4) =~= all);
        while i > 0 && out.len() < 4
            invariant
                n == episodes@.len(),
                i <= n,
                out@.len() <= 4,
                view@ == (|i: usize| i as int),
                forall|i: int| 0 <= i < episodes@.len() ==> (#[trigger] episodes@[i]).wf(),
                all == out@.map_values(view@) + self.newest_promotable(
                    episodes@,
                    i as int,
                    (4 - out@.len()) as nat,
                ),
            decreases i,
        {
            let row = &episodes[i - 1];
            assert(episodes@[i - 1].wf());
            let role = row.role.as_str();
            let ghost before = out@;
            if row.eviction_tier == EpisodeTier::Live && row.token_count as usize
                >= self.config.min_episode_tokens && (same(role, "user") || same(
                role,
                "assistant",
            ) || same(role, "tool")) {
                out.push(i - 1);
                assert(out@.map_values(view@) =~= before.map_values(view@).push(i - 1));
                assert(all =~= out@.map_values(view@) + self.newest_promotable(
                    episodes@,
                    i - 1,
                    (4 - out@.len()) as nat,
                ));
            }
            i = i - 1;
        }
        assert(out@.map_values(view@) =~= all);
        out
    }

    /// The summary of a text: what the model wrote, where one was asked and wrote something,
    /// else an extract.
    pub fn summarise_text(&self, text: &str, written: Option<&str>) -> (r: String)
        ensures
            r@ == summary_text(
                text@,
                match written {
                    Some(s) => Some(s@),
                    None => None,
                },
            ),
    {
        match written {
            Some(s) => {
                if !blank(s) {
                    return s.to_owned();
                }
            },
            None => {},
        }
        extractive_summary(text, 3, 400)
    }

    /// What to do with the summary of an episode.
    pub fn promotion(
        &self,
        row: &EpisodeRow,
        session_id: &str,
        summary: &str,
        counter: &TokenCounter,
    ) -> (r: Promotion)
        ensures
            ({
                let cost = counter.of(summary@);
                let size = at_least_zero(row.token_count as int);
                if is_blank(summary@) {
                    r is Nothing
                } else if cost >= size {
                    r matches Promotion::TooLong(note) && note@ == "skipped promotion of episode "@
                        + row.episode_id@ + " (seq "@ + signed_digits(row.seq as int)
                        + "): its summary would cost "@ + digits(cost)
                        + " tokens against the episode's "@ + digits(size)
                        + ", so promoting it would grow the context rather than shrink it"@
                } else {
                    r matches Promotion::Write(w) && {
                        &&& w.content@ == summary@
                        &&& w.anchor_type == AnchorType::EpisodicStream
                        &&& w.anchor_id@ == row.episode_id@
                        &&& w.session_id matches Some(s) && s@ == session_id@
                        &&& w.extra_anchors@.len() == 1 && w.extra_anchors@[0].0
                            == AnchorType::EpisodicStream && w.extra_anchors@[0].1@
                            == row.episode_id@
                        &&& w.anchor_hash_at_write is None && w.model is None && w.project_id is None
                    }
                }
            }),
    {
        if blank(summary) {
            return Promotion::Nothing;
        }
        let cost: usize = counter.count(summary).get();
        let size: usize = nonnegative(row.token_count);
        if cost >= size {
            let mut note = String::from_str("skipped promotion of episode ");
            note.append(row.episode_id.as_str());
            note.append(" (seq ");
            push_int(&mut note, row.seq);
            note.append("): its summary would cost ");
            push_nat(&mut note, cost as u64);
            note.append(" tokens against the episode's ");
            push_nat(&mut note, size as u64);
            note.append(", so promoting it would grow the context rather than shrink it");
            return Promotion::TooLong(note);
        }
        let id = row.episode_id.as_str();
        Promotion::Write(
            SemanticWrite::on_episode(summary, id).in_session(session_id).also_anchored_to(
                AnchorType::EpisodicStream,
                id,
            ),
        )
    }

    /// Whether an episode is archived: it is cold, and nothing depends on it.
    pub fn archivable(&self, row: &EpisodeRow, cutoff: Instant, dependents: &[ReachedNode]) -> (r:
        bool)
        ensures
            r == (is_cold(*row, rfc3339_instant(row.created_at@), cutoff) && dependents@.len()
                == 0),
    {
        dependents.len() == 0 && self.cold(row, cutoff)
    }

    /// Whether an episode is cold: live, in no fold, and made no later than the cutoff.
    pub fn cold(&self, row: &EpisodeRow, cutoff: Instant) -> (r: bool)
        ensures
            r == is_cold(*row, rfc3339_instant(row.created_at@), cutoff),
    {
        if row.eviction_tier != EpisodeTier::Live || row.fold_id.is_some() {
            return false;
        }
        match parse_rfc3339(row.created_at.as_str()) {
            Some(created) => !created.after(cutoff),
            None => false,
        }
    }

    /// Whether an episode needs a summary before it is archived: nothing in the atlas depends
    /// on it yet, and promoting is switched on.
    pub fn needs_summary(&self, dependents: &[ReachedNode]) -> (r: bool)
        ensures
            r == (self.settings().promote_episodes && forall|i: int|
                0 <= i < dependents@.len() ==> (#[trigger] dependents@[i]).kind
                    != NodeKind::SemanticEntry),
    {
        for i in 0..dependents.len()
            invariant
                forall|k: int|
                    0 <= k < i ==> (#[trigger] dependents@[k]).kind != NodeKind::SemanticEntry,
        {
            if dependents[i].kind == NodeKind::SemanticEntry {
                assert(dependents@[i as int].kind == NodeKind::SemanticEntry);
                return false;
            }
        }
        self.config.promote_episodes
    }
}

/// Whether an episode is cold, given when it was made, where that can be read.
pub open spec fn is_cold(row: EpisodeRow, created: Option<(i64, u32)>, cutoff: Instant) -> bool {
    &&& row.eviction_tier == EpisodeTier::Live
    &&& row.fold_id is None
    &&& created matches Some((secs, nanos)) && !(Instant { secs, nanos }).is_after(cutoff)
}

/// The summary of a text, given what a model wrote of it, where one was asked.
pub open spec fn summary_text(text: Seq<char>, written: Option<Seq<char>>) -> Seq<char> {
    match written {
        Some(s) if !is_blank(s) => s,
        _ => summary_of(text, 3, 400),
    }
}

/// What to do with the summary of an episode.
#[derive(Debug)]
pub enum Promotion {
    /// There is nothing to write.
    Nothing,
    /// It would cost more than the episode itself.
    TooLong(String),
    /// It goes into the atlas.
    Write(SemanticWrite),
}

/// A slot that is generating, or that cannot be read, keeps a pass from running.
pub proof fn a_slot_in_doubt_blocks_a_pass(
    c: Consolidator,
    now: u64,
    slots: Seq<SlotActivity>,
    i: int,
)
    requires
        0 <= i < slots.len(),
        slots[i] != SlotActivity::Idle,
    ensures
        !c.idle(now, slots),
{
}

/// New activity keeps a pass from running until the quiet period is over again.
pub proof fn activity_preempts(c: Consolidator, now: u64, slots: Seq<SlotActivity>)
    requires
        now - c.last_seen() < c.settings().quiet_period_secs,
        c.settings().quiet_period_secs > 0,
    ensures
        !c.idle(now, slots),
{
}

/// A description of a fact, from the fact alone.
pub open spec fn fact_text(fact: SymbolicFact) -> Seq<char> {
    match fact.signature {
        Some(sig) => fact.qualified_name@ + " is declared as `"@ + sig@ + "`"@ + (
        match fact.file_path {
            Some(f) => " in "@ + f@,
            None => ""@,
        }),
        None => fact.qualified_name@ + " is defined in the project"@,
    }
}

/// A description of a fact, from the fact alone: its signature is the truth.
pub fn describe_fact(fact: &SymbolicFact) -> (r: String)
    ensures
        r@ == fact_text(*fact),
{
    let mut out = String::from_str(fact.qualified_name.as_str());
    match &fact.signature {
        Some(sig) => {
            out.append(" is declared as `");
            out.append(sig.as_str());
            out.append("`");
            let place = match &fact.file_path {
                Some(f) => String::from_str(" in ").concat(f.as_str()),
                None => String::from_str(""),
            };
            out.append(place.as_str());
        },
        None => out.append(" is defined in the project"),
    }
    out
}

/// What a model wrote, in its answer to a chat request.
pub open spec fn written_in(doc: Tree) -> Seq<char> {
    match doc.get("choices"@) {
        Some(Tree::List(items)) if items.len() > 0 => match items[0].get("message"@) {
            Some(m) => match m.text_at("content"@) {
                Some(s) => trimmed(s),
                None => trimmed(""@),
            },
            None => trimmed(""@),
        },
        _ => trimmed(""@),
    }
}

/// What a model is told before the text that it is to summarise.
pub const AUXILIARY_INSTRUCTION: &'static str =
    "You summarise a single agent-session excerpt. Report only what the excerpt states. Do not infer, do not add APIs or names that are not present, and do not use hedging language. Two sentences at most.";

/// Where a model is asked for a summary.
pub fn auxiliary_url(base_url: &str) -> (r: String)
    ensures
        r@ == strip_back(base_url@, '/') + "/v1/chat/completions"@,
{
    trim_end_char(base_url, '/').concat("/v1/chat/completions")
}

/// The failure of a model's reply with this status.
pub fn auxiliary_refused(status: &str) -> (r: Error)
    ensures
        r matches Error::BackendUnavailable(m) && m@ == "auxiliary summariser returned "@ + status@,
{
    Error::BackendUnavailable(String::from_str("auxiliary summariser returned ").concat(status))
}

/// What a model wrote, in its answer to a chat request; nothing where there is none.
pub fn written_reply(doc: &Json) -> (r: String)
    ensures
        r@ == written_in(doc.tree()),
{
    let mut text: &str = "";
    match doc.get("choices") {
        Some(list) => match list.as_array() {
            Some(items) => {
                proof {
                    trees_in_order(items@);
                }
                if items.len() > 0 {
                    assert(crate::json::trees(items@)[0] == items@[0].tree());
                    match items[0].get("message") {
                        Some(m) => match m.text_at("content") {
                            Some(s) => {
                                text = s;
                            },
                            None => {},
                        },
                        None => {},
                    }
                }
            },
            None => {},
        },
        None => {},
    }
    trim(text)
}

/// Once it has been quiet for as long as the settings ask and every watched slot is known to
/// be idle, work may be done; while one of the two is missing it may not.
pub proof fn a_quiet_session_lets_a_pass_run(
    c: &Consolidator,
    now: u64,
    slots: &[SlotActivity],
    r: bool,
)
    requires
        slots@.len() == c.slots().len(),
        c.last_seen() <= now,
        call_ensures(Consolidator::is_idle, (c, now, slots), r),
    ensures
        r <==> now - c.last_seen() >= c.settings().quiet_period_secs && (forall|i: int|
            0 <= i < slots@.len() ==> #[trigger] slots@[i] is Idle),
        r == c.idle(now, slots@),
{
}

/// The longer it is quiet, the sooner work may be done: what may run stays allowed while
/// nothing happens, and a shorter quiet period allows no less.
pub proof fn staying_quiet_keeps_a_pass_allowed(
    c: &Consolidator,
    now: u64,
    later: u64,
    slots: &[SlotActivity],
    before: bool,
    after: bool,
)
    requires
        now <= later,
        call_ensures(Consolidator::is_idle, (c, now, slots), before),
        call_ensures(Consolidator::is_idle, (c, later, slots), after),
    ensures
        before ==> after,
{
}

/// The phase that follows is the next one that is switched on, and removing vectors comes last
/// and always: no phase that is switched on is passed over.
pub proof fn no_phase_is_passed_over(state: PassState, r: (PassState, PassAction), skipped: Phase)
    requires
        call_ensures(next_step, (state, PassSignal::NoMore), r),
        state.stage is Fetching,
        state.left > 0,
        state.phase.place() < skipped.place(),
        state.includes(skipped),
    ensures
        r.1 == PassAction::Fetch(r.0.phase),
        r.0.stage is Fetching,
        state.phase.place() < r.0.phase.place() <= skipped.place(),
        state.includes(r.0.phase),
{
}

/// A pass makes progress: an item that is found is asked about, done once all slots are idle,
/// and then the next one is looked up; after the last phase the pass is over.
pub proof fn a_pass_makes_progress(state: PassState, signal: PassSignal, r: (PassState, PassAction))
    requires
        call_ensures(next_step, (state, signal), r),
        !(state.stage is Over),
        state.left > 0,
    ensures
        state.stage is Fetching && signal is Item ==> r.1 is Ask && r.0.stage is Asking
            && r.0.phase == state.phase,
        state.stage is Asking && signal is Idle ==> r.1 == PassAction::Work(state.phase)
            && r.0.stage is Working,
        state.stage is Working && signal is Done ==> r.1 == PassAction::Fetch(state.phase)
            && r.0.stage is Fetching,
        state.stage is Fetching && signal is NoMore && state.phase is Prune ==> r.1 is Stop
            && r.0.stage is Over,
        signal is Busy ==> r.1 == PassAction::Interrupt(state.phase) && r.0.stage is Over,
        r.1 is Work && !(state.phase is Prune) <==> r.0.left == state.left - 1,
        !(r.1 is Work && !(state.phase is Prune)) <==> r.0.left == state.left,
{
}

/// A pass begins with the first phase that is switched on.
pub proof fn a_pass_begins_with_its_first_phase(
    c: &Consolidator,
    r: (PassState, PassAction),
    phase: Phase,
)
    requires
        call_ensures(Consolidator::first_step, (c,), r),
    ensures
        r.1 == PassAction::Fetch(r.0.phase),
        r.0.left == c.settings().max_items_per_pass,
        r.0.includes(r.0.phase),
        r.0.includes(phase) ==> r.0.phase.place() <= phase.place(),
        r.0.includes(Phase::Regenerate) == c.settings().regenerate_stale,
        r.0.includes(Phase::Promote) == c.settings().promote_episodes,
        r.0.includes(Phase::Embed) == c.settings().reembed,
        r.0.includes(Phase::Archive) == (c.settings().archive_after_days is Some),
        r.0.includes(Phase::Prune),
{
}

/// Of the episodes of a session the newest that may be promoted are, the newest first and at
/// most four: each of them is live, large enough and a turn of someone or a tool, and one that
/// is passed over although it may be promoted is older than four that are taken.
pub proof fn the_newest_fit_episodes_are_promoted(
    c: &Consolidator,
    episodes: &[EpisodeRow],
    r: Vec<usize>,
)
    requires
        call_ensures(Consolidator::promotion_candidates, (c, episodes), r),
    ensures
        r@.len() <= 4,
        forall|k: int|
            0 <= k < r@.len() ==> {
                let i = #[trigger] r@[k];
                &&& i < episodes@.len()
                &&& episodes@[i as int].eviction_tier is Live
                &&& episodes@[i as int].token_count >= c.settings().min_episode_tokens
                &&& episodes@[i as int].role@ == "user"@ || episodes@[i as int].role@
                    == "assistant"@ || episodes@[i as int].role@ == "tool"@
            },
        forall|j: int, k: int|
            #![trigger r@[j], r@[k]]
            0 <= j < k < r@.len() ==> r@[j] > r@[k],
        forall|i: int|
            0 <= i < episodes@.len() && (#[trigger] episodes@[i]).eviction_tier is Live
                && episodes@[i].token_count >= c.settings().min_episode_tokens && (
            episodes@[i].role@ == "user"@ || episodes@[i].role@ == "assistant"@
                || episodes@[i].role@ == "tool"@) ==> {
                ||| exists|k: int| 0 <= k < r@.len() && #[trigger] r@[k] == i
                ||| r@.len() == 4 && r@[3] > i
            },
{
    let n = episodes@.len() as int;
    let list = c.newest_promotable(episodes@, n, 4);
    newest_promotable_are_newest(*c, episodes@, n, 4);
    let view = |i: usize| i as int;
    assert(r@.map_values(view) == list);
    assert forall|k: int| 0 <= k < r@.len() implies r@[k] as int == list[k] by {
        assert(r@.map_values(view)[k] == r@[k] as int);
    }
    assert forall|k: int| 0 <= k < r@.len() implies c.promotable(
        episodes@[(#[trigger] r@[k]) as int],
    ) && r@[k] < n by {
        assert(r@[k] as int == list[k]);
    }
    assert forall|j: int, k: int|
        #![trigger r@[j], r@[k]]
        0 <= j < k < r@.len() implies r@[j] > r@[k] by {
        assert(r@[j] as int == list[j] && r@[k] as int == list[k]);
    }
    assert forall|i: int|
        0 <= i < episodes@.len() && c.promotable(#[trigger] episodes@[i]) implies (exists|k: int|
        0 <= k < r@.len() && #[trigger] r@[k] == i) || (r@.len() == 4 && r@[3] > i) by {
        if list.contains(i) {
            let k = choose|k: int| 0 <= k < list.len() && list[k] == i;
            assert(r@[k] == i);
        } else {
            assert(r@[3] as int == list[3]);
        }
    }
}

proof fn newest_promotable_are_newest(
    c: Consolidator,
    episodes: Seq<EpisodeRow>,
    i: int,
    limit: nat,
)
    requires
        0 <= i <= episodes.len(),
    ensures
        ({
            let list = c.newest_promotable(episodes, i, limit);
            &&& list.len() <= limit
            &&& forall|k: int|
                0 <= k < list.len() ==> 0 <= #[trigger] list[k] < i && c.promotable(
                    episodes[list[k]],
                )
            &&& forall|j: int, k: int|
                #![trigger list[j], list[k]]
                0 <= j < k < list.len() ==> list[j] > list[k]
            &&& forall|p: int|
                0 <= p < i && c.promotable(#[trigger] episodes[p]) && !list.contains(p)
                    ==> list.len() == limit && (limit > 0 ==> list[limit - 1] > p)
        }),
    decreases i,
{
    if i > 0 && limit > 0 {
        let list = c.newest_promotable(episodes, i, limit);
        if c.promotable(episodes[i - 1]) {
            let rest = c.newest_promotable(episodes, i - 1, (limit - 1) as nat);
            newest_promotable_are_newest(c, episodes, i - 1, (limit - 1) as nat);
            assert(list =~= seq![i - 1] + rest);
            assert forall|k: int| 0 <= k < list.len() implies 0 <= #[trigger] list[k] < i
                && c.promotable(episodes[list[k]]) by {
                if k > 0 {
                    assert(list[k] == rest[k - 1]);
                }
            }
            assert forall|j: int, k: int|
                #![trigger list[j], list[k]]
                0 <= j < k < list.len() implies list[j] > list[k] by {
                assert(list[k] == rest[k - 1]);
                if j > 0 {
                    assert(list[j] == rest[j - 1]);
                }
            }
            assert forall|p: int|
                0 <= p < i && c.promotable(#[trigger] episodes[p]) && !list.contains(p) implies
                list.len() == limit && (limit > 0 ==> list[limit - 1] > p) by {
                if rest.contains(p) {
                    let k = choose|k: int| 0 <= k < rest.len() && rest[k] == p;
                    assert(list[k + 1] == p);
                }
                assert(list[0] == i - 1);
                assert(p < i - 1);
                if limit > 1 {
                    assert(list[limit - 1] == rest[limit - 2]);
                }
            }
        } else {
            newest_promotable_are_newest(c, episodes, i - 1, limit);
        }
    }
}

/// A summary is written where it says something and costs less than its episode, anchored to
/// that episode; promoting never grows the context.
pub proof fn a_promotion_shrinks_the_context(
    c: &Consolidator,
    row: &EpisodeRow,
    session_id: &str,
    summary: &str,
    counter: &TokenCounter,
    r: Promotion,
)
    requires
        call_ensures(Consolidator::promotion, (c, row, session_id, summary, counter), r),
        row.token_count <= usize::MAX,
    ensures
        r is Write <==> !is_blank(summary@) && counter.of(summary@) < row.token_count,
        r is TooLong <==> !is_blank(summary@) && counter.of(summary@) >= row.token_count,
        r is Nothing <==> is_blank(summary@),
        r matches Promotion::Write(w) ==> w.content@ == summary@ && w.anchor_type
            == AnchorType::EpisodicStream && w.anchor_id@ == row.episode_id@,
{
}

/// What a model wrote stands as it is; where it wrote nothing, an extract takes its place.
pub proof fn a_written_summary_stands(
    c: &Consolidator,
    text: &str,
    written: Option<&str>,
    r: String,
    extract: String,
)
    requires
        call_ensures(Consolidator::summarise_text, (c, text, written), r),
        call_ensures(extractive_summary, (text, 3, 400), extract),
    ensures
        written matches Some(s) ==> r@ == if is_blank(s@) {
            extract@
        } else {
            s@
        },
        written is None ==> r@ == extract@,
{
}

/// An episode is archived only if it is live, in no fold, nothing depends on it, and it was
/// made at a known time that is not after the cutoff; and such an episode is.
pub proof fn only_what_is_cold_and_free_is_archived(
    c: &Consolidator,
    row: &EpisodeRow,
    cutoff: Instant,
    dependents: &[ReachedNode],
    r: bool,
)
    requires
        call_ensures(Consolidator::archivable, (c, row, cutoff, dependents), r),
    ensures
        r ==> row.eviction_tier is Live && row.fold_id is None && dependents@.len() == 0
            && rfc3339_instant(row.created_at@) is Some,
        rfc3339_instant(row.created_at@) matches Some((secs, nanos)) ==> {
            let late = secs > cutoff.secs || secs == cutoff.secs && nanos > cutoff.nanos;
            &&& late ==> !r
            &&& !late && row.eviction_tier is Live && row.fold_id is None && dependents@.len() == 0
                ==> r
        },
{
}

/// A report counts each event once, under its own heading, and keeps every note it had.
pub proof fn a_report_counts_each_event_once(
    report: &mut ConsolidationReport,
    event: PassEvent,
    i: int,
)
    requires
        call_ensures(ConsolidationReport::record, (report, event), ()),
        0 <= i < report.notes@.len(),
    ensures
        ({
            let a = *old(report);
            let b = *final(report);
            &&& event is Promoted ==> b.promoted == a.promoted + 1
            &&& !(event is Promoted) ==> b.promoted == a.promoted
            &&& event is Regenerated ==> b.regenerated == a.regenerated + 1
            &&& !(event is Regenerated) ==> b.regenerated == a.regenerated
            &&& event is Embedded ==> b.reembedded == a.reembedded + 1
            &&& !(event is Embedded) ==> b.reembedded == a.reembedded
            &&& event is Archived ==> b.archived == a.archived + 1
            &&& !(event is Archived) ==> b.archived == a.archived
            &&& event is Interrupted ==> b.interrupted
            &&& !(event is Interrupted) ==> b.interrupted == a.interrupted
            &&& b.ran == a.ran
        }),
        ({
            let a = *old(report);
            let b = *final(report);
            &&& b.notes@.len() >= a.notes@.len() && b.notes@[i]@ == a.notes@[i]@
            &&& event is NotDerived || event is NotRefreshed || event is NotPromoted
                || event is NotWorthPromoting ==> b.notes@.len() == a.notes@.len() + 1
            &&& event is Promoted || event is Archived ==> b.notes@.len() == a.notes@.len()
        }),
{
    let a = texts(old(report).notes@);
    let b = texts(final(report).notes@);
    assert(a.len() == old(report).notes@.len() && b.len() == final(report).notes@.len());
    assert(a[i] == old(report).notes@[i]@);
    assert(b[i] == final(report).notes@[i]@);
    assert(b[i] == a[i]);
}

/// A slot is watched once, however often it is named; the others stay watched.
pub proof fn a_slot_is_watched_once(c: &mut Consolidator, slot_id: &str, other: Seq<char>)
    requires
        c.wf(),
        call_ensures(Consolidator::track_slot, (c, slot_id), ()),
    ensures
        final(c).slots().contains(slot_id@),
        old(c).slots().contains(other) ==> final(c).slots().contains(other),
        final(c).slots().contains(other) ==> old(c).slots().contains(other) || other == slot_id@,
        old(c).slots().contains(slot_id@) ==> final(c).slots() == old(c).slots(),
{
    let a = old(c).slots();
    let b = final(c).slots();
    if !a.contains(slot_id@) {
        assert(b[a.len() as int] == slot_id@);
        if a.contains(other) {
            let k = choose|k: int| 0 <= k < a.len() && a[k] == other;
            assert(b[k] == other);
        }
    }
}

/// An episode is summarised before it is archived exactly where promoting is on and nothing in
/// the atlas rests on it.
pub proof fn what_the_atlas_holds_needs_no_summary(
    c: &Consolidator,
    dependents: &[ReachedNode],
    r: bool,
    i: int,
)
    requires
        call_ensures(Consolidator::needs_summary, (c, dependents), r),
        0 <= i < dependents@.len(),
    ensures
        dependents@[i].kind is SemanticEntry ==> !r,
        !c.settings().promote_episodes ==> !r,
        c.settings().promote_episodes && (forall|k: int|
            0 <= k < dependents@.len() ==> !((#[trigger] dependents@[k]).kind is SemanticEntry))
            ==> r,
{
}

/// What a model wrote is the content of the first choice's message, trimmed.
pub proof fn the_first_choice_is_what_was_written(
    doc: &Json,
    items: Seq<crate::json::Tree>,
    message: crate::json::Tree,
    said: Seq<char>,
    r: String,
)
    requires
        call_ensures(written_reply, (doc,), r),
        doc.tree().get("choices"@) == Some(crate::json::Tree::List(items)),
        items.len() > 0,
        items[0].get("message"@) == Some(message),
        message.text_at("content"@) == Some(said),
    ensures
        r@ == trimmed(said),
{
}

/// An episode is cold where it is live, in no fold, and was made no later than the cutoff; one
/// whose time cannot be read never is.
pub proof fn what_is_old_and_live_is_cold(
    c: &Consolidator,
    row: &EpisodeRow,
    cutoff: Instant,
    time: &str,
    made: Option<Instant>,
    later: bool,
    r: bool,
)
    requires
        call_ensures(Consolidator::cold, (c, row, cutoff), r),
        time@ == row.created_at@,
        call_ensures(parse_rfc3339, (time,), made),
        made matches Some(t) ==> call_ensures(Instant::after, (t, cutoff), later),
    ensures
        made is None || !(row.eviction_tier is Live) || row.fold_id is Some ==> !r,
        made is Some && row.eviction_tier is Live && row.fold_id is None ==> r == !later,
{
}

/// A pass derives anew as many of the stale entries as there are, up to its limit.
pub proof fn a_pass_derives_up_to_its_limit(c: &Consolidator, stale: usize, r: usize)
    requires
        call_ensures(Consolidator::regenerations, (c, stale), r),
    ensures
        r <= stale && r <= c.settings().max_regenerations_per_pass,
        r == stale || r == c.settings().max_regenerations_per_pass,
{
}

} // verus!
