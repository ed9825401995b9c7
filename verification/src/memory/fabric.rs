//! What goes into the store and what comes out of it.
//!
//! The store itself belongs to the application. Here stands what a commit consists of, how a
//! session's history is rendered within a budget, and what the store's answers mean.

use super::anchor::{is_proposal, proposed, AnchorProposal, AnchorRow, ConstraintDetector};
use super::dependency::{EdgeKind, EdgeRow, NodeKind, NodeRef};
use super::episodic::{EpisodeRow, EpisodeTier, NewEpisode, Role};
use super::semantic::{
    anchor_list, drifted, further, listed, unknown_store_from, AnchorReading, AnchorType, AtlasRow,
    ResolvedWrite, SemanticEntry, SemanticWrite, StalenessReport,
};
use super::symbolic::{
    any_extract, facts_of, json_text_extract, Extract, FactKind, FactSource, SymbolicFact,
    ToolOutputFacts, ToolOutputParser,
};
use crate::error::Error;
use crate::ids::{new_id, now_rfc3339, short_hash_of_text};
use crate::order::{stable_sort, stably_sorted, Ranked};
use crate::text::{at_least_zero, chars_of, contains_text, same, stands_at, string_of};
use crate::tokens::TokenCounter;
use vstd::prelude::*;
use vstd::string::*;

verus! {

/// What came of appending a turn.
#[derive(Debug)]
pub struct CommitOutcome {
    pub episode_id: String,
    pub seq: i64,
    pub token_count: i64,
    /// How many facts its structured output yielded.
    pub facts_extracted: usize,
    /// What the extraction found, or why it found nothing.
    pub symbolic_summary: String,
    /// A constraint that the turn seems to state. It is never pinned by itself.
    pub anchor_proposal: Option<AnchorProposal>,
}

/// A turn with everything that is stored along with it.
#[derive(Debug)]
pub struct PendingCommit {
    pub episode_id: String,
    pub created_at: String,
    pub token_count: i64,
    /// The facts that its structured output yields.
    pub facts: Vec<SymbolicFact>,
    /// One edge from the episode to each fact.
    pub edges: Vec<EdgeRow>,
    pub symbolic_summary: String,
    pub detect_constraints: bool,
    pub role: Role,
    pub content: String,
}

/// What the extraction finds in a turn: only results of tools are looked at, and only where
/// that is asked for.
pub open spec fn found_in(new: NewEpisode, extract_symbolic: bool) -> Option<Extract> {
    if extract_symbolic && new.role is Tool {
        Some(
            any_extract(
                match new.tool_name {
                    Some(t) => Some(t@),
                    None => None,
                },
                new.content@,
                json_text_extract(new.content@),
            ),
        )
    } else {
        None
    }
}

/// What was found, as a plain value.
pub open spec fn extract_in(found: Option<ToolOutputFacts>) -> Option<Extract> {
    match found {
        Some(f) => Some(f.extract()),
        None => None,
    }
}

impl PendingCommit {
    /// Whether this is what is stored for a turn in which `found` was found.
    pub open spec fn stores(self, new: NewEpisode, counter: TokenCounter, found: Option<Extract>) -> bool {
        let facts = match found {
            Some(e) => e.facts,
            None => Seq::empty(),
        };
        &&& self.episode_id@.len() == 35 && self.episode_id@.take(2) == "ep"@ && self.episode_id@[2]
            == '_'
        &&& self.created_at@.len() >= 24 && self.created_at@.last() == 'Z'
        &&& self.token_count == counter.of(new.content@)
        &&& self.facts@.len() == facts.len()
        &&& self.edges@.len() == facts.len()
        &&& forall|i: int|
            0 <= i < facts.len() ==> (#[trigger] self.facts@[i]).holds(
                facts[i],
                FactSource::ToolOutputParser,
                None,
            )
        &&& forall|i: int|
            0 <= i < facts.len() ==> links(
                #[trigger] self.edges@[i],
                self.episode_id@,
                self.facts@[i].fact_id@,
            )
        &&& self.symbolic_summary@ == (match found {
            Some(e) => e.summary,
            None => "not a tool result"@,
        })
        &&& self.role == new.role
        &&& self.content == new.content
    }

    /// The outcome once the store has given the turn its place.
    pub fn committed(self, seq: i64) -> (r: CommitOutcome)
        ensures
            r.episode_id == self.episode_id,
            r.seq == seq,
            r.token_count == self.token_count,
            r.facts_extracted == self.facts@.len(),
            r.symbolic_summary == self.symbolic_summary,
            if self.detect_constraints {
                match proposed(self.role, self.content@) {
                    Some(k) => r.anchor_proposal matches Some(p) && is_proposal(
                        p,
                        self.episode_id@,
                        seq,
                        self.role,
                        self.content@,
                        k,
                    ),
                    None => r.anchor_proposal is None,
                }
            } else {
                r.anchor_proposal is None
            },
    {
        let anchor_proposal = if self.detect_constraints {
            ConstraintDetector::detect(
                self.episode_id.as_str(),
                seq,
                self.role,
                self.content.as_str(),
            )
        } else {
            None
        };
        CommitOutcome {
            episode_id: self.episode_id,
            seq,
            token_count: self.token_count,
            facts_extracted: self.facts.len(),
            symbolic_summary: self.symbolic_summary,
            anchor_proposal,
        }
    }
}

/// Whether an edge says that an episode yielded a fact.
pub open spec fn links(edge: EdgeRow, episode_id: Seq<char>, fact_id: Seq<char>) -> bool {
    &&& edge.src_type@ == NodeKind::Episode.name() && edge.src_id@ == episode_id
    &&& edge.dst_type@ == NodeKind::SymbolicFact.name() && edge.dst_id@ == fact_id
    &&& edge.edge_kind == EdgeKind::DerivedFrom
    &&& edge.target_hash is None
}

/// One episode of a timeline.
#[derive(Debug)]
pub struct TimelineItem {
    pub episode_id: String,
    pub seq: i64,
    pub role: String,
    pub tier: EpisodeTier,
    pub tokens: usize,
    /// Whether it stands in the rendered text.
    pub included: bool,
    pub preview: String,
}

/// A session's history within a budget.
#[derive(Debug)]
pub struct SessionTimeline {
    /// The text, in the order of the session.
    pub rendered: String,
    pub items: Vec<TimelineItem>,
    pub included_tokens: usize,
    /// What all of it would cost with nothing evicted.
    pub total_tokens: usize,
    pub episodes_total: usize,
    /// How many episodes the budget reaches back to.
    pub episodes_included: usize,
    /// How many are left out of the text.
    pub episodes_evicted: usize,
    /// What is saved by what is left out or evicted.
    pub reclaimed_tokens: usize,
}

/// What the first `n` episodes would cost with nothing evicted.
pub open spec fn whole_cost(episodes: Seq<EpisodeRow>, counter: TokenCounter, n: int) -> int
    decreases n,
{
    if n <= 0 {
        0
    } else {
        whole_cost(episodes, counter, n - 1) + episodes[n - 1].cost_at(EpisodeTier::Live, counter)
    }
}

/// Adding more episodes never lowers the cost.
proof fn whole_cost_grows(episodes: Seq<EpisodeRow>, counter: TokenCounter, a: int, b: int)
    requires
        0 <= a <= b,
    ensures
        0 <= whole_cost(episodes, counter, a) <= whole_cost(episodes, counter, b),
    decreases b,
{
    if a < b {
        whole_cost_grows(episodes, counter, a, b - 1);
    } else if a > 0 {
        whole_cost_grows(episodes, counter, a - 1, b - 1);
    }
}

/// The costs of the first `n` episodes at their tiers added up.
pub open spec fn live_cost(episodes: Seq<EpisodeRow>, counter: TokenCounter, n: int) -> int
    decreases n,
{
    if n <= 0 {
        0
    } else {
        live_cost(episodes, counter, n - 1) + episodes[n - 1].cost_at(
            episodes[n - 1].eviction_tier,
            counter,
        )
    }
}

/// Adding more episodes never lowers the cost.
proof fn live_cost_grows(episodes: Seq<EpisodeRow>, counter: TokenCounter, a: int, b: int)
    requires
        0 <= a <= b,
    ensures
        0 <= live_cost(episodes, counter, a) <= live_cost(episodes, counter, b),
    decreases b,
{
    if a < b {
        live_cost_grows(episodes, counter, a, b - 1);
    } else if a > 0 {
        live_cost_grows(episodes, counter, a - 1, b - 1);
    }
}

/// Where the budget reaches back to, looking back from the first `i` episodes: it stops
/// before the first episode, other than the newest, that no longer fits.
pub open spec fn reach_from(episodes: Seq<EpisodeRow>, counter: TokenCounter, budget: int, i: int) -> int
    decreases i,
{
    if i <= 0 {
        0
    } else if i < episodes.len() && live_cost(episodes, counter, episodes.len() as int)
        - live_cost(episodes, counter, i - 1) > budget {
        i
    } else {
        reach_from(episodes, counter, budget, i - 1)
    }
}

/// The index of the oldest episode that the budget reaches.
pub open spec fn reach(episodes: Seq<EpisodeRow>, counter: TokenCounter, budget: int) -> int {
    reach_from(episodes, counter, budget, episodes.len() as int)
}

/// The budget reaches as far back as it can: what it reaches fits, or is the newest episode
/// alone, and one more would not fit.
pub proof fn timeline_fills_the_budget(
    episodes: Seq<EpisodeRow>,
    counter: TokenCounter,
    budget: int,
)
    requires
        episodes.len() > 0,
        budget >= 0,
    ensures
        ({
            let start = reach(episodes, counter, budget);
            let n = episodes.len() as int;
            let all = live_cost(episodes, counter, n);
            &&& 0 <= start < n
            &&& start == n - 1 || all - live_cost(episodes, counter, start) <= budget
            &&& start > 0 ==> all - live_cost(episodes, counter, start - 1) > budget
        }),
{
    let n = episodes.len() as int;
    assert(reach(episodes, counter, budget) == reach_from(episodes, counter, budget, n - 1));
    reach_is_maximal(episodes, counter, budget, n - 1);
}

proof fn reach_is_maximal(episodes: Seq<EpisodeRow>, counter: TokenCounter, budget: int, i: int)
    requires
        0 <= i < episodes.len(),
    ensures
        ({
            let start = reach_from(episodes, counter, budget, i);
            let all = live_cost(episodes, counter, episodes.len() as int);
            &&& 0 <= start <= i
            &&& start == i || all - live_cost(episodes, counter, start) <= budget
            &&& start > 0 ==> all - live_cost(episodes, counter, start - 1) > budget
        }),
    decreases i,
{
    if i > 0 && live_cost(episodes, counter, episodes.len() as int) - live_cost(
        episodes,
        counter,
        i - 1,
    ) <= budget {
        reach_is_maximal(episodes, counter, budget, i - 1);
    }
}

/// A budget that covers everything reaches back to the first episode.
pub proof fn an_ample_budget_reaches_everything(
    episodes: Seq<EpisodeRow>,
    counter: TokenCounter,
    budget: int,
)
    requires
        live_cost(episodes, counter, episodes.len() as int) <= budget,
    ensures
        reach(episodes, counter, budget) == 0,
{
    if episodes.len() > 0 {
        live_cost_grows(episodes, counter, 0, episodes.len() as int);
        timeline_fills_the_budget(episodes, counter, budget);
        let start = reach(episodes, counter, budget);
        if start > 0 {
            live_cost_grows(episodes, counter, start - 1, episodes.len() as int);
        }
    }
}

/// The episodes that are in no fold, among the first `n`.
pub open spec fn unfolded(episodes: Seq<EpisodeRow>, n: int) -> Seq<EpisodeRow>
    decreases n,
{
    if n <= 0 {
        Seq::empty()
    } else if episodes[n - 1].fold_id is None {
        unfolded(episodes, n - 1).push(episodes[n - 1])
    } else {
        unfolded(episodes, n - 1)
    }
}

/// The episodes that a timeline shows.
pub open spec fn considered(episodes: Seq<EpisodeRow>, include_folded: bool) -> Seq<EpisodeRow> {
    if include_folded {
        episodes
    } else {
        unfolded(episodes, episodes.len() as int)
    }
}

/// Whether an episode stands in the text: the budget reaches it and its words have not left
/// the window.
pub open spec fn shows(row: EpisodeRow, i: int, start: int) -> bool {
    i >= start && !row.eviction_tier.outside()
}

/// The line for an episode.
pub open spec fn timeline_line(row: EpisodeRow) -> Seq<char> {
    "<"@ + row.role@ + "> "@ + (match row.tool_name {
        Some(t) => "["@ + t@ + "] "@,
        None => ""@,
    }) + row.shown_at(row.eviction_tier) + "\n"@
}

/// The text of the first `n` episodes.
pub open spec fn timeline_text(episodes: Seq<EpisodeRow>, start: int, n: int) -> Seq<char>
    decreases n,
{
    if n <= 0 {
        Seq::empty()
    } else if shows(episodes[n - 1], n - 1, start) {
        timeline_text(episodes, start, n - 1) + timeline_line(episodes[n - 1])
    } else {
        timeline_text(episodes, start, n - 1)
    }
}

/// The cost of those of the first `n` episodes that stand in the text.
pub open spec fn shown_cost(
    episodes: Seq<EpisodeRow>,
    counter: TokenCounter,
    start: int,
    n: int,
) -> int
    decreases n,
{
    if n <= 0 {
        0
    } else {
        shown_cost(episodes, counter, start, n - 1) + (if shows(episodes[n - 1], n - 1, start) {
            episodes[n - 1].cost_at(episodes[n - 1].eviction_tier, counter) as int
        } else {
            0
        })
    }
}

/// How many of the first `n` episodes do not stand in the text.
pub open spec fn hidden_count(episodes: Seq<EpisodeRow>, start: int, n: int) -> nat
    decreases n,
{
    if n <= 0 {
        0
    } else {
        hidden_count(episodes, start, n - 1) + (if shows(episodes[n - 1], n - 1, start) {
            0nat
        } else {
            1
        })
    }
}

/// What is shown never costs more than everything.
pub proof fn shown_cost_is_part_of_the_whole(
    episodes: Seq<EpisodeRow>,
    counter: TokenCounter,
    start: int,
    n: int,
)
    requires
        0 <= n,
    ensures
        0 <= shown_cost(episodes, counter, start, n) <= live_cost(episodes, counter, n),
    decreases n,
{
    if n > 0 {
        shown_cost_is_part_of_the_whole(episodes, counter, start, n - 1);
    }
}

/// A text on one line.
pub open spec fn flat(text: Seq<char>) -> Seq<char>
    decreases text.len(),
{
    if text.len() == 0 {
        Seq::empty()
    } else if text.last() == '\n' {
        flat(text.drop_last()) + " ⏎ "@
    } else {
        flat(text.drop_last()).push(text.last())
    }
}

/// The beginning of a text on one line.
pub open spec fn preview_text(text: Seq<char>, limit: nat) -> Seq<char> {
    if flat(text).len() <= limit {
        flat(text)
    } else {
        flat(text).take(limit as int).push('…')
    }
}

/// The beginning of a text on one line.
fn preview_of(text: &str, limit: usize) -> (r: String)
    ensures
        r@ == preview_text(text@, limit as nat),
{
    let cs = chars_of(text);
    let mut line = String::new();
    assert(line@ =~= flat(text@.take(0)));
    for i in 0..cs.len()
        invariant
            cs@ == text@,
            line@ == flat(text@.take(i as int)),
    {
        assert(text@.take(i as int + 1).drop_last() =~= text@.take(i as int));
        if cs[i] == '\n' {
            line.append(" ⏎ ");
        } else {
            line.push(cs[i]);
        }
    }
    assert(text@.take(text@.len() as int) =~= text@);
    let fc = chars_of(line.as_str());
    if fc.len() <= limit {
        line
    } else {
        let mut out = string_of(fc.as_slice(), 0, limit);
        assert(out@ =~= line@.take(limit as int));
        out.push('…');
        out
    }
}

/// Whether an item of a timeline stands for episode `i`.
pub open spec fn stands_for(
    item: TimelineItem,
    row: EpisodeRow,
    counter: TokenCounter,
    i: int,
    start: int,
) -> bool {
    &&& item.episode_id == row.episode_id
    &&& item.seq == row.seq
    &&& item.role == row.role
    &&& item.tier == row.eviction_tier
    &&& item.tokens == row.cost_at(row.eviction_tier, counter)
    &&& item.included == shows(row, i, start)
    &&& item.preview@ == preview_text(row.shown_at(row.eviction_tier), 120)
}

impl SessionTimeline {
    /// Whether this is the timeline of these episodes within the budget.
    pub open spec fn renders(
        self,
        episodes: Seq<EpisodeRow>,
        counter: TokenCounter,
        budget: int,
    ) -> bool {
        let n = episodes.len() as int;
        let start = reach(episodes, counter, budget);
        &&& self.rendered@ == timeline_text(episodes, start, n)
        &&& self.items@.len() == n
        &&& forall|i: int|
            0 <= i < n ==> stands_for(#[trigger] self.items@[i], episodes[i], counter, i, start)
        &&& self.included_tokens == shown_cost(episodes, counter, start, n)
        &&& self.total_tokens == whole_cost(episodes, counter, n)
        &&& self.episodes_total == n
        &&& self.episodes_included == n - start
        &&& self.episodes_evicted == hidden_count(episodes, start, n)
        &&& self.reclaimed_tokens == at_least_zero(self.total_tokens - self.included_tokens)
    }
}

/// Whether an anchor holds in a session: one pinned for no session holds in all of them, and
/// where no session is asked for every anchor does.
pub open spec fn holds_in(row: AnchorRow, session: Option<Seq<char>>) -> bool {
    session matches Some(asked) ==> (row.session_id matches Some(own) ==> own@ == asked)
}

/// Those of the first `n` anchors that hold in a session.
pub open spec fn holding(rows: Seq<AnchorRow>, session: Option<Seq<char>>, n: int) -> Seq<AnchorRow>
    decreases n,
{
    if n <= 0 {
        Seq::empty()
    } else if holds_in(rows[n - 1], session) {
        holding(rows, session, n - 1).push(rows[n - 1])
    } else {
        holding(rows, session, n - 1)
    }
}

/// Whether an episode may be evicted: it is shown in full and belongs to no fold.
pub open spec fn may_be_evicted(row: EpisodeRow) -> bool {
    row.eviction_tier is Live && row.fold_id is None
}

/// Those of the first `n` episodes that may be evicted.
pub open spec fn evictable(rows: Seq<EpisodeRow>, n: int) -> Seq<EpisodeRow>
    decreases n,
{
    if n <= 0 {
        Seq::empty()
    } else if may_be_evicted(rows[n - 1]) {
        evictable(rows, n - 1).push(rows[n - 1])
    } else {
        evictable(rows, n - 1)
    }
}

/// The anchors that hold in a session are those of the list that do.
proof fn holding_is_a_filter(rows: Seq<AnchorRow>, session: Option<Seq<char>>, n: int, x: AnchorRow)
    requires
        0 <= n <= rows.len(),
    ensures
        holding(rows, session, n).contains(x) <==> holds_in(x, session) && rows.take(n).contains(x),
    decreases n,
{
    if n > 0 {
        holding_is_a_filter(rows, session, n - 1, x);
        let rest = holding(rows, session, n - 1);
        let last = rows[n - 1];
        assert(rows.take(n) =~= rows.take(n - 1).push(last));
        assert(rows.take(n).contains(x) <==> rows.take(n - 1).contains(x) || x == last) by {
            pushed_contains(rows.take(n - 1), last, x);
        }
        pushed_contains(rest, last, x);
    }
}

/// The evictable episodes are those of the list that may be evicted.
proof fn evictable_is_a_filter(rows: Seq<EpisodeRow>, n: int, x: EpisodeRow)
    requires
        0 <= n <= rows.len(),
    ensures
        evictable(rows, n).contains(x) <==> may_be_evicted(x) && rows.take(n).contains(x),
    decreases n,
{
    if n > 0 {
        evictable_is_a_filter(rows, n - 1, x);
        let rest = evictable(rows, n - 1);
        let last = rows[n - 1];
        assert(rows.take(n) =~= rows.take(n - 1).push(last));
        assert(rows.take(n).contains(x) <==> rows.take(n - 1).contains(x) || x == last) by {
            pushed_contains(rows.take(n - 1), last, x);
        }
        pushed_contains(rest, last, x);
    }
}

/// What a list holds after one more element.
proof fn pushed_contains<T>(s: Seq<T>, last: T, x: T)
    ensures
        s.push(last).contains(x) <==> s.contains(x) || x == last,
{
    if s.contains(x) {
        let i = s.index_of(x);
        assert(s.push(last)[i] == x);
    }
    assert(s.push(last)[s.len() as int] == last);
    if s.push(last).contains(x) && x != last {
        let i = s.push(last).index_of(x);
        assert(s[i] == x);
    }
}

/// The memory of sessions.
#[derive(Debug, Clone, Copy)]
pub struct MemoryFabric {}

impl MemoryFabric {
    pub fn new() -> (r: Self)
        ensures
            r == (MemoryFabric {  }),
    {
        MemoryFabric {  }
    }

    /// What is stored for a turn.
    ///
    /// Facts are extracted before anything is written, so that a turn and everything derived
    /// from it become visible together.
    pub fn commit_episode(
        &self,
        new: &NewEpisode,
        counter: &TokenCounter,
        extract_symbolic: bool,
        detect_constraints: bool,
    ) -> (r: PendingCommit)
        requires
            counter.of(new.content@) <= i64::MAX,
        ensures
            r.stores(*new, *counter, found_in(*new, extract_symbolic)),
            r.detect_constraints == detect_constraints,
    {
        let symbolic: Option<ToolOutputFacts> = if extract_symbolic && new.role == Role::Tool {
            let tool: Option<&str> = match &new.tool_name {
                Some(t) => Some(t.as_str()),
                None => None,
            };
            Some(ToolOutputParser::parse_any(tool, new.content.as_str()))
        } else {
            None
        };
        self.commit_with(new, counter, symbolic, detect_constraints)
    }

    /// What is stored for a turn, given what was found in it.
    pub fn commit_with(
        &self,
        new: &NewEpisode,
        counter: &TokenCounter,
        symbolic: Option<ToolOutputFacts>,
        detect_constraints: bool,
    ) -> (r: PendingCommit)
        requires
            counter.of(new.content@) <= i64::MAX,
        ensures
            r.stores(*new, *counter, extract_in(symbolic)),
            r.detect_constraints == detect_constraints,
    {
        proof {
            reveal_strlit("ep");
            assert("ep"@.len() == 2);
        }
        let episode_id = new_id("ep");
        let created_at = now_rfc3339();
        let token_count: i64 = counter.count(new.content.as_str()).get() as i64;
        let source = NodeRef::episode(episode_id.as_str());
        let mut facts: Vec<SymbolicFact> = Vec::new();
        let mut edges: Vec<EdgeRow> = Vec::new();
        let ghost wanted = match extract_in(symbolic) {
            Some(e) => e.facts,
            None => Seq::empty(),
        };
        let symbolic_summary = match symbolic {
            Some(found_facts) => {
                let ghost writes = found_facts.facts@;
                for write in it: found_facts.facts
                    invariant
                        it.seq() == writes,
                        wanted == facts_of(writes),
                        source.node() == (NodeKind::Episode, episode_id@),
                        facts@.len() == it.index(),
                        edges@.len() == it.index(),
                        forall|i: int|
                            0 <= i < facts@.len() ==> (#[trigger] facts@[i]).holds(
                                wanted[i],
                                FactSource::ToolOutputParser,
                                None,
                            ),
                        forall|i: int|
                            0 <= i < edges@.len() ==> links(
                                #[trigger] edges@[i],
                                episode_id@,
                                facts@[i].fact_id@,
                            ),
                {
                    assert(wanted[it.index() as int] == write.fact());
                    let fact = write.into_fact(FactSource::ToolOutputParser, None);
                    let edge = EdgeRow::new(
                        &source,
                        &NodeRef::fact(fact.fact_id.as_str()),
                        EdgeKind::DerivedFrom,
                    );
                    let ghost before = facts@;
                    facts.push(fact);
                    edges.push(edge);
                    assert forall|i: int| 0 <= i < edges@.len() implies links(
                        #[trigger] edges@[i],
                        episode_id@,
                        facts@[i].fact_id@,
                    ) by {
                        if i < before.len() {
                            assert(facts@[i] == before[i]);
                        }
                    }
                }
                found_facts.summary
            },
            None => "not a tool result".to_owned(),
        };
        PendingCommit {
            episode_id,
            created_at,
            token_count,
            facts,
            edges,
            symbolic_summary,
            detect_constraints,
            role: new.role,
            content: new.content.clone(),
        }
    }

    /// A session's history within a budget: the newest episodes that fit, told in order.
    pub fn timeline(
        &self,
        episodes: &[EpisodeRow],
        budget_tokens: usize,
        counter: &TokenCounter,
        include_folded: bool,
    ) -> (r: SessionTimeline)
        requires
            forall|i: int| 0 <= i < episodes@.len() ==> (#[trigger] episodes@[i]).wf(),
            live_cost(
                considered(episodes@, include_folded),
                *counter,
                considered(episodes@, include_folded).len() as int,
            ) <= usize::MAX,
            whole_cost(
                considered(episodes@, include_folded),
                *counter,
                considered(episodes@, include_folded).len() as int,
            ) <= usize::MAX,
        ensures
            r.renders(considered(episodes@, include_folded), *counter, budget_tokens as int),
    {
        let mut kept: Vec<EpisodeRow> = Vec::new();
        for i in 0..episodes.len()
            invariant
                forall|i: int| 0 <= i < episodes@.len() ==> (#[trigger] episodes@[i]).wf(),
                forall|i: int| 0 <= i < kept@.len() ==> (#[trigger] kept@[i]).wf(),
                kept@ == (if include_folded {
                    episodes@.take(i as int)
                } else {
                    unfolded(episodes@, i as int)
                }),
        {
            assert(episodes@[i as int].wf());
            if include_folded || episodes[i].fold_id.is_none() {
                kept.push(episodes[i].clone());
            }
            assert(include_folded ==> kept@ =~= episodes@.take(i as int + 1));
        }
        assert(episodes@.take(episodes@.len() as int) =~= episodes@);
        assert(kept@ == considered(episodes@, include_folded));
        self.timeline_of(&kept, budget_tokens, counter)
    }

    /// The history of a list of episodes within a budget.
    fn timeline_of(&self, episodes: &Vec<EpisodeRow>, budget_tokens: usize, counter: &TokenCounter) -> (r:
        SessionTimeline)
        requires
            forall|i: int| 0 <= i < episodes@.len() ==> (#[trigger] episodes@[i]).wf(),
            live_cost(episodes@, *counter, episodes@.len() as int) <= usize::MAX,
            whole_cost(episodes@, *counter, episodes@.len() as int) <= usize::MAX,
        ensures
            r.renders(episodes@, *counter, budget_tokens as int),
    {
        let n: usize = episodes.len();
        let ghost all = live_cost(episodes@, *counter, n as int);
        let mut used: usize = 0;
        let mut start: usize = n;
        let mut going: bool = true;
        while start > 0 && going
            invariant
                n == episodes@.len(),
                start <= n,
                forall|i: int| 0 <= i < episodes@.len() ==> (#[trigger] episodes@[i]).wf(),
                all == live_cost(episodes@, *counter, n as int),
                all <= usize::MAX,
                used == all - live_cost(episodes@, *counter, start as int),
                going ==> reach(episodes@, *counter, budget_tokens as int) == reach_from(
                    episodes@,
                    *counter,
                    budget_tokens as int,
                    start as int,
                ),
                !going ==> reach(episodes@, *counter, budget_tokens as int) == start,
            decreases
                start,
                (if going {
                    1int
                } else {
                    0
                }),
        {
            assert(episodes@[start - 1].wf());
            let cost: usize = episodes[start - 1].live_tokens(counter);
            proof {
                live_cost_grows(episodes@, *counter, start - 1, n as int);
                live_cost_grows(episodes@, *counter, start as int, n as int);
            }
            if start < n && used + cost > budget_tokens {
                going = false;
            } else {
                used = used + cost;
                start = start - 1;
            }
        }
        let mut rendered = String::new();
        let mut items: Vec<TimelineItem> = Vec::new();
        let mut included_tokens: usize = 0;
        let mut total: usize = 0;
        let mut evicted: usize = 0;
        for i in 0..n
            invariant
                n == episodes@.len(),
                start == reach(episodes@, *counter, budget_tokens as int),
                forall|i: int| 0 <= i < episodes@.len() ==> (#[trigger] episodes@[i]).wf(),
                live_cost(episodes@, *counter, n as int) <= usize::MAX,
                whole_cost(episodes@, *counter, n as int) <= usize::MAX,
                rendered@ == timeline_text(episodes@, start as int, i as int),
                items@.len() == i,
                forall|k: int|
                    0 <= k < i ==> stands_for(
                        #[trigger] items@[k],
                        episodes@[k],
                        *counter,
                        k,
                        start as int,
                    ),
                included_tokens == shown_cost(episodes@, *counter, start as int, i as int),
                total == whole_cost(episodes@, *counter, i as int),
                evicted == hidden_count(episodes@, start as int, i as int),
                evicted <= i,
        {
            let row = &episodes[i];
            proof {
                assert(episodes@[i as int].wf());
                live_cost_grows(episodes@, *counter, i as int + 1, n as int);
                whole_cost_grows(episodes@, *counter, i as int + 1, n as int);
                shown_cost_is_part_of_the_whole(
                    episodes@,
                    *counter,
                    start as int,
                    i as int + 1,
                );
            }
            let included: bool = i >= start && !row.eviction_tier.is_out_of_window();
            let text = row.render();
            let cost: usize = row.live_tokens(counter);
            if included {
                let mut line = String::from_str("<");
                line.append(row.role.as_str());
                line.append("> ");
                let tool = match &row.tool_name {
                    Some(t) => {
                        let mut s = String::from_str("[");
                        s.append(t.as_str());
                        s.append("] ");
                        s
                    },
                    None => String::from_str(""),
                };
                line.append(tool.as_str());
                line.append(text.as_str());
                line.append("\n");
                rendered.append(line.as_str());
                included_tokens = included_tokens + cost;
            } else {
                evicted = evicted + 1;
            }
            total = total + row.token_count as usize;
            items.push(
                TimelineItem {
                    episode_id: row.episode_id.clone(),
                    seq: row.seq,
                    role: row.role.clone(),
                    tier: row.eviction_tier,
                    tokens: cost,
                    included,
                    preview: preview_of(text.as_str(), 120),
                },
            );
        }
        SessionTimeline {
            rendered,
            items,
            included_tokens,
            total_tokens: total,
            episodes_total: n,
            episodes_included: n - start,
            episodes_evicted: evicted,
            reclaimed_tokens: total.saturating_sub(included_tokens),
        }
    }

    /// The tokens that a session's live window costs now: those of the timeline as it is
    /// rendered, with its role tags and line ends.
    pub fn session_live_tokens(&self, episodes: &[EpisodeRow], counter: &TokenCounter) -> (r: usize)
        requires
            forall|i: int| 0 <= i < episodes@.len() ==> (#[trigger] episodes@[i]).wf(),
            live_cost(
                considered(episodes@, false),
                *counter,
                considered(episodes@, false).len() as int,
            ) <= usize::MAX,
            whole_cost(
                considered(episodes@, false),
                *counter,
                considered(episodes@, false).len() as int,
            ) <= usize::MAX,
        ensures
            r == counter.of(
                timeline_text(
                    considered(episodes@, false),
                    0,
                    considered(episodes@, false).len() as int,
                ),
            ),
    {
        proof {
            an_ample_budget_reaches_everything(
                considered(episodes@, false),
                *counter,
                usize::MAX as int,
            );
        }
        let timeline = self.timeline(episodes, usize::MAX, counter, false);
        counter.count(timeline.rendered.as_str()).get()
    }

    /// What came of moving one episode to another tier, given how many rows were touched.
    pub fn set_tier(&self, episode_id: &str, rows: usize) -> (r: Result<(), Error>)
        ensures
            if rows == 0 {
                r matches Err(Error::NotFound(m)) && m@ == "episode "@ + episode_id@
            } else {
                r is Ok
            },
    {
        if rows == 0 {
            return Err(Error::NotFound(String::from_str("episode ").concat(episode_id)));
        }
        Ok(())
    }

    /// The edge that records a correction, given how many rows were touched. A correction of
    /// an episode that does not exist is an error and leaves no edge.
    pub fn mark_superseded(&self, episode_id: &str, by_episode_id: &str, rows: usize) -> (r: Result<
        EdgeRow,
        Error,
    >)
        ensures
            if rows == 0 {
                r matches Err(Error::NotFound(m)) && m@ == "cannot correct episode "@ + episode_id@
                    + ": no such episode in this store"@
            } else {
                r matches Ok(e) && e.src_type@ == NodeKind::Episode.name() && e.src_id@
                    == by_episode_id@ && e.dst_type@ == NodeKind::Episode.name() && e.dst_id@
                    == episode_id@ && e.edge_kind == EdgeKind::Supersedes && e.target_hash is None
            },
    {
        if rows == 0 {
            let mut m = String::from_str("cannot correct episode ");
            m.append(episode_id);
            m.append(": no such episode in this store");
            return Err(Error::NotFound(m));
        }
        Ok(
            EdgeRow::new(
                &NodeRef::episode(by_episode_id),
                &NodeRef::episode(episode_id),
                EdgeKind::Supersedes,
            ),
        )
    }

    /// The anchors that hold in a session, safety-first: by kind, then by time of pinning.
    pub fn anchors(&self, rows: &[AnchorRow], session_id: Option<&str>) -> (r: Vec<AnchorRow>)
        ensures
            ({
                let session = match session_id {
                    Some(s) => Some(s@),
                    None => None,
                };
                &&& r@ == stably_sorted(holding(rows@, session, rows@.len() as int))
                &&& forall|x: AnchorRow|
                    #[trigger] r@.contains(x) <==> holds_in(x, session) && rows@.contains(x)
                &&& forall|i: int, j: int|
                    #![trigger r@[i], r@[j]]
                    0 <= i < j < r@.len() ==> !r@[j].precedes(&r@[i])
            }),
    {
        let ghost session = match session_id {
            Some(s) => Some(s@),
            None => None,
        };
        let mut kept: Vec<AnchorRow> = Vec::new();
        for i in 0..rows.len()
            invariant
                session == (match session_id {
                    Some(s) => Some(s@),
                    None => None,
                }),
                kept@ == holding(rows@, session, i as int),
        {
            let holds: bool = match (session_id, &rows[i].session_id) {
                (Some(asked), Some(own)) => same(own.as_str(), asked),
                _ => true,
            };
            if holds {
                kept.push(rows[i].clone());
            }
        }
        let ghost all = kept@;
        let sorted = stable_sort(kept);
        proof {
            assert(rows@.take(rows@.len() as int) =~= rows@);
            assert forall|x: AnchorRow|
                #[trigger] sorted@.contains(x) <==> holds_in(x, session) && rows@.contains(x) by {
                holding_is_a_filter(rows@, session, rows@.len() as int, x);
                assert(sorted@.contains(x) <==> all.contains(x));
            }
        }
        sorted
    }

    /// The episodes that the eviction engine may choose from, oldest first. Anchors are no
    /// episodes and folded ones are left out, so neither can be chosen.
    pub fn evictable_episodes(&self, rows: &[EpisodeRow]) -> (r: Vec<EpisodeRow>)
        ensures
            r@ == stably_sorted(evictable(rows@, rows@.len() as int)),
            forall|x: EpisodeRow|
                #[trigger] r@.contains(x) <==> may_be_evicted(x) && rows@.contains(x),
            forall|i: int, j: int|
                #![trigger r@[i], r@[j]]
                0 <= i < j < r@.len() ==> r@[i].seq <= r@[j].seq,
    {
        let mut kept: Vec<EpisodeRow> = Vec::new();
        for i in 0..rows.len()
            invariant
                kept@ == evictable(rows@, i as int),
        {
            if rows[i].eviction_tier == EpisodeTier::Live && rows[i].fold_id.is_none() {
                kept.push(rows[i].clone());
            }
        }
        let ghost all = kept@;
        let sorted = stable_sort(kept);
        proof {
            assert(rows@.take(rows@.len() as int) =~= rows@);
            assert forall|x: EpisodeRow|
                #[trigger] sorted@.contains(x) <==> may_be_evicted(x) && rows@.contains(x) by {
                evictable_is_a_filter(rows@, rows@.len() as int, x);
                assert(sorted@.contains(x) <==> all.contains(x));
            }
        }
        sorted
    }

    /// The hash that an anchor has now, given what the store holds under its id: a fact's own
    /// hash, an episode's content hash. Nothing where there is no such anchor.
    pub fn anchor_hash(
        &self,
        anchor_type: AnchorType,
        fact: Option<&SymbolicFact>,
        episode: Option<&EpisodeRow>,
    ) -> (r: Option<String>)
        ensures
            match anchor_type {
                AnchorType::SymbolicFact => match fact {
                    Some(f) => r matches Some(h) && h@ == f.ast_hash@,
                    None => r is None,
                },
                AnchorType::EpisodicStream => match episode {
                    Some(e) => r matches Some(h) && h@ == short_hash_of_text(e.content@),
                    None => r is None,
                },
            },
    {
        match anchor_type {
            AnchorType::SymbolicFact => match fact {
                Some(f) => Some(f.ast_hash.clone()),
                None => None,
            },
            AnchorType::EpisodicStream => match episode {
                Some(e) => Some(e.content_hash()),
                None => None,
            },
        }
    }

    /// How much of the atlas is stale, given its entries, the newest first. All stale entries
    /// are counted; the first `limit` of them are listed. A listed entry that is anchored in a
    /// store that does not exist is an error.
    pub fn staleness_report(&self, rows: Vec<AtlasRow>, limit: usize) -> (r: Result<
        StalenessReport,
        Error,
    >)
        ensures
            ({
                let shown = listed(drifted(rows@, rows@.len() as int), limit as int);
                match unknown_store_from(shown, 0) {
                    Some(k) => r matches Err(Error::Invalid(m)) && m@ == "unknown anchor type: "@
                        + shown[k].anchor_type@,
                    None => r matches Ok(report) && report.tells_of(rows@, limit as int),
                }
            }),
    {
        StalenessReport::of_rows(rows, limit)
    }

    /// What goes into the store for a summary, given the hashes its anchors have now. A summary
    /// that is not one, or that is anchored to something that does not exist, is an error.
    pub fn put_semantic(
        &self,
        write: &SemanticWrite,
        current: Option<&str>,
        extra: &[Option<String>],
    ) -> (r: Result<ResolvedWrite, Error>)
        requires
            extra@.len() == write.extra_anchors@.len(),
        ensures
            if write.acceptable() {
                write.resolved_as(
                    match current {
                        Some(h) => Some(h@),
                        None => None,
                    },
                    extra@,
                    r,
                )
            } else {
                r matches Err(e) && write.refused_with(e)
            },
    {
        match write.validate() {
            Ok(_) => write.resolve(current, extra),
            Err(e) => Err(e),
        }
    }

    /// The summary that was asked for, with everything it is anchored to: its own anchor first.
    /// It is stale where any of its anchors has drifted.
    pub fn semantic_entry(
        &self,
        atlas_id: &str,
        row: Option<SemanticEntry>,
        anchors: Vec<AnchorReading>,
    ) -> (r: Result<SemanticEntry, Error>)
        ensures
            match row {
                Some(found) => r matches Ok(entry) && {
                    let kind = found.anchor_type.name();
                    &&& anchor_list(entry.anchors@) == seq![(found.anchor_type, found.anchor_id@)]
                        + further(anchors@, kind, found.anchor_id@, anchors@.len() as int)
                    &&& entry.is_stale == (found.is_stale || exists|i: int|
                        0 <= i < anchors@.len() && !(#[trigger] anchors@[i]).is_anchor(
                            kind,
                            found.anchor_id@,
                        ) && anchors@[i].has_drifted())
                    &&& entry == (SemanticEntry {
                        anchors: entry.anchors,
                        is_stale: entry.is_stale,
                        ..found
                    })
                },
                None => r matches Err(Error::NotFound(m)) && m@ == "semantic entry "@ + atlas_id@,
            },
    {
        match row {
            Some(found) => Ok(found.with_anchors(&anchors)),
            None => Err(Error::NotFound(String::from_str("semantic entry ").concat(atlas_id))),
        }
    }

    /// The episode that was asked for.
    pub fn episode(&self, episode_id: &str, row: Option<EpisodeRow>) -> (r: Result<
        EpisodeRow,
        Error,
    >)
        ensures
            match row {
                Some(found) => r == Ok::<EpisodeRow, Error>(found),
                None => r matches Err(Error::NotFound(m)) && m@ == "episode "@ + episode_id@,
            },
    {
        match row {
            Some(found) => Ok(found),
            None => Err(Error::NotFound(String::from_str("episode ").concat(episode_id))),
        }
    }

    /// The symbols of a file, one line each, under its path; nothing where there are none.
    pub fn file_outline(&self, rel_path: &str, facts: &[SymbolicFact]) -> (r: String)
        ensures
            r@ == outline(rel_path@, facts@),
    {
        if facts.len() == 0 {
            return String::new();
        }
        let mut out = String::from_str(rel_path);
        out.append("\n");
        for i in 0..facts.len()
            invariant
                out@ == rel_path@ + "\n"@ + outline_lines(facts@, i as int),
        {
            if facts[i].kind != FactKind::Import {
                let line = facts[i].render();
                let mut s = String::from_str("  ");
                s.append(line.as_str());
                s.append("\n");
                out.append(s.as_str());
            }
            assert(out@ =~= rel_path@ + "\n"@ + outline_lines(facts@, i as int + 1));
        }
        out
    }
}

/// The outline of the first `n` facts: imports are left out.
pub open spec fn outline_lines(facts: Seq<SymbolicFact>, n: int) -> Seq<char>
    decreases n,
{
    if n <= 0 {
        Seq::empty()
    } else if facts[n - 1].kind is Import {
        outline_lines(facts, n - 1)
    } else {
        outline_lines(facts, n - 1) + ("  "@ + facts[n - 1].shown() + "\n"@)
    }
}

/// The outline of a file.
pub open spec fn outline(rel_path: Seq<char>, facts: Seq<SymbolicFact>) -> Seq<char> {
    if facts.len() == 0 {
        Seq::empty()
    } else {
        rel_path + "\n"@ + outline_lines(facts, facts.len() as int)
    }
}

/// The tokens of the items from `i` on.
pub open spec fn item_tokens_from(items: Seq<TimelineItem>, i: int) -> int
    decreases items.len() - i,
{
    if i >= items.len() {
        0
    } else {
        items[i].tokens + item_tokens_from(items, i + 1)
    }
}

/// The places of the episodes that are in no fold, among the first `n`.
proof fn unfolded_places(episodes: Seq<EpisodeRow>, n: int) -> (at: Seq<int>)
    requires
        0 <= n <= episodes.len(),
    ensures
        at.len() == unfolded(episodes, n).len(),
        forall|k: int|
            0 <= k < at.len() ==> 0 <= #[trigger] at[k] < n && episodes[at[k]].fold_id is None
                && unfolded(episodes, n)[k] == episodes[at[k]],
        forall|j: int, k: int|
            #![trigger at[j], at[k]]
            0 <= j < k < at.len() ==> at[j] < at[k],
        forall|i: int| 0 <= i < n && (#[trigger] episodes[i]).fold_id is None ==> at.contains(i),
    decreases n,
{
    if n <= 0 {
        Seq::empty()
    } else {
        let before = unfolded_places(episodes, n - 1);
        if episodes[n - 1].fold_id is None {
            let at = before.push(n - 1);
            assert forall|i: int| 0 <= i < n && (#[trigger] episodes[i]).fold_id is None implies
                at.contains(i) by {
                if i < n - 1 {
                    let k = choose|k: int| 0 <= k < before.len() && before[k] == i;
                    assert(at[k] == i);
                } else {
                    assert(at[at.len() - 1] == i);
                }
            }
            at
        } else {
            before
        }
    }
}

/// The episodes that a timeline is about, by their places: all of them, or those in no fold.
proof fn considered_places(episodes: Seq<EpisodeRow>, include_folded: bool) -> (at: Seq<int>)
    ensures
        at.len() == considered(episodes, include_folded).len(),
        forall|k: int|
            0 <= k < at.len() ==> 0 <= #[trigger] at[k] < episodes.len() && (include_folded
                || episodes[at[k]].fold_id is None) && considered(episodes, include_folded)[k]
                == episodes[at[k]],
        forall|j: int, k: int|
            #![trigger at[j], at[k]]
            0 <= j < k < at.len() ==> at[j] < at[k],
        forall|i: int|
            0 <= i < episodes.len() && (include_folded || (#[trigger] episodes[i]).fold_id is None)
                ==> at.contains(i),
{
    if include_folded {
        let at = Seq::new(episodes.len(), |k: int| k);
        assert forall|i: int| 0 <= i < episodes.len() implies at.contains(i) by {
            assert(at[i] == i);
        }
        at
    } else {
        unfolded_places(episodes, episodes.len() as int)
    }
}

/// The costs of the items from `i` on are those of their episodes.
proof fn items_cost_what_episodes_cost(
    items: Seq<TimelineItem>,
    episodes: Seq<EpisodeRow>,
    counter: TokenCounter,
    start: int,
    i: int,
)
    requires
        items.len() == episodes.len(),
        0 <= i <= items.len(),
        forall|k: int|
            0 <= k < items.len() ==> stands_for(#[trigger] items[k], episodes[k], counter, k, start),
    ensures
        item_tokens_from(items, i) == live_cost(episodes, counter, episodes.len() as int)
            - live_cost(episodes, counter, i),
    decreases items.len() - i,
{
    if i < items.len() {
        items_cost_what_episodes_cost(items, episodes, counter, start, i + 1);
        assert(stands_for(items[i], episodes[i], counter, i, start));
    }
}

/// The line of an episode that is shown stands in the text.
proof fn shown_ones_stand_in_the_text(episodes: Seq<EpisodeRow>, start: int, n: int, i: int) -> (p:
    int)
    requires
        0 <= i < n <= episodes.len(),
        shows(episodes[i], i, start),
    ensures
        stands_at(timeline_text(episodes, start, n), timeline_line(episodes[i]), p),
    decreases n,
{
    let all = timeline_text(episodes, start, n);
    let before = timeline_text(episodes, start, n - 1);
    let line = timeline_line(episodes[i]);
    if i == n - 1 {
        let p = before.len() as int;
        assert(all.subrange(p, p + line.len()) =~= line);
        p
    } else {
        let p = shown_ones_stand_in_the_text(episodes, start, n - 1, i);
        assert(all.subrange(p, p + line.len()) =~= before.subrange(p, p + line.len()));
        p
    }
}

/// A timeline tells of the episodes in their order, the folded ones only where they are asked
/// for: `at` tells which episode each item stands for. The budget reaches back over the newest
/// of them that fit together, and at least over the very newest; those whose words are still in
/// the window are shown, and the text holds what each of them shows.
pub proof fn a_timeline_shows_the_newest_that_fit(
    fabric: &MemoryFabric,
    episodes: &[EpisodeRow],
    budget: usize,
    counter: &TokenCounter,
    include_folded: bool,
    r: SessionTimeline,
) -> (at: Seq<int>)
    requires
        call_ensures(
            MemoryFabric::timeline,
            (fabric, episodes, budget, counter, include_folded),
            r,
        ),
    ensures
        at.len() == r.items@.len(),
        r.episodes_total == at.len(),
        r.episodes_included <= at.len(),
        forall|k: int|
            0 <= k < at.len() ==> 0 <= #[trigger] at[k] < episodes@.len() && (include_folded
                || episodes@[at[k]].fold_id is None),
        forall|j: int, k: int|
            #![trigger at[j], at[k]]
            0 <= j < k < at.len() ==> at[j] < at[k],
        forall|i: int|
            0 <= i < episodes@.len() && (include_folded || (
            #[trigger] episodes@[i]).fold_id is None) ==> at.contains(i),
        forall|k: int|
            0 <= k < at.len() ==> {
                let item = #[trigger] r.items@[k];
                let row = episodes@[at[k]];
                &&& item.episode_id == row.episode_id && item.seq == row.seq && item.tier
                    == row.eviction_tier
                &&& item.tokens == row.cost_at(row.eviction_tier, *counter)
                &&& item.included <==> k >= at.len() - r.episodes_included && (
                row.eviction_tier is Live || row.eviction_tier is Masked)
                &&& item.included ==> contains_text(
                    r.rendered@,
                    row.shown_at(row.eviction_tier) + "\n"@,
                )
            },
        at.len() > 0 ==> {
            let start = at.len() - r.episodes_included;
            &&& r.episodes_included >= 1
            &&& start == at.len() - 1 || item_tokens_from(r.items@, start) <= budget
            &&& start > 0 ==> item_tokens_from(r.items@, start - 1) > budget
        },
{
    let at = considered_places(episodes@, include_folded);
    let rows = considered(episodes@, include_folded);
    let n = rows.len() as int;
    let start = reach(rows, *counter, budget as int);
    if n > 0 {
        timeline_fills_the_budget(rows, *counter, budget as int);
        items_cost_what_episodes_cost(r.items@, rows, *counter, start, start);
        if start > 0 {
            items_cost_what_episodes_cost(r.items@, rows, *counter, start, start - 1);
        }
    }
    assert forall|k: int| 0 <= k < at.len() implies {
        let item = #[trigger] r.items@[k];
        let row = episodes@[at[k]];
        &&& item.episode_id == row.episode_id && item.seq == row.seq && item.tier
            == row.eviction_tier
        &&& item.tokens == row.cost_at(row.eviction_tier, *counter)
        &&& item.included <==> k >= at.len() - r.episodes_included && (row.eviction_tier is Live
            || row.eviction_tier is Masked)
        &&& item.included ==> contains_text(r.rendered@, row.shown_at(row.eviction_tier) + "\n"@)
    } by {
        let row = rows[k];
        assert(row == episodes@[at[k]]);
        assert(stands_for(r.items@[k], row, *counter, k, start));
        if shows(row, k, start) {
            let p = shown_ones_stand_in_the_text(rows, start, n, k);
            let line = timeline_line(row);
            let tail = row.shown_at(row.eviction_tier) + "\n"@;
            let a = line.len() - tail.len();
            assert(line.subrange(a, line.len() as int) =~= tail);
            assert(r.rendered@.subrange(p + a, p + a + tail.len()) =~= r.rendered@.subrange(
                p,
                p + line.len(),
            ).subrange(a, line.len() as int));
            assert(stands_at(r.rendered@, tail, p + a));
        }
    }
    at
}

/// What a timeline saves is what everything would cost with nothing evicted, less what is shown;
/// and nothing is saved where everything is live and fits.
pub proof fn what_is_not_shown_is_reclaimed(
    fabric: &MemoryFabric,
    episodes: &[EpisodeRow],
    budget: usize,
    counter: &TokenCounter,
    r: SessionTimeline,
)
    requires
        call_ensures(MemoryFabric::timeline, (fabric, episodes, budget, counter, true), r),
        forall|i: int| 0 <= i < episodes@.len() ==> (#[trigger] episodes@[i]).wf(),
    ensures
        r.included_tokens <= r.total_tokens ==> r.reclaimed_tokens == r.total_tokens
            - r.included_tokens,
        r.included_tokens > r.total_tokens ==> r.reclaimed_tokens == 0,
        (forall|i: int| 0 <= i < episodes@.len() ==> (#[trigger] episodes@[i]).eviction_tier is Live)
            && r.total_tokens <= budget ==> r.included_tokens == r.total_tokens
            && r.reclaimed_tokens == 0 && r.episodes_evicted == 0 && r.episodes_included
            == episodes@.len(),
{
    let n = episodes@.len() as int;
    if (forall|i: int| 0 <= i < n ==> (#[trigger] episodes@[i]).eviction_tier is Live)
        && r.total_tokens <= budget {
        all_live_costs_the_whole(episodes@, *counter, n);
        an_ample_budget_reaches_everything(episodes@, *counter, budget as int);
    }
}

proof fn all_live_costs_the_whole(episodes: Seq<EpisodeRow>, counter: TokenCounter, n: int)
    requires
        0 <= n <= episodes.len(),
        forall|i: int| 0 <= i < episodes.len() ==> (#[trigger] episodes[i]).eviction_tier is Live,
    ensures
        live_cost(episodes, counter, n) == whole_cost(episodes, counter, n),
        shown_cost(episodes, counter, 0, n) == whole_cost(episodes, counter, n),
        hidden_count(episodes, 0, n) == 0,
    decreases n,
{
    if n > 0 {
        all_live_costs_the_whole(episodes, counter, n - 1);
        assert(episodes[n - 1].eviction_tier is Live);
    }
}

/// What a session's window costs is what its timeline costs as it is rendered, where the budget
/// leaves nothing out.
pub proof fn a_window_costs_its_rendering(
    fabric: &MemoryFabric,
    episodes: &[EpisodeRow],
    counter: &TokenCounter,
    cost: usize,
    timeline: SessionTimeline,
)
    requires
        call_ensures(MemoryFabric::session_live_tokens, (fabric, episodes, counter), cost),
        call_ensures(
            MemoryFabric::timeline,
            (fabric, episodes, usize::MAX, counter, false),
            timeline,
        ),
        live_cost(
            considered(episodes@, false),
            *counter,
            considered(episodes@, false).len() as int,
        ) <= usize::MAX,
    ensures
        cost == counter.of(timeline.rendered@),
{
    an_ample_budget_reaches_everything(
        considered(episodes@, false),
        *counter,
        usize::MAX as int,
    );
}

/// The facts stored with the result of a tool are those that the parsers find in it, each linked
/// to the episode; nothing is extracted from other turns, nor where that is not asked for.
pub proof fn a_result_is_stored_with_its_facts(
    fabric: &MemoryFabric,
    new: &NewEpisode,
    counter: &TokenCounter,
    extract: bool,
    detect: bool,
    r: PendingCommit,
    tool: Option<&str>,
    found: ToolOutputFacts,
    i: int,
)
    requires
        call_ensures(MemoryFabric::commit_episode, (fabric, new, counter, extract, detect), r),
        new.tool_name matches Some(t) ==> (tool matches Some(n) && n@ == t@),
        new.tool_name is None ==> tool is None,
        0 <= i < r.facts@.len(),
    ensures
        r.content@ == new.content@ && r.role == new.role && r.detect_constraints == detect,
        r.token_count == counter.of(new.content@),
        extract && new.role is Tool,
        forall|text: &str|
            text@ == new.content@ && #[trigger] call_ensures(
                ToolOutputParser::parse_any,
                (tool, text),
                found,
            ) ==> {
                &&& r.facts@.len() == found.facts@.len()
                &&& r.facts@[i].qualified_name@ == found.facts@[i].qualified_name@
                &&& r.facts@[i].kind == found.facts@[i].kind
                &&& r.symbolic_summary@ == found.summary@
            },
        r.edges@.len() == r.facts@.len(),
        r.edges@[i].src_id@ == r.episode_id@ && r.edges@[i].dst_id@ == r.facts@[i].fact_id@,
        r.facts@[i].source is ToolOutputParser,
{
    assert forall|text: &str|
        text@ == new.content@ && #[trigger] call_ensures(
            ToolOutputParser::parse_any,
            (tool, text),
            found,
        ) implies {
        &&& r.facts@.len() == found.facts@.len()
        &&& r.facts@[i].qualified_name@ == found.facts@[i].qualified_name@
        &&& r.facts@[i].kind == found.facts@[i].kind
        &&& r.symbolic_summary@ == found.summary@
    } by {
        let wanted = found_in(*new, extract)->0;
        assert(found.extract() == wanted);
        assert(facts_of(found.facts@)[i] == found.facts@[i].fact());
        assert(r.facts@[i].holds(wanted.facts[i], FactSource::ToolOutputParser, None));
    }
    assert(links(r.edges@[i], r.episode_id@, r.facts@[i].fact_id@));
}

/// A turn that is no result of a tool, and any turn where nothing is to be extracted, is stored
/// without facts, with its words as they are.
pub proof fn other_turns_are_stored_without_facts(
    fabric: &MemoryFabric,
    new: &NewEpisode,
    counter: &TokenCounter,
    extract: bool,
    detect: bool,
    r: PendingCommit,
)
    requires
        call_ensures(MemoryFabric::commit_episode, (fabric, new, counter, extract, detect), r),
        !extract || !(new.role is Tool),
    ensures
        r.facts@.len() == 0 && r.edges@.len() == 0,
        r.content@ == new.content@,
        r.token_count == counter.of(new.content@),
{
}

/// What a commit tells of is the turn that was stored, at the place that it was given, and a
/// constraint is proposed where one is looked for and the detector finds it.
pub proof fn a_commit_tells_of_its_turn(
    pending: PendingCommit,
    seq: i64,
    r: CommitOutcome,
    id: &str,
    content: &str,
    p: Option<AnchorProposal>,
)
    requires
        call_ensures(PendingCommit::committed, (pending, seq), r),
        id@ == pending.episode_id@,
        content@ == pending.content@,
        call_ensures(ConstraintDetector::detect, (id, seq, pending.role, content), p),
    ensures
        r.episode_id == pending.episode_id && r.seq == seq && r.token_count == pending.token_count,
        r.facts_extracted == pending.facts@.len(),
        !pending.detect_constraints ==> r.anchor_proposal is None,
        pending.detect_constraints ==> (r.anchor_proposal is Some <==> p is Some),
        r.anchor_proposal matches Some(a) ==> (p matches Some(b) ==> a.kind == b.kind && a.excerpt@
            == b.excerpt@ && a.confidence == b.confidence && a.rule@ == b.rule@ && a.episode_id@
            == b.episode_id@),
{
}

/// The anchors of a session are those pinned for it and those pinned for none, all of them, and
/// those of a safety kind come first.
pub proof fn a_session_has_its_own_and_the_common_anchors(
    fabric: &MemoryFabric,
    rows: &[AnchorRow],
    session: Option<&str>,
    r: Vec<AnchorRow>,
    x: AnchorRow,
)
    requires
        call_ensures(MemoryFabric::anchors, (fabric, rows, session), r),
    ensures
        session is None ==> (r@.contains(x) <==> rows@.contains(x)),
        session matches Some(s) ==> (r@.contains(x) <==> rows@.contains(x) && (x.session_id is None
            || (x.session_id matches Some(own) && own@ == s@))),
        forall|i: int, j: int|
            #![trigger r@[i], r@[j]]
            0 <= i < j < r@.len() ==> crate::memory::anchor::may_stand_before(r@[i], r@[j]),
{
    assert forall|i: int, j: int|
        #![trigger r@[i], r@[j]]
        0 <= i < j < r@.len() implies crate::memory::anchor::may_stand_before(r@[i], r@[j]) by {
        crate::text::text_order(r@[i].created_at@, r@[j].created_at@, r@[i].created_at@);
    }
}

/// What may be evicted are the live episodes in no fold, all of them, the oldest first.
pub proof fn live_episodes_outside_folds_may_be_evicted(
    fabric: &MemoryFabric,
    rows: &[EpisodeRow],
    r: Vec<EpisodeRow>,
    x: EpisodeRow,
)
    requires
        call_ensures(MemoryFabric::evictable_episodes, (fabric, rows), r),
    ensures
        r@.contains(x) <==> rows@.contains(x) && x.eviction_tier is Live && x.fold_id is None,
        forall|i: int, j: int|
            #![trigger r@[i], r@[j]]
            0 <= i < j < r@.len() ==> r@[i].seq <= r@[j].seq,
{
}

/// The hash of an anchor is that of the fact or of the episode's words, and it is had exactly
/// where the anchor is there.
pub proof fn an_anchor_is_known_by_its_content(
    fabric: &MemoryFabric,
    anchor_type: AnchorType,
    fact: Option<&SymbolicFact>,
    episode: Option<&EpisodeRow>,
    r: Option<String>,
)
    requires
        call_ensures(MemoryFabric::anchor_hash, (fabric, anchor_type, fact, episode), r),
    ensures
        anchor_type is SymbolicFact ==> (r is Some <==> fact is Some),
        anchor_type is EpisodicStream ==> (r is Some <==> episode is Some),
        anchor_type is SymbolicFact ==> (fact matches Some(f) ==> r->0@ == f.ast_hash@),
        anchor_type is EpisodicStream ==> (episode matches Some(e) ==> r->0@ == short_hash_of_text(
            e.content@,
        )),
{
}

/// The outline of a file names it and shows each of its symbols but the imports.
pub proof fn an_outline_shows_every_symbol(
    fabric: &MemoryFabric,
    rel_path: &str,
    facts: &[SymbolicFact],
    r: String,
    i: int,
    line: String,
)
    requires
        call_ensures(MemoryFabric::file_outline, (fabric, rel_path, facts), r),
        0 <= i < facts@.len(),
        !(facts@[i].kind is Import),
        call_ensures(SymbolicFact::render, (&facts@[i],), line),
    ensures
        rel_path@.is_prefix_of(r@),
        contains_text(r@, "  "@ + line@ + "\n"@),
{
    let n = facts@.len() as int;
    let head = rel_path@ + "\n"@;
    let lines = outline_lines(facts@, n);
    let p = a_symbol_stands_in_the_outline(facts@, n, i);
    let wanted = "  "@ + line@ + "\n"@;
    assert(r@.subrange(head.len() + p, head.len() + p + wanted.len()) =~= lines.subrange(
        p,
        p + wanted.len(),
    ));
    assert(stands_at(r@, wanted, head.len() + p));
    assert(r@.subrange(0, rel_path@.len() as int) =~= rel_path@);
}

proof fn a_symbol_stands_in_the_outline(facts: Seq<SymbolicFact>, n: int, i: int) -> (p: int)
    requires
        0 <= i < n <= facts.len(),
        !(facts[i].kind is Import),
    ensures
        stands_at(outline_lines(facts, n), "  "@ + facts[i].shown() + "\n"@, p),
    decreases n,
{
    let all = outline_lines(facts, n);
    let before = outline_lines(facts, n - 1);
    let wanted = "  "@ + facts[i].shown() + "\n"@;
    if i == n - 1 {
        let p = before.len() as int;
        assert(all.subrange(p, p + wanted.len()) =~= wanted);
        p
    } else {
        let p = a_symbol_stands_in_the_outline(facts, n - 1, i);
        assert(all.subrange(p, p + wanted.len()) =~= before.subrange(p, p + wanted.len()));
        p
    }
}

/// A correction points from the later episode to the one it corrects, and only where that one
/// exists.
pub proof fn a_correction_points_back(
    fabric: &MemoryFabric,
    episode_id: &str,
    by_episode_id: &str,
    rows: usize,
    r: Result<EdgeRow, Error>,
)
    requires
        call_ensures(MemoryFabric::mark_superseded, (fabric, episode_id, by_episode_id, rows), r),
    ensures
        r is Ok <==> rows > 0,
        r matches Ok(e) ==> e.src_id@ == by_episode_id@ && e.dst_id@ == episode_id@
            && e.edge_kind is Supersedes,
{
}

} // verus!
