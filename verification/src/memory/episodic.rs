//! The episodic stream: an append-only record of every turn.
//!
//! Evicting an episode changes how it is shown, never what it holds: masking happens when
//! a prompt is rendered, and the stored content stays as it was written.

use crate::error::Error;
use crate::ids::{all_hex, short_hash_of_text, short_hash_str};
use crate::order::Ranked;
use crate::text::{
    char_count, contains_text, first_chars, push_int, same, signed_digits, stands_at, take_chars,
};
use crate::tokens::TokenCounter;
use vstd::prelude::*;
use vstd::string::*;

verus! {

/// Who produced an episode.
#[derive(Debug, Clone, Copy, PartialEq, Eq, Structural)]
pub enum Role {
    System,
    User,
    Assistant,
    Tool,
    /// A note of the system's own, such as the result of a fold.
    Internal,
}

impl Role {
    /// The stored name.
    pub open spec fn name(self) -> Seq<char> {
        match self {
            Role::System => "system"@,
            Role::User => "user"@,
            Role::Assistant => "assistant"@,
            Role::Tool => "tool"@,
            Role::Internal => "internal"@,
        }
    }

    /// The stored name.
    pub fn as_str(self) -> (r: &'static str)
        ensures
            r@ == self.name(),
    {
        match self {
            Role::System => "system",
            Role::User => "user",
            Role::Assistant => "assistant",
            Role::Tool => "tool",
            Role::Internal => "internal",
        }
    }

    /// Reads a stored name; any other text is invalid.
    pub fn parse(s: &str) -> (r: Result<Self, Error>)
        ensures
            match r {
                Ok(v) => v.name() == s@,
                Err(e) => {
                    &&& forall|v: Role| #[trigger] v.name() != s@
                    &&& e matches Error::Invalid(m) && m@ == "unknown role: "@ + s@
                },
            },
    {
        if same(s, "system") {
            Ok(Role::System)
        } else if same(s, "user") {
            Ok(Role::User)
        } else if same(s, "assistant") {
            Ok(Role::Assistant)
        } else if same(s, "tool") {
            Ok(Role::Tool)
        } else if same(s, "internal") {
            Ok(Role::Internal)
        } else {
            let m = String::from_str("unknown role: ").concat(s);
            assert forall|v: Role| #[trigger] v.name() != s@ by {
                match v {
                    Role::System => {},
                    Role::User => {},
                    Role::Assistant => {},
                    Role::Tool => {},
                    Role::Internal => {},
                }
            }
            Err(Error::Invalid(m))
        }
    }
}

/// No two roles share a stored name, so a stored role reads back as itself.
pub proof fn role_names_are_distinct(a: Role, b: Role)
    requires
        a.name() == b.name(),
    ensures
        a == b,
{
    reveal_strlit("system");
    reveal_strlit("user");
    reveal_strlit("assistant");
    reveal_strlit("tool");
    reveal_strlit("internal");
    assert("system"@.len() == 6 && "user"@.len() == 4 && "assistant"@.len() == 9);
    assert("tool"@.len() == 4 && "internal"@.len() == 8);
    assert("user"@[0] == 'u' && "tool"@[0] == 't');
}

/// How an episode appears in the live window, from shown in full to left out.
#[derive(Debug, Clone, Copy, PartialEq, Eq, PartialOrd, Ord, Structural)]
pub enum EpisodeTier {
    /// Shown in full.
    Live,
    /// Shown as a short preview.
    Masked,
    /// Shown as a reference to what was derived from it.
    Referenced,
    /// In cold storage.
    Archived,
    /// Left out altogether.
    Dropped,
}

impl EpisodeTier {
    /// The stored name.
    pub open spec fn name(self) -> Seq<char> {
        match self {
            EpisodeTier::Live => "live"@,
            EpisodeTier::Masked => "masked"@,
            EpisodeTier::Referenced => "referenced"@,
            EpisodeTier::Archived => "archived"@,
            EpisodeTier::Dropped => "dropped"@,
        }
    }

    /// How far the tier is from live.
    pub open spec fn depth(self) -> nat {
        match self {
            EpisodeTier::Live => 0,
            EpisodeTier::Masked => 1,
            EpisodeTier::Referenced => 2,
            EpisodeTier::Archived => 3,
            EpisodeTier::Dropped => 4,
        }
    }

    /// The tier one step further, where there is one.
    pub open spec fn next(self) -> Option<EpisodeTier> {
        match self {
            EpisodeTier::Live => Some(EpisodeTier::Masked),
            EpisodeTier::Masked => Some(EpisodeTier::Referenced),
            EpisodeTier::Referenced => Some(EpisodeTier::Archived),
            EpisodeTier::Archived => Some(EpisodeTier::Dropped),
            EpisodeTier::Dropped => None,
        }
    }

    /// Whether the episode's own words have left the window.
    pub open spec fn outside(self) -> bool {
        self.depth() >= 2
    }

    /// The stored name.
    pub fn as_str(self) -> (r: &'static str)
        ensures
            r@ == self.name(),
    {
        match self {
            EpisodeTier::Live => "live",
            EpisodeTier::Masked => "masked",
            EpisodeTier::Referenced => "referenced",
            EpisodeTier::Archived => "archived",
            EpisodeTier::Dropped => "dropped",
        }
    }

    /// How far the tier is from live.
    pub fn severity(self) -> (r: u8)
        ensures
            r == self.depth(),
    {
        match self {
            EpisodeTier::Live => 0,
            EpisodeTier::Masked => 1,
            EpisodeTier::Referenced => 2,
            EpisodeTier::Archived => 3,
            EpisodeTier::Dropped => 4,
        }
    }

    /// Reads a stored name; any other text is invalid.
    pub fn parse(s: &str) -> (r: Result<Self, Error>)
        ensures
            match r {
                Ok(v) => v.name() == s@,
                Err(e) => {
                    &&& forall|v: EpisodeTier| #[trigger] v.name() != s@
                    &&& e matches Error::Invalid(m) && m@ == "unknown eviction tier: "@ + s@
                },
            },
    {
        if same(s, "live") {
            Ok(EpisodeTier::Live)
        } else if same(s, "masked") {
            Ok(EpisodeTier::Masked)
        } else if same(s, "referenced") {
            Ok(EpisodeTier::Referenced)
        } else if same(s, "archived") {
            Ok(EpisodeTier::Archived)
        } else if same(s, "dropped") {
            Ok(EpisodeTier::Dropped)
        } else {
            let m = String::from_str("unknown eviction tier: ").concat(s);
            assert forall|v: EpisodeTier| #[trigger] v.name() != s@ by {
                match v {
                    EpisodeTier::Live => {},
                    EpisodeTier::Masked => {},
                    EpisodeTier::Referenced => {},
                    EpisodeTier::Archived => {},
                    EpisodeTier::Dropped => {},
                }
            }
            Err(Error::Invalid(m))
        }
    }

    /// The stored tier, or live where the name is not known.
    pub fn from_stored(s: &str) -> (r: Self)
        ensures
            r.name() == s@ || (r == EpisodeTier::Live && forall|v: EpisodeTier| #[trigger]
                v.name() != s@),
    {
        match Self::parse(s) {
            Ok(t) => t,
            Err(_) => EpisodeTier::Live,
        }
    }

    /// The tier one step further, where there is one.
    pub fn escalate(self) -> (r: Option<EpisodeTier>)
        ensures
            r == self.next(),
    {
        match self {
            EpisodeTier::Live => Some(EpisodeTier::Masked),
            EpisodeTier::Masked => Some(EpisodeTier::Referenced),
            EpisodeTier::Referenced => Some(EpisodeTier::Archived),
            EpisodeTier::Archived => Some(EpisodeTier::Dropped),
            EpisodeTier::Dropped => None,
        }
    }

    /// Whether the episode's own words have left the window.
    pub fn is_out_of_window(self) -> (r: bool)
        ensures
            r == self.outside(),
    {
        matches!(self, EpisodeTier::Referenced | EpisodeTier::Archived | EpisodeTier::Dropped)
    }
}

/// No two tiers share a stored name, so a stored tier reads back as itself.
pub proof fn tier_names_are_distinct(a: EpisodeTier, b: EpisodeTier)
    requires
        a.name() == b.name(),
    ensures
        a == b,
{
    reveal_strlit("live");
    reveal_strlit("masked");
    reveal_strlit("referenced");
    reveal_strlit("archived");
    reveal_strlit("dropped");
    assert("live"@.len() == 4 && "masked"@.len() == 6 && "referenced"@.len() == 10);
    assert("archived"@.len() == 8 && "dropped"@.len() == 7);
}

/// Escalating goes exactly one step at a time, and every tier but the last has a next one.
pub proof fn escalation_is_one_step(tier: EpisodeTier)
    ensures
        match tier.next() {
            Some(next) => next.depth() == tier.depth() + 1,
            None => tier == EpisodeTier::Dropped,
        },
{
}

/// A turn to append to the stream.
#[derive(Debug, Clone)]
pub struct NewEpisode {
    pub session_id: String,
    pub slot_id: Option<String>,
    pub role: Role,
    pub content: String,
    pub tool_name: Option<String>,
    pub fold_id: Option<String>,
    /// Whether its producer says that it may be dropped, as for a repeated file read.
    pub droppable: bool,
    /// Extra data, as JSON text.
    pub meta: Option<String>,
    /// The project the turn belongs to, where it is known.
    pub project_id: Option<String>,
}

impl NewEpisode {
    /// Whether the turn is of this session, role and content and carries nothing else.
    pub open spec fn plain(self, session_id: Seq<char>, role: Role, content: Seq<char>) -> bool {
        &&& self.session_id@ == session_id
        &&& self.role == role
        &&& self.content@ == content
        &&& self.slot_id is None && self.fold_id is None && !self.droppable
        &&& self.meta is None && self.project_id is None
    }

    fn of_role(session_id: &str, role: Role, content: &str) -> (r: Self)
        ensures
            r.plain(session_id@, role, content@),
            r.tool_name is None,
    {
        NewEpisode {
            session_id: session_id.to_owned(),
            slot_id: None,
            role,
            content: content.to_owned(),
            tool_name: None,
            fold_id: None,
            droppable: false,
            meta: None,
            project_id: None,
        }
    }

    /// A user's turn.
    pub fn user(session_id: &str, content: &str) -> (r: Self)
        ensures
            r.plain(session_id@, Role::User, content@),
            r.tool_name is None,
    {
        Self::of_role(session_id, Role::User, content)
    }

    /// The result of a tool call.
    pub fn tool_result(session_id: &str, tool_name: &str, content: &str) -> (r: Self)
        ensures
            r.plain(session_id@, Role::Tool, content@),
            r.tool_name matches Some(t) && t@ == tool_name@,
    {
        NewEpisode {
            tool_name: Some(tool_name.to_owned()),
            ..Self::of_role(session_id, Role::Tool, content)
        }
    }

    /// The assistant's turn.
    pub fn assistant(session_id: &str, content: &str) -> (r: Self)
        ensures
            r.plain(session_id@, Role::Assistant, content@),
            r.tool_name is None,
    {
        Self::of_role(session_id, Role::Assistant, content)
    }

    /// Places the turn in a slot.
    pub fn with_slot(self, slot: &str) -> (r: Self)
        ensures
            r.slot_id matches Some(s) && s@ == slot@,
            r == (NewEpisode { slot_id: r.slot_id, ..self }),
    {
        NewEpisode { slot_id: Some(slot.to_owned()), ..self }
    }

    /// Attributes the turn to a project.
    pub fn with_project(self, project: &str) -> (r: Self)
        ensures
            r.project_id matches Some(p) && p@ == project@,
            r == (NewEpisode { project_id: r.project_id, ..self }),
    {
        NewEpisode { project_id: Some(project.to_owned()), ..self }
    }

    /// Places the turn in a fold.
    pub fn in_fold(self, fold_id: &str) -> (r: Self)
        ensures
            r.fold_id matches Some(f) && f@ == fold_id@,
            r == (NewEpisode { fold_id: r.fold_id, ..self }),
    {
        NewEpisode { fold_id: Some(fold_id.to_owned()), ..self }
    }

    /// Says that the turn may be dropped.
    pub fn droppable(self) -> (r: Self)
        ensures
            r == (NewEpisode { droppable: true, ..self }),
    {
        NewEpisode { droppable: true, ..self }
    }

    /// Attaches extra data, as JSON text.
    pub fn with_meta(self, meta: &str) -> (r: Self)
        ensures
            r.meta matches Some(m) && m@ == meta@,
            r == (NewEpisode { meta: r.meta, ..self }),
    {
        NewEpisode { meta: Some(meta.to_owned()), ..self }
    }
}

/// A row of the stream.
#[derive(Debug)]
pub struct EpisodeRow {
    pub episode_id: String,
    pub seq: i64,
    pub session_id: String,
    pub slot_id: Option<String>,
    pub role: String,
    pub content: String,
    pub tool_name: Option<String>,
    pub token_count: i64,
    pub created_at: String,
    pub fold_id: Option<String>,
    pub eviction_tier: EpisodeTier,
    pub droppable: bool,
    pub superseded_by: Option<String>,
    /// The project the turn belongs to, where it is known.
    pub project_id: Option<String>,
}

impl Ranked for EpisodeRow {
    /// The older one first.
    open spec fn precedes(&self, other: &Self) -> bool {
        self.seq < other.seq
    }

    fn before(&self, other: &Self) -> (r: bool) {
        self.seq < other.seq
    }

    proof fn ordering(a: Self, b: Self, c: Self) {
    }
}

/// A copy of an optional text.
pub fn copy_opt(s: &Option<String>) -> (r: Option<String>)
    ensures
        r == *s,
{
    match s {
        Some(t) => Some(t.clone()),
        None => None,
    }
}

impl Clone for EpisodeRow {
    fn clone(&self) -> (r: Self)
        ensures
            r == *self,
    {
        EpisodeRow {
            episode_id: self.episode_id.clone(),
            seq: self.seq,
            session_id: self.session_id.clone(),
            slot_id: copy_opt(&self.slot_id),
            role: self.role.clone(),
            content: self.content.clone(),
            tool_name: copy_opt(&self.tool_name),
            token_count: self.token_count,
            created_at: self.created_at.clone(),
            fold_id: copy_opt(&self.fold_id),
            eviction_tier: self.eviction_tier,
            droppable: self.droppable,
            superseded_by: copy_opt(&self.superseded_by),
            project_id: copy_opt(&self.project_id),
        }
    }
}

impl EpisodeRow {
    /// A stored row never has a negative size.
    pub open spec fn wf(self) -> bool {
        0 <= self.token_count <= usize::MAX
    }

    /// The text shown for the episode if it stood at `tier`.
    pub open spec fn shown_at(self, tier: EpisodeTier) -> Seq<char> {
        match tier {
            EpisodeTier::Live => self.content@,
            EpisodeTier::Masked => "[masked "@ + (match self.tool_name {
                Some(t) => t@,
                None => "tool"@,
            }) + " result: "@ + signed_digits(self.token_count as int)
                + " tokens, recall with memory.recall episode="@ + self.episode_id@ + "]\n"@
                + first_chars(self.content@, 160) + (if self.content@.len() > 160 {
                " …"@
            } else {
                ""@
            }),
            EpisodeTier::Referenced => "[evicted to Semantic Atlas: episode="@ + self.episode_id@
                + " — use memory.recall to restore verbatim]"@,
            EpisodeTier::Archived => "[archived: episode="@ + self.episode_id@
                + " — use memory.recall with include_archived=true]"@,
            EpisodeTier::Dropped => Seq::empty(),
        }
    }

    /// The tokens the episode would cost if it stood at `tier`.
    pub open spec fn cost_at(self, tier: EpisodeTier, counter: TokenCounter) -> nat {
        match tier {
            EpisodeTier::Dropped => 0,
            EpisodeTier::Live => self.token_count as nat,
            _ => counter.of(self.shown_at(tier)),
        }
    }

    /// The text shown for the episode at its tier. The stored content is not touched.
    pub fn render(&self) -> (r: String)
        ensures
            r@ == self.shown_at(self.eviction_tier),
    {
        self.render_at(self.eviction_tier)
    }

    /// The text shown for the episode if it stood at `tier`.
    pub fn render_at(&self, tier: EpisodeTier) -> (r: String)
        ensures
            r@ == self.shown_at(tier),
    {
        match tier {
            EpisodeTier::Live => self.content.clone(),
            EpisodeTier::Masked => {
                let mut out = String::from_str("[masked ");
                match &self.tool_name {
                    Some(t) => out.append(t.as_str()),
                    None => out.append("tool"),
                }
                out.append(" result: ");
                push_int(&mut out, self.token_count);
                out.append(" tokens, recall with memory.recall episode=");
                out.append(self.episode_id.as_str());
                out.append("]\n");
                let preview = take_chars(self.content.as_str(), 160);
                out.append(preview.as_str());
                if char_count(self.content.as_str()) > 160 {
                    out.append(" …");
                } else {
                    out.append("");
                }
                out
            },
            EpisodeTier::Referenced => {
                let mut out = String::from_str("[evicted to Semantic Atlas: episode=");
                out.append(self.episode_id.as_str());
                out.append(" — use memory.recall to restore verbatim]");
                out
            },
            EpisodeTier::Archived => {
                let mut out = String::from_str("[archived: episode=");
                out.append(self.episode_id.as_str());
                out.append(" — use memory.recall with include_archived=true]");
                out
            },
            EpisodeTier::Dropped => String::new(),
        }
    }

    /// The hash that entries derived from the episode are anchored by.
    pub fn content_hash(&self) -> (r: String)
        ensures
            r@ == short_hash_of_text(self.content@),
            r@.len() == 16,
            all_hex(r@),
    {
        short_hash_str(self.content.as_str())
    }

    /// The tokens the episode costs in the live window now.
    pub fn live_tokens(&self, counter: &TokenCounter) -> (r: usize)
        requires
            self.wf(),
        ensures
            r == self.cost_at(self.eviction_tier, *counter),
    {
        self.tokens_at(self.eviction_tier, counter)
    }

    /// The tokens the episode would cost if it stood at `tier`.
    pub fn tokens_at(&self, tier: EpisodeTier, counter: &TokenCounter) -> (r: usize)
        requires
            self.wf(),
        ensures
            r == self.cost_at(tier, *counter),
    {
        match tier {
            EpisodeTier::Dropped => 0,
            EpisodeTier::Live => self.token_count as usize,
            _ => counter.count(self.render_at(tier).as_str()).get(),
        }
    }
}

/// Changing the tier and changing it back shows the episode exactly as before: nothing of
/// what it holds is lost on the way.
pub proof fn tier_changes_are_reversible(row: EpisodeRow, through: EpisodeTier)
    ensures
        ({
            let moved = EpisodeRow { eviction_tier: through, ..row };
            let back = EpisodeRow { eviction_tier: row.eviction_tier, ..moved };
            moved.content@ == row.content@ && back == row && moved.shown_at(EpisodeTier::Live)
                == row.content@
        }),
{
}

/// An episode is shown in full while it is live, by its beginning once it is masked, by nothing
/// once it is dropped, and in between by a line that tells how to get it back: by its id.
pub proof fn every_tier_leads_back_to_the_episode(
    row: &EpisodeRow,
    tier: EpisodeTier,
    r: String,
)
    requires
        call_ensures(EpisodeRow::render_at, (row, tier), r),
    ensures
        tier is Live ==> r@ == row.content@,
        tier is Dropped ==> r@.len() == 0,
        tier is Masked || tier is Referenced || tier is Archived ==> contains_text(
            r@,
            row.episode_id@,
        ),
        tier is Masked ==> contains_text(
            r@,
            if row.content@.len() <= 160 {
                row.content@
            } else {
                row.content@.take(160)
            },
        ),
        tier is Masked && row.content@.len() <= 160 ==> r@.len() >= row.content@.len() && r@.skip(
            r@.len() - row.content@.len(),
        ) == row.content@,
{
    reveal_strlit("");
    let id = row.episode_id@;
    match tier {
        EpisodeTier::Masked => {
            let a = "[masked "@ + (match row.tool_name {
                Some(t) => t@,
                None => "tool"@,
            }) + " result: "@ + signed_digits(row.token_count as int)
                + " tokens, recall with memory.recall episode="@;
            let shown = first_chars(row.content@, 160);
            let cut = if row.content@.len() <= 160 {
                row.content@
            } else {
                row.content@.take(160)
            };
            assert(shown =~= cut);
            let end = if row.content@.len() > 160 {
                " …"@
            } else {
                ""@
            };
            assert(r@ =~= a + id + "]\n"@ + shown + end);
            assert(r@.subrange(a.len() as int, a.len() as int + id.len()) =~= id);
            assert(stands_at(r@, id, a.len() as int));
            let at = (a + id + "]\n"@).len() as int;
            assert(r@.subrange(at, at + cut.len()) =~= cut);
            assert(stands_at(r@, cut, at));
            if row.content@.len() <= 160 {
                assert(r@.skip(at) =~= row.content@);
            }
        },
        EpisodeTier::Referenced => {
            let a = "[evicted to Semantic Atlas: episode="@;
            assert(r@.subrange(a.len() as int, a.len() as int + id.len()) =~= id);
            assert(stands_at(r@, id, a.len() as int));
        },
        EpisodeTier::Archived => {
            let a = "[archived: episode="@;
            assert(r@.subrange(a.len() as int, a.len() as int + id.len()) =~= id);
            assert(stands_at(r@, id, a.len() as int));
        },
        _ => {},
    }
}

/// An episode costs its recorded size while it is live, and else what is shown of it; a dropped
/// one costs nothing. What it costs now is what its tier costs.
pub proof fn an_episode_costs_what_is_shown(
    row: &EpisodeRow,
    tier: EpisodeTier,
    counter: &TokenCounter,
    shown: String,
    cost: usize,
    now: usize,
)
    requires
        row.wf(),
        call_ensures(EpisodeRow::render_at, (row, tier), shown),
        call_ensures(EpisodeRow::tokens_at, (row, tier, counter), cost),
        call_ensures(EpisodeRow::live_tokens, (row, counter), now),
    ensures
        tier is Live ==> cost == row.token_count,
        !(tier is Live) ==> cost == counter.of(shown@),
        tier is Dropped ==> cost == 0,
        row.eviction_tier == tier ==> now == cost,
{
    crate::tokens::only_nothing_is_free(*counter, shown@);
}

/// The tiers go from live through masked, referenced and archived to dropped, one at a time.
pub proof fn tiers_follow_one_another(tier: EpisodeTier, r: Option<EpisodeTier>, out: bool)
    requires
        call_ensures(EpisodeTier::escalate, (tier,), r),
        call_ensures(EpisodeTier::is_out_of_window, (tier,), out),
    ensures
        tier is Live ==> r == Some(EpisodeTier::Masked) && !out,
        tier is Masked ==> r == Some(EpisodeTier::Referenced) && !out,
        tier is Referenced ==> r == Some(EpisodeTier::Archived) && out,
        tier is Archived ==> r == Some(EpisodeTier::Dropped) && out,
        tier is Dropped ==> r is None && out,
        r == tier.next(),
{
}

} // verus!
