//! How much each episode is worth keeping, as whole numbers.
//!
//! The caller weighs the parts into one score and keeps the scores in order.

use crate::memory::episodic::EpisodeRow;
use crate::text::{digits, push_nat, same, texts};
use vstd::prelude::*;
use vstd::string::*;

verus! {

/// What speaks for and against keeping an episode.
#[derive(Debug)]
pub struct Worth {
    /// How far the episode stands from the oldest one.
    pub age_rank: i64,
    /// How far the newest stands from the oldest, at least one.
    pub age_span: i64,
    /// What its role adds, in halves.
    pub role_halves: i8,
    /// How many nodes depend on it.
    pub dependents: usize,
    /// How many of them count, at most six.
    pub dependents_counted: usize,
    /// Its size in tokens.
    pub tokens: usize,
    pub superseded: bool,
    pub droppable: bool,
    pub in_fold: bool,
    /// The reasons, one line each.
    pub notes: Vec<String>,
}

/// What a role adds, in halves: a request is expensive to lose, a tool's result can be had
/// again.
pub open spec fn role_halves(role: Seq<char>) -> int {
    if role == "user"@ {
        4
    } else if role == "assistant"@ {
        1
    } else if role == "tool"@ {
        -1
    } else if role == "system"@ {
        3
    } else {
        0
    }
}

/// The note on a role, where there is one.
pub open spec fn role_note(role: Seq<char>) -> Seq<Seq<char>> {
    if role == "user"@ {
        seq!["user turn: statements of intent are expensive to lose"@]
    } else if role == "tool"@ {
        seq!["tool result: reproducible by re-running the tool"@]
    } else if role == "system"@ {
        seq!["system turn"@]
    } else {
        Seq::empty()
    }
}

/// One note where it applies.
pub open spec fn note_if(applies: bool, note: Seq<char>) -> Seq<Seq<char>> {
    if applies {
        seq![note]
    } else {
        Seq::empty()
    }
}

/// The notes on an episode.
pub open spec fn worth_notes(row: EpisodeRow, dependents: nat) -> Seq<Seq<char>> {
    role_note(row.role@) + note_if(
        dependents > 0,
        digits(dependents) + " node(s) depend on this episode"@,
    ) + note_if(row.superseded_by is Some, "superseded by a later episode"@) + note_if(
        row.droppable,
        "producer marked it droppable"@,
    ) + note_if(row.fold_id is Some, "attached to a fold"@)
}

/// Whether `seq` is the smallest position among the episodes.
pub open spec fn is_oldest(episodes: Seq<EpisodeRow>, seq: i64) -> bool {
    if episodes.len() == 0 {
        seq == 0
    } else {
        &&& exists|i: int| 0 <= i < episodes.len() && (#[trigger] episodes[i]).seq == seq
        &&& forall|i: int| 0 <= i < episodes.len() ==> seq <= (#[trigger] episodes[i]).seq
    }
}

/// Whether `seq` is the largest position among the episodes.
pub open spec fn is_newest(episodes: Seq<EpisodeRow>, seq: i64) -> bool {
    if episodes.len() == 0 {
        seq == 0
    } else {
        &&& exists|i: int| 0 <= i < episodes.len() && (#[trigger] episodes[i]).seq == seq
        &&& forall|i: int| 0 <= i < episodes.len() ==> (#[trigger] episodes[i]).seq <= seq
    }
}

impl Worth {
    /// Whether these are the parts for this episode among others from `oldest` to `newest`.
    pub open spec fn weighs(
        self,
        row: EpisodeRow,
        dependents: nat,
        oldest: i64,
        newest: i64,
    ) -> bool {
        &&& self.age_rank == row.seq - oldest
        &&& self.age_span == (if newest - oldest > 1 {
            newest - oldest
        } else {
            1
        })
        &&& self.role_halves == role_halves(row.role@)
        &&& self.dependents == dependents
        &&& self.dependents_counted == (if dependents < 6 {
            dependents
        } else {
            6
        })
        &&& self.tokens == row.token_count
        &&& self.superseded == row.superseded_by is Some
        &&& self.droppable == row.droppable
        &&& self.in_fold == row.fold_id is Some
        &&& texts(self.notes@) == worth_notes(row, dependents)
    }
}

/// Adds a note.
fn add_note(notes: &mut Vec<String>, text: String)
    ensures
        texts(final(notes)@) == texts(old(notes)@).push(text@),
{
    notes.push(text);
    assert(texts(notes@) =~= texts(old(notes)@).push(text@));
}

/// Whether the positions of the episodes lie close enough together to be subtracted.
pub open spec fn spans(episodes: Seq<EpisodeRow>) -> bool {
    forall|i: int, j: int|
        #![trigger episodes[i], episodes[j]]
        0 <= i < episodes.len() && 0 <= j < episodes.len() ==> episodes[i].seq - episodes[j].seq
            <= i64::MAX
}

/// What speaks for and against keeping each episode, in their order.
///
/// `dependents` holds, for each episode, how many nodes were found to depend on it.
pub fn score_candidates(episodes: &[EpisodeRow], dependents: &[usize]) -> (r: Vec<Worth>)
    requires
        episodes@.len() == dependents@.len(),
        forall|i: int| 0 <= i < episodes@.len() ==> (#[trigger] episodes@[i]).wf(),
        spans(episodes@),
    ensures
        r@.len() == episodes@.len(),
        exists|oldest: i64, newest: i64|
            #![trigger is_oldest(episodes@, oldest), is_newest(episodes@, newest)]
            {
                &&& is_oldest(episodes@, oldest)
                &&& is_newest(episodes@, newest)
                &&& forall|i: int|
                    0 <= i < r@.len() ==> (#[trigger] r@[i]).weighs(
                        episodes@[i],
                        dependents@[i] as nat,
                        oldest,
                        newest,
                    )
            },
{
    let n: usize = episodes.len();
    let mut oldest: i64 = 0;
    let mut newest: i64 = 0;
    for i in 0..n
        invariant
            n == episodes@.len(),
            i == 0 ==> oldest == 0 && newest == 0,
            i > 0 ==> exists|k: int| 0 <= k < i && (#[trigger] episodes@[k]).seq == oldest,
            i > 0 ==> exists|k: int| 0 <= k < i && (#[trigger] episodes@[k]).seq == newest,
            forall|k: int|
                0 <= k < i ==> oldest <= (#[trigger] episodes@[k]).seq && episodes@[k].seq
                    <= newest,
    {
        let seq: i64 = episodes[i].seq;
        assert(episodes@[i as int].seq == seq);
        if i == 0 || seq < oldest {
            oldest = seq;
        }
        if i == 0 || seq > newest {
            newest = seq;
        }
    }
    assert(is_oldest(episodes@, oldest));
    assert(is_newest(episodes@, newest));
    let mut out: Vec<Worth> = Vec::new();
    for i in 0..n
        invariant
            n == episodes@.len(),
            n == dependents@.len(),
            forall|i: int| 0 <= i < episodes@.len() ==> (#[trigger] episodes@[i]).wf(),
            spans(episodes@),
            is_oldest(episodes@, oldest),
            is_newest(episodes@, newest),
            out@.len() == i,
            forall|k: int|
                0 <= k < out@.len() ==> (#[trigger] out@[k]).weighs(
                    episodes@[k],
                    dependents@[k] as nat,
                    oldest,
                    newest,
                ),
    {
        proof {
            let a = choose|k: int|
                0 <= k < episodes@.len() && (#[trigger] episodes@[k]).seq == oldest;
            let b = choose|k: int|
                0 <= k < episodes@.len() && (#[trigger] episodes@[k]).seq == newest;
            assert(episodes@[b].seq - episodes@[a].seq <= i64::MAX);
            assert(episodes@[i as int].wf());
            assert(oldest <= episodes@[i as int].seq <= newest);
        }
        let w = weigh(&episodes[i], dependents[i], oldest, newest);
        out.push(w);
    }
    out
}

/// What speaks for and against keeping one episode.
fn weigh(row: &EpisodeRow, dependents: usize, oldest: i64, newest: i64) -> (r: Worth)
    requires
        row.wf(),
        oldest <= row.seq <= newest,
        newest - oldest <= i64::MAX,
    ensures
        r.weighs(*row, dependents as nat, oldest, newest),
{
    let mut notes: Vec<String> = Vec::new();
    assert(texts(notes@) =~= Seq::empty());
    let role = row.role.as_str();
    let halves: i8 = if same(role, "user") {
        add_note(
            &mut notes,
            "user turn: statements of intent are expensive to lose".to_owned(),
        );
        4
    } else if same(role, "assistant") {
        1
    } else if same(role, "tool") {
        add_note(&mut notes, "tool result: reproducible by re-running the tool".to_owned());
        -1
    } else if same(role, "system") {
        add_note(&mut notes, "system turn".to_owned());
        3
    } else {
        0
    };
    proof {
        roles_differ();
        assert(texts(notes@) =~= role_note(row.role@));
    }
    if dependents > 0 {
        let mut text = String::new();
        push_nat(&mut text, dependents as u64);
        assert(text@ =~= digits(dependents as nat));
        text.append(" node(s) depend on this episode");
        add_note(&mut notes, text);
    }
    if row.superseded_by.is_some() {
        add_note(&mut notes, "superseded by a later episode".to_owned());
    }
    if row.droppable {
        add_note(&mut notes, "producer marked it droppable".to_owned());
    }
    if row.fold_id.is_some() {
        add_note(&mut notes, "attached to a fold".to_owned());
    }
    assert(texts(notes@) =~= worth_notes(*row, dependents as nat));
    let span: i64 = newest - oldest;
    Worth {
        age_rank: row.seq - oldest,
        age_span: if span > 1 {
            span
        } else {
            1
        },
        role_halves: halves,
        dependents,
        dependents_counted: if dependents < 6 {
            dependents
        } else {
            6
        },
        tokens: row.token_count as usize,
        superseded: row.superseded_by.is_some(),
        droppable: row.droppable,
        in_fold: row.fold_id.is_some(),
        notes,
    }
}

/// The roles that count are told apart by their names.
proof fn roles_differ()
    ensures
        "user"@ != "assistant"@ && "user"@ != "tool"@ && "user"@ != "system"@,
        "assistant"@ != "tool"@ && "assistant"@ != "system"@ && "tool"@ != "system"@,
{
    reveal_strlit("user");
    reveal_strlit("assistant");
    reveal_strlit("tool");
    reveal_strlit("system");
    assert("user"@[0] == 'u');
    assert("tool"@[0] == 't');
    assert("user"@.len() == 4 && "assistant"@.len() == 9 && "tool"@.len() == 4 && "system"@.len()
        == 6);
}

/// What speaks for an episode: how late it came, who said it, and what depends on it. Of two
/// episodes the later one ranks higher by the difference in their places, the oldest ranks
/// lowest and the newest reaches the span; what a user said adds most, then what the system
/// said, then what the assistant said, and a tool's result takes away.
pub proof fn later_turns_of_users_weigh_most(
    episodes: &[EpisodeRow],
    dependents: &[usize],
    r: Vec<Worth>,
    i: int,
    j: int,
)
    requires
        call_ensures(score_candidates, (episodes, dependents), r),
        0 <= i < episodes@.len(),
        0 <= j < episodes@.len(),
    ensures
        r@.len() == episodes@.len(),
        r@[i].age_rank - r@[j].age_rank == episodes@[i].seq - episodes@[j].seq,
        r@[i].age_span == r@[j].age_span,
        0 <= r@[i].age_rank <= r@[i].age_span,
        r@[i].age_span >= 1,
        (forall|k: int| 0 <= k < episodes@.len() ==> episodes@[i].seq <= (
        #[trigger] episodes@[k]).seq) ==> r@[i].age_rank == 0,
        (forall|k: int| 0 <= k < episodes@.len() ==> (#[trigger] episodes@[k]).seq
            <= episodes@[i].seq) && r@[i].age_rank > 0 ==> r@[i].age_rank == r@[i].age_span,
        episodes@[i].role@ == "user"@ ==> r@[i].role_halves == 4,
        episodes@[i].role@ == "system"@ ==> r@[i].role_halves == 3,
        episodes@[i].role@ == "assistant"@ ==> r@[i].role_halves == 1,
        episodes@[i].role@ == "tool"@ ==> r@[i].role_halves == -1,
        episodes@[i].role@ == "user"@ && episodes@[j].role@ != "user"@ ==> r@[i].role_halves
            > r@[j].role_halves,
        r@[i].dependents == dependents@[i],
        dependents@[i] <= 6 ==> r@[i].dependents_counted == dependents@[i],
        dependents@[i] > 6 ==> r@[i].dependents_counted == 6,
        r@[i].tokens == episodes@[i].token_count,
        r@[i].superseded <==> episodes@[i].superseded_by is Some,
        r@[i].droppable <==> episodes@[i].droppable,
        r@[i].in_fold <==> episodes@[i].fold_id is Some,
{
    let (oldest, newest) = choose|oldest: i64, newest: i64|
        #![trigger is_oldest(episodes@, oldest), is_newest(episodes@, newest)]
        {
            &&& is_oldest(episodes@, oldest)
            &&& is_newest(episodes@, newest)
            &&& forall|i: int|
                0 <= i < r@.len() ==> (#[trigger] r@[i]).weighs(
                    episodes@[i],
                    dependents@[i] as nat,
                    oldest,
                    newest,
                )
        };
    assert(is_oldest(episodes@, oldest) && is_newest(episodes@, newest));
    assert(r@[i].weighs(episodes@[i], dependents@[i] as nat, oldest, newest));
    assert(r@[j].weighs(episodes@[j], dependents@[j] as nat, oldest, newest));
    assert(oldest <= episodes@[i].seq <= newest);
    let a = choose|k: int| 0 <= k < episodes@.len() && (#[trigger] episodes@[k]).seq == oldest;
    let b = choose|k: int| 0 <= k < episodes@.len() && (#[trigger] episodes@[k]).seq == newest;
    assert(episodes@[a].seq == oldest && episodes@[b].seq == newest);
    roles_differ();
}

} // verus!
