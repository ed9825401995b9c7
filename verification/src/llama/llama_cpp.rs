//! What a llama.cpp server's answers mean.
//!
//! The application asks; this module reads the replies. Every probe step is independent and
//! tolerant: an answer that is missing marks one capability absent rather than failing the
//! connection.

use super::{CapabilitySet, CheckpointKind, CheckpointRef, RestoreOutcome, SlotState, SnapshotOutcome};
use crate::error::Error;
use crate::ids::{new_id, uuid_v7};
use crate::json::{either, members_in_order, trees, trees_in_order, Json, Tree};
use crate::lines::{
    is_unsigned, lowered, number_of, parse_unsigned, to_lowercase, unsigned_part,
};
use crate::order::{stable_sort, stably_sorted};
use crate::text::{
    contains, contains_text, digits, push_int, push_nat, signed_digits, strip_back, trim_end_char,
};
use vstd::prelude::*;
use vstd::string::*;

verus! {

/// Parts of architecture names that imply that a checkpoint carries only part of the state.
pub open spec fn partial_state_hints() -> Seq<Seq<char>> {
    seq![
        "swa"@,
        "sliding"@,
        "gemma3"@,
        "gemma-3"@,
        "recurrent"@,
        "mamba"@,
        "hybrid"@,
        "jamba"@,
        "qwen3next"@,
        "lfm2"@,
        "granite"@,
    ]
}

/// Whether an architecture's checkpoints carry only part of the state.
pub open spec fn is_partial_state(arch: Seq<char>) -> bool {
    exists|i: int|
        0 <= i < partial_state_hints().len() && contains_text(
            arch,
            #[trigger] partial_state_hints()[i],
        )
}

/// Whether an architecture's checkpoints carry only part of the state.
pub fn partial_state(arch: &str) -> (r: bool)
    ensures
        r == is_partial_state(arch@),
{
    let hints: [&str; 11] = [
        "swa",
        "sliding",
        "gemma3",
        "gemma-3",
        "recurrent",
        "mamba",
        "hybrid",
        "jamba",
        "qwen3next",
        "lfm2",
        "granite",
    ];
    let ghost all = partial_state_hints();
    assert(all.len() == 11);
    assert forall|i: int| 0 <= i < 11 implies hints@[i]@ == #[trigger] all[i] by {}
    for i in 0..11
        invariant
            all == partial_state_hints(),
            all.len() == 11,
            hints@.len() == 11,
            forall|k: int| 0 <= k < 11 ==> hints@[k]@ == #[trigger] all[k],
            forall|k: int| 0 <= k < i ==> !contains_text(arch@, #[trigger] all[k]),
    {
        if contains(arch, hints[i]) {
            assert(contains_text(arch@, all[i as int]));
            return true;
        }
    }
    false
}

/// The checkpoint lists that builds are known to report, by the name of the field.
pub open spec fn ring_of(slot: Tree) -> Option<Tree> {
    either(
        slot.get("checkpoints"@),
        either(
            slot.get("ctx_checkpoints"@),
            either(slot.get("context_checkpoints"@), slot.get("ckpt"@)),
        ),
    )
}

fn find_ring(slot: &Json) -> (r: Option<&Json>)
    ensures
        match r {
            Some(j) => ring_of(slot.tree()) == Some(j.tree()),
            None => ring_of(slot.tree()) is None,
        },
{
    match slot.get("checkpoints") {
        Some(j) => {
            return Some(j);
        },
        None => {},
    }
    match slot.get("ctx_checkpoints") {
        Some(j) => {
            return Some(j);
        },
        None => {},
    }
    match slot.get("context_checkpoints") {
        Some(j) => {
            return Some(j);
        },
        None => {},
    }
    slot.get("ckpt")
}

/// Whether a slot reports a list of checkpoints under one of the known names.
pub open spec fn has_ring(slot: Tree) -> bool {
    slot.list_at("checkpoints"@) || slot.list_at("ctx_checkpoints"@) || slot.list_at(
        "context_checkpoints"@,
    ) || slot.list_at("ckpt"@)
}

/// A checkpoint as reported: its place in the list, its position, its size.
pub type Reported = (nat, i64, Option<u64>);

/// One entry of a list of checkpoints.
pub open spec fn listed_entry(item: Tree) -> Option<(i64, Option<u64>)> {
    match item {
        Tree::Number { signed, unsigned } => match signed {
            Some(p) => Some((p, None)),
            None => None,
        },
        Tree::Object(_) => match either(
            item.i64_at("token_position"@),
            either(
                item.i64_at("pos"@),
                either(item.i64_at("n_past"@), item.i64_at("position"@)),
            ),
        ) {
            Some(p) => Some(
                (
                    p,
                    match either(item.get("size"@), item.get("n_bytes"@)) {
                        Some(t) => t.as_u64(),
                        None => None,
                    },
                ),
            ),
            None => None,
        },
        _ => None,
    }
}

/// One entry of a map of checkpoints.
pub open spec fn mapped_entry(item: Tree) -> Option<(i64, Option<u64>)> {
    match either(item.as_i64(), either(item.i64_at("token_position"@), item.i64_at("pos"@))) {
        Some(p) => Some((p, item.u64_at("size"@))),
        None => None,
    }
}

/// An entry at place `i` counts where it has a position after the start.
pub open spec fn kept_entry(i: nat, entry: Option<(i64, Option<u64>)>) -> Seq<Reported> {
    match entry {
        Some((p, size)) if p > 0 => seq![(i, p, size)],
        _ => Seq::empty(),
    }
}

/// The entries that count among the first `n` of a list.
pub open spec fn entries_of_list(items: Seq<Tree>, n: nat) -> Seq<Reported>
    decreases n,
{
    if n == 0 {
        Seq::empty()
    } else {
        entries_of_list(items, (n - 1) as nat) + kept_entry(
            (n - 1) as nat,
            listed_entry(items[n - 1]),
        )
    }
}

/// The entries that count among the first `n` of a map.
pub open spec fn entries_of_map(members: Seq<(Seq<char>, Tree)>, n: nat) -> Seq<Reported>
    decreases n,
{
    if n == 0 {
        Seq::empty()
    } else {
        entries_of_map(members, (n - 1) as nat) + kept_entry(
            (n - 1) as nat,
            mapped_entry(members[n - 1].1),
        )
    }
}

/// The checkpoints that a slot reports, in the order in which it reports them.
pub open spec fn reported(slot: Tree) -> Seq<Reported> {
    match ring_of(slot) {
        Some(Tree::List(items)) => entries_of_list(items, items.len()),
        Some(Tree::Object(members)) => entries_of_map(members, members.len()),
        _ => Seq::empty(),
    }
}

/// Whether a checkpoint stands for a reported one.
pub open spec fn stands_for(c: CheckpointRef, entry: Reported) -> bool {
    &&& c.id@ == "ring"@ + digits(entry.0)
    &&& c.token_position == entry.1
    &&& c.kind == CheckpointKind::Internal
    &&& c.size_bytes == entry.2
}

/// Whether a list of checkpoints stands for a list of reported ones.
pub open spec fn stand_for(list: Seq<CheckpointRef>, entries: Seq<Reported>) -> bool {
    &&& list.len() == entries.len()
    &&& forall|i: int| 0 <= i < list.len() ==> stands_for(#[trigger] list[i], entries[i])
}

/// Adds a reported checkpoint where it counts.
fn keep_entry(out: &mut Vec<CheckpointRef>, i: usize, entry: Option<(i64, Option<u64>)>, Ghost(
    so_far,
): Ghost<Seq<Reported>>)
    requires
        stand_for(old(out)@, so_far),
    ensures
        stand_for(final(out)@, so_far + kept_entry(i as nat, entry)),
{
    match entry {
        Some((p, size)) => {
            if p > 0 {
                let mut id = String::from_str("ring");
                push_nat(&mut id, i as u64);
                out.push(
                    CheckpointRef {
                        id,
                        token_position: p,
                        kind: CheckpointKind::Internal,
                        size_bytes: size,
                    },
                );
            } else {
                assert(so_far + kept_entry(i as nat, entry) =~= so_far);
            }
        },
        None => {
            assert(so_far + kept_entry(i as nat, entry) =~= so_far);
        },
    }
}

/// The first of two numbers, where it is there.
fn first_of(a: Option<i64>, b: Option<i64>) -> (r: Option<i64>)
    ensures
        r == either(a, b),
{
    match a {
        Some(_) => a,
        None => b,
    }
}

fn read_listed(item: &Json) -> (r: Option<(i64, Option<u64>)>)
    ensures
        r == listed_entry(item.tree()),
{
    match item {
        Json::Number { signed, .. } => match signed {
            Some(p) => Some((*p, None)),
            None => None,
        },
        Json::Object(_) => {
            let pos = first_of(
                item.i64_at("token_position"),
                first_of(
                    item.i64_at("pos"),
                    first_of(item.i64_at("n_past"), item.i64_at("position")),
                ),
            );
            match pos {
                Some(p) => {
                    let size = match item.get("size") {
                        Some(j) => j.as_u64(),
                        None => item.u64_at("n_bytes"),
                    };
                    Some((p, size))
                },
                None => None,
            }
        },
        _ => None,
    }
}

fn read_mapped(item: &Json) -> (r: Option<(i64, Option<u64>)>)
    ensures
        r == mapped_entry(item.tree()),
{
    let pos = first_of(
        item.as_i64(),
        first_of(item.i64_at("token_position"), item.i64_at("pos")),
    );
    match pos {
        Some(p) => Some((p, item.u64_at("size"))),
        None => None,
    }
}

/// The checkpoints that a slot reports, by position. Builds report them as bare positions, as
/// objects, or as a map.
pub fn parse_checkpoints(slot: &Json) -> (r: Vec<CheckpointRef>)
    ensures
        exists|list: Seq<CheckpointRef>|
            #[trigger] stand_for(list, reported(slot.tree())) && r@ == stably_sorted(list),
{
    let mut out: Vec<CheckpointRef> = Vec::new();
    let ring = find_ring(slot);
    match ring {
        Some(Json::List(items)) => {
            let ghost list = trees(items@);
            proof {
                trees_in_order(items@);
            }
            for i in 0..items.len()
                invariant
                    list == trees(items@),
                    list.len() == items@.len(),
                    forall|k: int|
                        0 <= k < items@.len() ==> #[trigger] list[k] == items@[k].tree(),
                    stand_for(out@, entries_of_list(list, i as nat)),
            {
                assert(list[i as int] == items@[i as int].tree());
                let entry = read_listed(&items[i]);
                keep_entry(&mut out, i, entry, Ghost(entries_of_list(list, i as nat)));
            }
            assert(stand_for(out@, reported(slot.tree())));
        },
        Some(Json::Object(members)) => {
            let ghost list = crate::json::member_trees(members@);
            proof {
                members_in_order(members@);
            }
            for i in 0..members.len()
                invariant
                    list == crate::json::member_trees(members@),
                    list.len() == members@.len(),
                    forall|k: int|
                        0 <= k < members@.len() ==> #[trigger] list[k] == (
                            members@[k].0@,
                            members@[k].1.tree(),
                        ),
                    stand_for(out@, entries_of_map(list, i as nat)),
            {
                assert(list[i as int].1 == members@[i as int].1.tree());
                let entry = read_mapped(&members[i].1);
                keep_entry(&mut out, i, entry, Ghost(entries_of_map(list, i as nat)));
            }
            assert(stand_for(out@, reported(slot.tree())));
        },
        _ => {
            assert(stand_for(out@, reported(slot.tree())));
        },
    }
    let ghost list = out@;
    let sorted = stable_sort(out);
    assert(stand_for(list, reported(slot.tree())) && sorted@ == stably_sorted(list));
    sorted
}

/// Every checkpoint read from a server lies after the start, and they come by position.
pub proof fn read_checkpoints_ascend(slot: Tree, list: Seq<CheckpointRef>)
    requires
        stand_for(list, reported(slot)),
        list.len() <= usize::MAX,
    ensures
        forall|i: int|
            0 <= i < stably_sorted(list).len() ==> (#[trigger] stably_sorted(
                list,
            )[i]).token_position > 0,
        forall|i: int, j: int|
            #![trigger stably_sorted(list)[i], stably_sorted(list)[j]]
            0 <= i < j < stably_sorted(list).len() ==> stably_sorted(list)[i].token_position
                <= stably_sorted(list)[j].token_position,
{
    let order = crate::order::sorting_rearranges(list);
    let sorted = stably_sorted(list);
    crate::order::a_stable_order_sorts(list, order);
    match ring_of(slot) {
        Some(Tree::List(items)) => entries_lie_after_start(items, Seq::empty(), items.len()),
        Some(Tree::Object(members)) => entries_lie_after_start(
            Seq::empty(),
            members,
            members.len(),
        ),
        _ => {},
    }
    assert forall|i: int| 0 <= i < sorted.len() implies (#[trigger] sorted[i]).token_position
        > 0 by {
        assert(sorted[i] == list[order[i] as int]);
        assert(stands_for(list[order[i] as int], reported(slot)[order[i] as int]));
    }
}

proof fn entries_lie_after_start(items: Seq<Tree>, members: Seq<(Seq<char>, Tree)>, n: nat)
    ensures
        forall|i: int|
            0 <= i < entries_of_list(items, n).len() ==> (#[trigger] entries_of_list(items, n)[i]).1
                > 0,
        forall|i: int|
            0 <= i < entries_of_map(members, n).len() ==> (#[trigger] entries_of_map(
                members,
                n,
            )[i]).1 > 0,
    decreases n,
{
    if n > 0 {
        entries_lie_after_start(items, members, (n - 1) as nat);
        let list = entries_of_list(items, (n - 1) as nat);
        let map = entries_of_map(members, (n - 1) as nat);
        assert forall|i: int| 0 <= i < entries_of_list(items, n).len() implies (
        #[trigger] entries_of_list(items, n)[i]).1 > 0 by {
            if i < list.len() {
                assert(entries_of_list(items, n)[i] == list[i]);
            }
        }
        assert forall|i: int| 0 <= i < entries_of_map(members, n).len() implies (
        #[trigger] entries_of_map(members, n)[i]).1 > 0 by {
            if i < map.len() {
                assert(entries_of_map(members, n)[i] == map[i]);
            }
        }
    }
}

/// What a server answered to a probe, step by step. An answer that did not come is absent.
#[derive(Debug)]
pub struct ProbeReplies {
    /// Whether `GET /health` was answered.
    pub health: bool,
    /// `GET /props`.
    pub props: Option<Json>,
    /// `GET /slots`.
    pub slots: Option<Json>,
    /// `POST /tokenize` of a known text: whether it succeeded, and the answer.
    pub tokenize: Option<(bool, Json)>,
    /// Whether `GET /metrics` was answered.
    pub metrics: bool,
}

/// The document in an optional reply.
pub open spec fn reply(doc: Option<Json>) -> Option<Tree> {
    match doc {
        Some(j) => Some(j.tree()),
        None => None,
    }
}

/// The first slot of a list of slots.
pub open spec fn first_slot(slots: Option<Tree>) -> Option<Tree> {
    match slots {
        Some(Tree::List(items)) if items.len() > 0 => Some(items[0]),
        _ => None,
    }
}

impl ProbeReplies {
    /// Whether the answer to `GET /slots` is a list.
    pub open spec fn slots_listed(self) -> bool {
        reply(self.slots) matches Some(t) && t is List
    }

    pub open spec fn reachable(self) -> bool {
        self.health || self.props is Some || self.slots_listed()
    }

    /// The name of the loaded model, in lower case; empty where it is not known.
    pub open spec fn model(self) -> Seq<char> {
        let by_props = match reply(self.props) {
            Some(p) => match either(p.get("model_path"@), p.get("model"@)) {
                Some(t) => t.as_text(),
                None => None,
            },
            None => None,
        };
        let by_slot = match first_slot(reply(self.slots)) {
            Some(s) => s.text_at("model"@),
            None => None,
        };
        match either(by_props, by_slot) {
            Some(name) => lowered(name),
            None => Seq::empty(),
        }
    }

    /// The context window, where it is known.
    pub open spec fn window(self) -> Option<i64> {
        either(
            match reply(self.props) {
                Some(p) => p.i64_at("n_ctx"@),
                None => None,
            },
            match first_slot(reply(self.slots)) {
                Some(s) => s.i64_at("n_ctx"@),
                None => None,
            },
        )
    }

    /// Whether the first slot reports a ring.
    pub open spec fn ring(self) -> bool {
        first_slot(reply(self.slots)) matches Some(s) && has_ring(s)
    }

    /// What the answers say that the server can do.
    pub open spec fn found(self) -> CapabilitySet {
        if !self.reachable() {
            CapabilitySet::nothing()
        } else {
            CapabilitySet {
                reachable: true,
                slots: self.slots_listed(),
                slot_save: self.ring(),
                slot_restore: self.ring(),
                slot_erase: self.slots_listed(),
                checkpoint_ring: self.ring(),
                tokenize: self.tokenize matches Some((ok, body)) && ok && body.tree().list_at(
                    "tokens"@,
                ),
                props: self.props is Some,
                metrics: self.metrics,
                partial_state_only: self.model().len() > 0 && is_partial_state(self.model()),
                context_shift: false,
            }
        }
    }

    fn first(&self) -> (r: Option<&Json>)
        ensures
            match r {
                Some(j) => first_slot(reply(self.slots)) == Some(j.tree()),
                None => first_slot(reply(self.slots)) is None,
            },
    {
        match &self.slots {
            Some(j) => match j.as_array() {
                Some(items) => {
                    proof {
                        trees_in_order(items@);
                    }
                    if items.len() > 0 {
                        assert(trees(items@)[0] == items@[0].tree());
                        Some(&items[0])
                    } else {
                        None
                    }
                },
                None => None,
            },
            None => None,
        }
    }

    fn model_name(&self) -> (r: String)
        ensures
            r@ == self.model(),
    {
        match &self.props {
            Some(p) => {
                let field = match p.get("model_path") {
                    Some(j) => Some(j),
                    None => p.get("model"),
                };
                match field {
                    Some(j) => match j.as_str() {
                        Some(s) => {
                            return to_lowercase(s);
                        },
                        None => {},
                    },
                    None => {},
                }
            },
            None => {},
        }
        match self.first() {
            Some(slot) => match slot.text_at("model") {
                Some(s) => to_lowercase(s),
                None => String::new(),
            },
            None => String::new(),
        }
    }

    fn window_size(&self) -> (r: Option<i64>)
        ensures
            r == self.window(),
    {
        let by_props: Option<i64> = match &self.props {
            Some(p) => p.i64_at("n_ctx"),
            None => None,
        };
        match by_props {
            Some(_) => by_props,
            None => match self.first() {
                Some(slot) => slot.i64_at("n_ctx"),
                None => None,
            },
        }
    }
}

/// A client's view of one server.
#[derive(Debug)]
pub struct LlamaCppBackend {
    base_url: String,
    caps: CapabilitySet,
    model_name: Option<String>,
    n_ctx_hint: Option<i64>,
    save_dir: String,
}

impl LlamaCppBackend {
    /// The server's address, without a trailing slash.
    pub closed spec fn address(self) -> Seq<char> {
        self.base_url@
    }

    /// What the last probe found.
    pub closed spec fn caps(self) -> CapabilitySet {
        self.caps
    }

    /// The model's name, where a probe found one.
    pub closed spec fn model(self) -> Option<Seq<char>> {
        match self.model_name {
            Some(s) => Some(s@),
            None => None,
        }
    }

    /// The context window, where a probe found it.
    pub closed spec fn window(self) -> Option<i64> {
        self.n_ctx_hint
    }

    /// Where saved slots go.
    pub closed spec fn saves(self) -> Seq<char> {
        self.save_dir@
    }

    /// A server that has not been probed yet.
    pub fn new(base_url: &str, save_dir: &str) -> (r: Self)
        ensures
            r.address() == strip_back(base_url@, '/'),
            r.caps() == CapabilitySet::nothing(),
            r.model() is None,
            r.window() is None,
            r.saves() == save_dir@,
    {
        LlamaCppBackend {
            base_url: trim_end_char(base_url, '/'),
            caps: CapabilitySet::default(),
            model_name: None,
            n_ctx_hint: None,
            save_dir: save_dir.to_owned(),
        }
    }

    /// Accepts a probed server if anything answered.
    pub fn connect(self, base_url: &str) -> (r: Result<Self, Error>)
        ensures
            if self.caps().reachable {
                r == Ok::<Self, Error>(self)
            } else {
                r matches Err(Error::BackendUnavailable(m)) && m@
                    == "no llama.cpp server responded at "@ + base_url@
            },
    {
        if !self.caps.reachable {
            return Err(
                Error::BackendUnavailable(
                    String::from_str("no llama.cpp server responded at ").concat(base_url),
                ),
            );
        }
        Ok(self)
    }

    pub fn base_url(&self) -> (r: &str)
        ensures
            r@ == self.address(),
    {
        self.base_url.as_str()
    }

    /// The loaded model's name as reported by the server, where it is known.
    pub fn model_name(&self) -> (r: Option<&str>)
        ensures
            match r {
                Some(s) => self.model() == Some(s@),
                None => self.model() is None,
            },
    {
        match &self.model_name {
            Some(s) => Some(s.as_str()),
            None => None,
        }
    }

    /// The context window reported by the server, where it is known.
    pub fn n_ctx(&self) -> (r: Option<i64>)
        ensures
            r == self.window(),
    {
        self.n_ctx_hint
    }

    /// Where saved slots go if no place is named.
    pub fn save_dir(&self) -> (r: &str)
        ensures
            r@ == self.saves(),
    {
        self.save_dir.as_str()
    }

    /// The address of one of the server's routes.
    pub fn url(&self, path: &str) -> (r: String)
        ensures
            r@ == self.address() + path@,
    {
        String::from_str(self.base_url.as_str()).concat(path)
    }

    pub fn capabilities(&self) -> (r: CapabilitySet)
        ensures
            r == self.caps(),
    {
        self.caps
    }

    /// Takes in what a probe brought. What was known of the model and its window stays where
    /// this probe says nothing of it.
    pub fn probe(&mut self, replies: &ProbeReplies) -> (r: CapabilitySet)
        ensures
            r == replies.found(),
            final(self).caps() == r,
            final(self).model() == (if replies.reachable() && replies.model().len() > 0 {
                Some(replies.model())
            } else {
                old(self).model()
            }),
            final(self).window() == (if replies.reachable() && replies.window() is Some {
                replies.window()
            } else {
                old(self).window()
            }),
            final(self).address() == old(self).address(),
            final(self).saves() == old(self).saves(),
    {
        let mut caps = CapabilitySet::default();
        let slots: bool = match &replies.slots {
            Some(j) => j.as_array().is_some(),
            None => false,
        };
        if !(replies.health || replies.props.is_some() || slots) {
            self.caps = caps;
            return caps;
        }
        caps.reachable = true;
        caps.props = replies.props.is_some();
        caps.slots = slots;
        let arch = replies.model_name();
        if !arch.as_str().is_empty() {
            caps.partial_state_only = partial_state(arch.as_str());
            self.model_name = Some(arch);
        }
        let window = replies.window_size();
        if window.is_some() {
            self.n_ctx_hint = window;
        }
        let ring: bool = match replies.first() {
            Some(slot) => slot.list_at("checkpoints") || slot.list_at("ctx_checkpoints")
                || slot.list_at("context_checkpoints") || slot.list_at("ckpt"),
            None => false,
        };
        caps.checkpoint_ring = ring;
        caps.slot_save = ring;
        caps.slot_restore = ring;
        caps.slot_erase = slots;
        caps.tokenize = match &replies.tokenize {
            Some((ok, body)) => *ok && body.list_at("tokens"),
            None => false,
        };
        caps.metrics = replies.metrics;
        self.caps = caps;
        caps
    }
}

/// Whether a slot carries the wanted number.
pub open spec fn carries_id(slot: Tree, slot_id: Seq<char>) -> bool {
    &&& is_unsigned(slot_id)
    &&& number_of(unsigned_part(slot_id)) <= u64::MAX
    &&& slot.i64_at("id"@) matches Some(i) && i as u64 == number_of(unsigned_part(slot_id))
}

/// The first of the slots from `k` on that carries the wanted number.
pub open spec fn slot_from(slots: Seq<Tree>, slot_id: Seq<char>, k: int) -> Option<Tree>
    decreases slots.len() - k,
{
    if k >= slots.len() {
        None
    } else if carries_id(slots[k], slot_id) {
        Some(slots[k])
    } else {
        slot_from(slots, slot_id, k + 1)
    }
}

/// The slot meant: the one that carries the number, else the first one, since a server with
/// one slot may not number it.
pub open spec fn chosen_slot(slots: Seq<Tree>, slot_id: Seq<char>) -> Option<Tree> {
    match slot_from(slots, slot_id, 0) {
        Some(s) => Some(s),
        None => if slots.len() > 0 {
            Some(slots[0])
        } else {
            None
        },
    }
}

/// The position of a slot: as reported, else the prompt's tokens and those decoded since.
pub open spec fn slot_position(slot: Tree) -> int {
    match slot.i64_at("n_past"@) {
        Some(n) => n as int,
        None => match slot.i64_at("prompt_tokens"@) {
            Some(p) => p + (match slot.i64_at("n_decoded"@) {
                Some(d) => d as int,
                None => 0,
            }),
            None => 0,
        },
    }
}

/// Whether the position of a slot can be counted.
pub open spec fn position_fits(slot: Tree) -> bool {
    i64::MIN <= slot_position(slot) <= i64::MAX
}

/// Whether the position of the slot meant in a reply can be counted.
pub open spec fn chosen_position_fits(doc: Option<Tree>, slot_id: Seq<char>) -> bool {
    match doc {
        Some(Tree::List(slots)) => match chosen_slot(slots, slot_id) {
            Some(slot) => position_fits(slot),
            None => true,
        },
        _ => true,
    }
}

/// The place of the slot meant, where there are slots.
fn chosen_place(items: &Vec<Json>, slot_id: &str) -> (r: Option<usize>)
    ensures
        match r {
            Some(at) => at < items@.len() && chosen_slot(trees(items@), slot_id@) == Some(
                items@[at as int].tree(),
            ),
            None => chosen_slot(trees(items@), slot_id@) is None,
        },
{
    let ghost slots = trees(items@);
    proof {
        trees_in_order(items@);
    }
    if items.len() == 0 {
        return None;
    }
    let wanted = parse_unsigned(slot_id);
    for i in 0..items.len()
        invariant
            slots == trees(items@),
            slots.len() == items@.len(),
            forall|k: int| 0 <= k < items@.len() ==> #[trigger] slots[k] == items@[k].tree(),
            match wanted {
                Some(n) => is_unsigned(slot_id@) && n == number_of(unsigned_part(slot_id@)),
                None => !is_unsigned(slot_id@) || number_of(unsigned_part(slot_id@)) > u64::MAX,
            },
            slot_from(slots, slot_id@, 0) == slot_from(slots, slot_id@, i as int),
    {
        assert(slots[i as int] == items@[i as int].tree());
        let hit: bool = match wanted {
            Some(w) => match items[i].i64_at("id") {
                Some(id) => id as u64 == w,
                None => false,
            },
            None => false,
        };
        if hit {
            return Some(i);
        }
    }
    assert(slots[0] == items@[0].tree());
    Some(0)
}

impl LlamaCppBackend {
    /// Whether a slot's state says what the server reported of it.
    pub open spec fn reads(self, state: SlotState, slot: Tree, slot_id: Seq<char>) -> bool {
        &&& state.slot_id@ == slot_id
        &&& state.n_past == slot_position(slot)
        &&& state.n_ctx == (match either(slot.i64_at("n_ctx"@), self.window()) {
            Some(n) => n as int,
            None => 0,
        })
        &&& state.is_processing == (slot.get("is_processing"@) matches Some(t) && t.as_bool()
            == Some(true))
        &&& state.prompt_eval_ms == (match either(
            slot.get("prompt_eval_ms"@),
            slot.get("t_prompt_eval_ms"@),
        ) {
            Some(t) => t.as_i64(),
            None => None,
        })
        &&& exists|list: Seq<CheckpointRef>|
            #[trigger] stand_for(list, reported(slot)) && state.checkpoints@ == stably_sorted(list)
    }

    /// The state of a slot, from the answer to `GET /slots`.
    pub fn slot_state(&self, slot_id: &str, doc: Option<&Json>) -> (r: Result<SlotState, Error>)
        requires
            chosen_position_fits(
                match doc {
                    Some(j) => Some(j.tree()),
                    None => None,
                },
                slot_id@,
            ),
        ensures
            match doc {
                None => r matches Err(Error::BackendUnavailable(m)) && m@
                    == "GET /slots unavailable"@,
                Some(j) => match j.tree() {
                    Tree::List(slots) => match chosen_slot(slots, slot_id@) {
                        Some(slot) => r matches Ok(s) && self.reads(s, slot, slot_id@),
                        None => r matches Err(Error::NotFound(m)) && m@ == "slot "@ + slot_id@,
                    },
                    _ => r matches Err(Error::BackendUnavailable(m)) && m@
                        == "/slots did not return an array"@,
                },
            },
    {
        let doc: &Json = match doc {
            Some(j) => j,
            None => {
                return Err(Error::BackendUnavailable("GET /slots unavailable".to_owned()));
            },
        };
        let items: &Vec<Json> = match doc.as_array() {
            Some(items) => items,
            None => {
                return Err(Error::BackendUnavailable("/slots did not return an array".to_owned()));
            },
        };
        let slot: &Json = match chosen_place(items, slot_id) {
            Some(at) => &items[at],
            None => {
                return Err(Error::NotFound(String::from_str("slot ").concat(slot_id)));
            },
        };
        let n_ctx: i64 = match slot.i64_at("n_ctx") {
            Some(n) => n,
            None => match self.n_ctx_hint {
                Some(n) => n,
                None => 0,
            },
        };
        assert(position_fits(slot.tree()));
        let n_past: i64 = match slot.i64_at("n_past") {
            Some(n) => n,
            None => match slot.i64_at("prompt_tokens") {
                Some(p) => p + (match slot.i64_at("n_decoded") {
                    Some(d) => d,
                    None => 0,
                }),
                None => 0,
            },
        };
        let is_processing: bool = match slot.get("is_processing") {
            Some(j) => match j.as_bool() {
                Some(b) => b,
                None => false,
            },
            None => false,
        };
        let prompt_eval_ms: Option<i64> = match slot.get("prompt_eval_ms") {
            Some(j) => j.as_i64(),
            None => slot.i64_at("t_prompt_eval_ms"),
        };
        Ok(
            SlotState {
                slot_id: slot_id.to_owned(),
                n_past,
                n_ctx,
                is_processing,
                checkpoints: parse_checkpoints(slot),
                prompt_eval_ms,
            },
        )
    }
}

/// Whether the position of the slot meant in a reply can be counted.
pub fn countable_position(doc: &Json, slot_id: &str) -> (r: bool)
    ensures
        r == chosen_position_fits(Some(doc.tree()), slot_id@),
{
    let items: &Vec<Json> = match doc.as_array() {
        Some(items) => items,
        None => {
            return true;
        },
    };
    let slot: &Json = match chosen_place(items, slot_id) {
        Some(at) => &items[at],
        None => {
            return true;
        },
    };
    if slot.i64_at("n_past").is_some() {
        return true;
    }
    match (slot.i64_at("prompt_tokens"), slot.i64_at("n_decoded")) {
        (Some(p), Some(d)) => {
            let sum: i128 = p as i128 + d as i128;
            i64::MIN as i128 <= sum && sum <= i64::MAX as i128
        },
        _ => true,
    }
}

/// The names of the first `n` models in a list that have one.
pub open spec fn model_ids(items: Seq<Tree>, n: nat) -> Seq<Seq<char>>
    decreases n,
{
    if n == 0 {
        Seq::empty()
    } else {
        model_ids(items, (n - 1) as nat) + (match items[n - 1].text_at("id"@) {
            Some(id) => seq![id],
            None => Seq::empty(),
        })
    }
}

/// The names of the field that a payload goes under: builds differ, so each is tried in turn.
pub open spec fn payload_key_name(attempt: int) -> Option<Seq<char>> {
    if attempt == 0 {
        Some("filename"@)
    } else if attempt == 1 {
        Some("path"@)
    } else {
        None
    }
}

/// The name of the field to try at an attempt, until there is none left.
pub fn payload_key(attempt: usize) -> (r: Option<&'static str>)
    ensures
        match r {
            Some(k) => payload_key_name(attempt as int) == Some(k@),
            None => payload_key_name(attempt as int) is None,
        },
{
    if attempt == 0 {
        Some("filename")
    } else if attempt == 1 {
        Some("path")
    } else {
        None
    }
}

/// The file that a server says it saved to, else the one that was asked for.
pub open spec fn saved_file(body: Tree, asked: Seq<char>) -> Seq<char> {
    match either(body.get("filename"@), body.get("path"@)) {
        Some(Tree::Text(s)) => s,
        _ => asked,
    }
}

/// The size that a server says it saved.
pub open spec fn saved_size(body: Tree) -> Option<u64> {
    match either(body.get("size"@), body.get("n_bytes"@)) {
        Some(t) => t.as_u64(),
        None => None,
    }
}

impl LlamaCppBackend {
    /// The names of the models that the server offers, from the answer to `GET /v1/models`.
    pub fn models(&self, doc: Option<&Json>) -> (r: Result<Vec<String>, Error>)
        ensures
            match doc {
                None => r matches Err(Error::BackendUnavailable(m)) && m@
                    == "GET /v1/models unavailable"@,
                Some(j) => r matches Ok(names) && crate::text::texts(names@) == (match j.tree().get(
                    "data"@,
                ) {
                    Some(Tree::List(items)) => model_ids(items, items.len()),
                    _ => Seq::empty(),
                }),
            },
    {
        let doc: &Json = match doc {
            Some(j) => j,
            None => {
                return Err(Error::BackendUnavailable("GET /v1/models unavailable".to_owned()));
            },
        };
        let mut out: Vec<String> = Vec::new();
        assert(crate::text::texts(out@) =~= Seq::empty());
        match doc.get("data") {
            Some(data) => match data.as_array() {
                Some(items) => {
                    let ghost list = trees(items@);
                    proof {
                        trees_in_order(items@);
                    }
                    for i in 0..items.len()
                        invariant
                            list == trees(items@),
                            list.len() == items@.len(),
                            forall|k: int|
                                0 <= k < items@.len() ==> #[trigger] list[k] == items@[k].tree(),
                            crate::text::texts(out@) == model_ids(list, i as nat),
                    {
                        assert(list[i as int] == items@[i as int].tree());
                        let ghost before = crate::text::texts(out@);
                        match items[i].text_at("id") {
                            Some(id) => {
                                let name = id.to_owned();
                                out.push(name);
                                assert(crate::text::texts(out@) =~= before.push(name@));
                            },
                            None => {},
                        }
                        assert(crate::text::texts(out@) =~= model_ids(list, i as nat + 1));
                    }
                },
                None => {},
            },
            None => {},
        }
        Ok(out)
    }

    /// Whether a slot can be saved at all.
    pub fn check_save(&self) -> (r: Result<(), Error>)
        ensures
            if self.caps().reachable {
                r is Ok
            } else {
                r matches Err(Error::BackendUnavailable(m)) && m@ == "backend unreachable"@
            },
    {
        if !self.caps.reachable {
            return Err(Error::BackendUnavailable("backend unreachable".to_owned()));
        }
        Ok(())
    }

    /// A fresh name for a file to save a slot to.
    pub fn save_file_name(&self, slot_id: &str) -> (r: String)
        ensures
            exists|unique: Seq<char>|
                r@ == #[trigger] ("slot"@ + slot_id@ + "-"@ + unique + ".bin"@) && exists|
                    bytes: Seq<u8>,
                |
                    bytes.len() == 16 && bytes[6] / 16 == 7 && bytes[8] / 64 == 2 && unique
                        == crate::ids::hyphenated(#[trigger] crate::ids::hex_text(bytes)),
    {
        let unique = uuid_v7();
        let mut out = String::from_str("slot");
        out.append(slot_id);
        out.append("-");
        out.append(unique.as_str());
        out.append(".bin");
        assert(out@ == "slot"@ + slot_id@ + "-"@ + unique@ + ".bin"@);
        out
    }

    /// The file that a server says it saved to, and the size where it says one.
    pub fn save_reply(&self, body: &Json, asked: &str) -> (r: (String, Option<u64>))
        ensures
            r.0@ == saved_file(body.tree(), asked@),
            r.1 == saved_size(body.tree()),
    {
        let field = match body.get("filename") {
            Some(j) => Some(j),
            None => body.get("path"),
        };
        let file = match field {
            Some(j) => match j.as_str() {
                Some(s) => s.to_owned(),
                None => asked.to_owned(),
            },
            None => asked.to_owned(),
        };
        let size: Option<u64> = match body.get("size") {
            Some(j) => j.as_u64(),
            None => body.u64_at("n_bytes"),
        };
        (file, size)
    }

    /// What came of saving a slot, given the size on disk where the server named none.
    pub fn saved(
        &self,
        file: String,
        reported_size: Option<u64>,
        size_on_disk: Option<u64>,
        elapsed_ms: i64,
    ) -> (r: SnapshotOutcome)
        ensures
            r.snapshot_id@.len() == 37 && r.snapshot_id@.take(4) == "snap"@ && r.snapshot_id@[4]
                == '_',
            r.file_path == Some(file),
            r.size_bytes == either(reported_size, size_on_disk),
            r.elapsed_ms == elapsed_ms,
    {
        proof {
            reveal_strlit("snap");
            assert("snap"@.len() == 4);
        }
        SnapshotOutcome {
            snapshot_id: new_id("snap"),
            file_path: Some(file),
            size_bytes: match reported_size {
                Some(_) => reported_size,
                None => size_on_disk,
            },
            elapsed_ms,
        }
    }

    /// The error once every payload was refused.
    pub fn save_failed(&self, slot_id: &str, last_error: &str) -> (r: Error)
        ensures
            r matches Error::BackendUnavailable(m) && m@ == "POST /slots/"@ + slot_id@
                + "/save failed on this build: "@ + last_error@,
    {
        let mut m = String::from_str("POST /slots/");
        m.append(slot_id);
        m.append("/save failed on this build: ");
        m.append(last_error);
        Error::BackendUnavailable(m)
    }

    /// What came of restoring a slot from a file.
    pub fn restore_reply(&self, body: &Json, file: &str, elapsed_ms: i64) -> (r: RestoreOutcome)
        ensures
            r.restored,
            r.restore_time_ms == elapsed_ms,
            r.detail@ == (match body.tree().i64_at("n_past"@) {
                Some(n) => "restored "@ + signed_digits(n as int) + " tokens of KV state from "@
                    + file@,
                None => "restored KV state from "@ + file@,
            }),
    {
        let detail = match body.i64_at("n_past") {
            Some(n) => {
                let mut out = String::from_str("restored ");
                push_int(&mut out, n);
                out.append(" tokens of KV state from ");
                out.append(file);
                out
            },
            None => String::from_str("restored KV state from ").concat(file),
        };
        RestoreOutcome { restored: true, restore_time_ms: elapsed_ms, detail }
    }

    /// The error once every payload was refused.
    pub fn restore_failed(&self, slot_id: &str, last_error: &str) -> (r: Error)
        ensures
            r matches Error::BackendUnavailable(m) && m@ == "POST /slots/"@ + slot_id@
                + "/restore failed on this build: "@ + last_error@,
    {
        let mut m = String::from_str("POST /slots/");
        m.append(slot_id);
        m.append("/restore failed on this build: ");
        m.append(last_error);
        Error::BackendUnavailable(m)
    }

    /// What came of clearing a slot; `body` is the answer as text.
    pub fn erase_slot(&self, slot_id: &str, ok: bool, body: &str) -> (r: Result<(), Error>)
        ensures
            if ok {
                r is Ok
            } else {
                r matches Err(Error::BackendUnavailable(m)) && m@ == "POST /slots/"@ + slot_id@
                    + "/erase failed: "@ + body@
            },
    {
        if ok {
            return Ok(());
        }
        let mut m = String::from_str("POST /slots/");
        m.append(slot_id);
        m.append("/erase failed: ");
        m.append(body);
        Err(Error::BackendUnavailable(m))
    }

    /// How many tokens the server counted.
    pub fn tokenize(&self, ok: bool, body: &Json) -> (r: Result<usize, Error>)
        ensures
            if !ok {
                r matches Err(Error::BackendUnavailable(m)) && m@ == "POST /tokenize failed"@
            } else {
                match body.tree().get("tokens"@) {
                    Some(Tree::List(items)) => r matches Ok(n) && n == items.len(),
                    _ => r matches Err(Error::BackendUnavailable(m)) && m@
                        == "/tokenize returned no token array"@,
                }
            },
    {
        if !ok {
            return Err(Error::BackendUnavailable("POST /tokenize failed".to_owned()));
        }
        match body.get("tokens") {
            Some(j) => match j.as_array() {
                Some(items) => {
                    proof {
                        trees_in_order(items@);
                    }
                    return Ok(items.len());
                },
                None => {},
            },
            None => {},
        }
        Err(Error::BackendUnavailable("/tokenize returned no token array".to_owned()))
    }
}

/// The address to try: the one given, else the configured one, else the usual one.
pub fn server_address(given: Option<&str>, configured: Option<&str>) -> (r: String)
    ensures
        r@ == (match (given, configured) {
            (Some(u), _) => u@,
            (None, Some(u)) => u@,
            (None, None) => "http://127.0.0.1:8080"@,
        }),
{
    match given {
        Some(u) => u.to_owned(),
        None => match configured {
            Some(u) => u.to_owned(),
            None => "http://127.0.0.1:8080".to_owned(),
        },
    }
}

/// A model whose name holds one of the known hints restores part of its state only, and no
/// other does.
pub proof fn hints_tell_a_partial_state(arch: &str, r: bool)
    requires
        call_ensures(partial_state, (arch,), r),
    ensures
        contains_text(arch@, "swa"@) || contains_text(arch@, "sliding"@) ==> r,
        contains_text(arch@, "gemma3"@) || contains_text(arch@, "gemma-3"@) ==> r,
        contains_text(arch@, "recurrent"@) || contains_text(arch@, "mamba"@) ==> r,
        contains_text(arch@, "hybrid"@) || contains_text(arch@, "jamba"@) ==> r,
        contains_text(arch@, "qwen3next"@) || contains_text(arch@, "lfm2"@) ==> r,
        contains_text(arch@, "granite"@) ==> r,
        r ==> exists|i: int|
            0 <= i < partial_state_hints().len() && contains_text(
                arch@,
                #[trigger] partial_state_hints()[i],
            ),
        partial_state_hints().len() == 11,
{
    let hints = partial_state_hints();
    assert(hints[0] == "swa"@ && hints[1] == "sliding"@ && hints[2] == "gemma3"@);
    assert(hints[3] == "gemma-3"@ && hints[4] == "recurrent"@ && hints[5] == "mamba"@);
    assert(hints[6] == "hybrid"@ && hints[7] == "jamba"@ && hints[8] == "qwen3next"@);
    assert(hints[9] == "lfm2"@ && hints[10] == "granite"@);
}

/// Where the entries that count come from: rising places, each with its position.
proof fn entries_come_from(items: Seq<Tree>, n: nat)
    requires
        n <= items.len(),
    ensures
        entries_of_list(items, n).len() <= n,
        forall|k: int|
            0 <= k < entries_of_list(items, n).len() ==> {
                let e = #[trigger] entries_of_list(items, n)[k];
                &&& e.0 < n && e.1 > 0
                &&& listed_entry(items[e.0 as int]) == Some((e.1, e.2))
            },
        forall|j: int, k: int|
            0 <= j < k < entries_of_list(items, n).len() ==> (#[trigger] entries_of_list(
                items,
                n,
            )[j]).0 < (#[trigger] entries_of_list(items, n)[k]).0,
    decreases n,
{
    if n > 0 {
        entries_come_from(items, (n - 1) as nat);
        let before = entries_of_list(items, (n - 1) as nat);
        let after = entries_of_list(items, n);
        assert forall|k: int| 0 <= k < before.len() implies after[k] == before[k] by {}
        assert forall|k: int| 0 <= k < after.len() implies {
            let e = #[trigger] after[k];
            &&& e.0 < n && e.1 > 0
            &&& listed_entry(items[e.0 as int]) == Some((e.1, e.2))
        } by {
            if k < before.len() {
                assert(after[k] == before[k]);
            }
        }
    }
}

/// Every entry after the start is among those that count.
proof fn entries_are_kept(items: Seq<Tree>, n: nat, i: int) -> (k: int)
    requires
        0 <= i < n <= items.len(),
        listed_entry(items[i]) matches Some((p, size)) && p > 0,
    ensures
        0 <= k < entries_of_list(items, n).len(),
        entries_of_list(items, n)[k].0 == i,
        listed_entry(items[i]) == Some(
            (entries_of_list(items, n)[k].1, entries_of_list(items, n)[k].2),
        ),
    decreases n,
{
    let before = entries_of_list(items, (n - 1) as nat);
    if i == n - 1 {
        before.len() as int
    } else {
        let k = entries_are_kept(items, (n - 1) as nat, i);
        assert(entries_of_list(items, n)[k] == before[k]);
        k
    }
}

/// A slot that lists its checkpoints yields each of them that lies after the start: a bare
/// number is its position, and of an object the position is what `token_position` says. They
/// come by position, each carries the number of its place in the list, and none is made up or
/// comes twice.
pub proof fn listed_checkpoints_come_by_position(
    slot: &Json,
    items: Seq<Tree>,
    r: Vec<CheckpointRef>,
    i: int,
) -> (at: Seq<int>)
    requires
        call_ensures(parse_checkpoints, (slot,), r),
        slot.tree().get("checkpoints"@) == Some(Tree::List(items)),
        0 <= i < items.len() <= usize::MAX,
    ensures
        at.len() == r@.len() && at.no_duplicates(),
        forall|m: int|
            0 <= m < r@.len() ==> 0 <= #[trigger] at[m] < items.len() && r@[m].id@ == "ring"@
                + digits(at[m] as nat) && r@[m].token_position > 0 && r@[m].kind is Internal,
        forall|m: int|
            0 <= m < r@.len() ==> (items[#[trigger] at[m]] is Number ==> items[at[m]].as_i64()
                == Some(r@[m].token_position)),
        forall|m: int|
            0 <= m < r@.len() ==> (items[#[trigger] at[m]].i64_at("token_position"@) matches Some(p)
                ==> r@[m].token_position == p),
        forall|m: int, n: int|
            0 <= m < n < r@.len() ==> (#[trigger] r@[m]).token_position <= (
            #[trigger] r@[n]).token_position,
        (items[i].as_i64() matches Some(p) && p > 0) ==> at.contains(i),
        (items[i].i64_at("token_position"@) matches Some(p) && p > 0) ==> at.contains(i),
{
    let entries = reported(slot.tree());
    let list = choose|list: Seq<CheckpointRef>|
        #[trigger] stand_for(list, reported(slot.tree())) && r@ == stably_sorted(list);
    assert(stand_for(list, entries) && r@ == stably_sorted(list));
    entries_come_from(items, items.len());
    assert(r.len() == r@.len());
    let order = crate::order::sorting_rearranges(list);
    crate::order::a_stable_order_sorts(list, order);
    let at = Seq::new(r@.len(), |m: int| entries[order[m] as int].0 as int);
    assert forall|m: int| 0 <= m < r@.len() implies {
        let e = entries[order[m] as int];
        &&& stands_for(#[trigger] r@[m], e)
        &&& at[m] == e.0 && 0 <= at[m] < items.len() && e.1 > 0
        &&& listed_entry(items[at[m]]) == Some((e.1, e.2))
    } by {
        assert(r@[m] == list[order[m] as int]);
        assert(stands_for(list[order[m] as int], entries[order[m] as int]));
    }
    assert forall|m: int| 0 <= m < r@.len() implies 0 <= #[trigger] at[m] < items.len() && r@[m].id@
        == "ring"@ + digits(at[m] as nat) && r@[m].token_position > 0 && r@[m].kind is Internal && (
    items[at[m]] is Number ==> items[at[m]].as_i64() == Some(r@[m].token_position)) && (
    items[at[m]].i64_at("token_position"@) matches Some(p) ==> r@[m].token_position == p) by {
        assert(stands_for(r@[m], entries[order[m] as int]));
    }
    assert forall|m: int, n: int| 0 <= m < n < r@.len() implies (#[trigger] r@[m]).token_position
        <= (#[trigger] r@[n]).token_position by {
        assert(!crate::order::Ranked::precedes(&r@[n], &r@[m]));
    }
    assert forall|m: int, n: int| 0 <= m < n < at.len() implies at[m] != at[n] by {
        assert(order[m] != order[n]);
        assert(entries[order[m] as int].0 != entries[order[n] as int].0);
    }
    if listed_entry(items[i]) matches Some((p, size)) && p > 0 {
        let k = entries_are_kept(items, items.len(), i);
        let m = crate::order::every_position_occurs(order, list.len(), k as usize);
        assert(at[m] == i);
    }
    at
}

/// Looking from the start finds the first slot that carries the number.
proof fn slot_is_first(slots: Seq<Tree>, slot_id: Seq<char>, k: int, from: int)
    requires
        0 <= from <= k <= slots.len(),
        forall|j: int| 0 <= j < k ==> !carries_id(#[trigger] slots[j], slot_id),
        k < slots.len() ==> carries_id(slots[k], slot_id),
    ensures
        k < slots.len() ==> slot_from(slots, slot_id, from) == Some(slots[k]),
        k == slots.len() ==> slot_from(slots, slot_id, from) is None,
    decreases k - from,
{
    if from < k {
        assert(!carries_id(slots[from], slot_id));
        slot_is_first(slots, slot_id, k, from + 1);
    }
}

/// The state of a slot is read from the first listed slot that carries its number, and from the
/// first of all where none does: its position is `n_past`, or else the prompt's tokens and
/// those decoded since; its window is its own `n_ctx`, or else the known one. Without a list,
/// and with an empty one, there is no state.
pub proof fn the_slot_with_the_number_is_read(
    backend: &LlamaCppBackend,
    slot_id: &str,
    doc: &Json,
    slots: Seq<Tree>,
    k: int,
    r: Result<SlotState, Error>,
)
    requires
        call_ensures(LlamaCppBackend::slot_state, (backend, slot_id, Some(doc)), r),
        doc.tree() == Tree::List(slots),
        is_unsigned(slot_id@) && number_of(unsigned_part(slot_id@)) <= i64::MAX,
        forall|j: int|
            0 <= j < slots.len() ==> ((#[trigger] slots[j]).i64_at("id"@) matches Some(id) ==> id
                >= 0),
        0 <= k < slots.len(),
        forall|j: int|
            0 <= j < k ==> (#[trigger] slots[j]).i64_at("id"@) != Some(
                number_of(unsigned_part(slot_id@)) as i64,
            ),
        slots[k].i64_at("id"@) == Some(number_of(unsigned_part(slot_id@)) as i64) || (k == 0
            && forall|j: int|
            0 <= j < slots.len() ==> (#[trigger] slots[j]).i64_at("id"@) != Some(
                number_of(unsigned_part(slot_id@)) as i64,
            )),
    ensures
        r is Ok,
        r->Ok_0.slot_id@ == slot_id@,
        slots[k].i64_at("n_past"@) matches Some(n) ==> r->Ok_0.n_past == n,
        slots[k].i64_at("n_past"@) is None ==> (slots[k].i64_at("prompt_tokens"@) matches Some(p)
            ==> (slots[k].i64_at("n_decoded"@) matches Some(d) ==> r->Ok_0.n_past == p + d)),
        slots[k].i64_at("n_past"@) is None && slots[k].i64_at("n_decoded"@) is None ==> (
        slots[k].i64_at("prompt_tokens"@) matches Some(p) ==> r->Ok_0.n_past == p),
        slots[k].i64_at("n_ctx"@) matches Some(n) ==> r->Ok_0.n_ctx == n,
        slots[k].i64_at("n_ctx"@) is None ==> (backend.window() matches Some(n) ==> r->Ok_0.n_ctx
            == n),
{
    let wanted = number_of(unsigned_part(slot_id@));
    assert forall|j: int| 0 <= j < slots.len() implies (carries_id(#[trigger] slots[j], slot_id@)
        <==> slots[j].i64_at("id"@) == Some(wanted as i64)) by {}
    if slots[k].i64_at("id"@) == Some(wanted as i64) {
        slot_is_first(slots, slot_id@, k, 0);
    } else {
        slot_is_first(slots, slot_id@, slots.len() as int, 0);
    }
}

/// The models offered are those of the list that have an `id`, in its order: the places are
/// returned.
pub proof fn models_are_named_in_order(
    backend: &LlamaCppBackend,
    doc: &Json,
    items: Seq<Tree>,
    r: Result<Vec<String>, Error>,
) -> (at: Seq<int>)
    requires
        call_ensures(LlamaCppBackend::models, (backend, Some(doc)), r),
        doc.tree().get("data"@) == Some(Tree::List(items)),
    ensures
        r matches Ok(names) && names@.len() == at.len(),
        forall|m: int|
            0 <= m < at.len() ==> 0 <= #[trigger] at[m] < items.len() && items[at[m]].text_at(
                "id"@,
            ) == Some(r->Ok_0@[m]@),
        forall|m: int, n: int| 0 <= m < n < at.len() ==> #[trigger] at[m] < #[trigger] at[n],
        forall|i: int|
            0 <= i < items.len() && (#[trigger] items[i]).text_at("id"@) is Some ==> at.contains(i),
{
    let at = ids_come_from(items, items.len());
    let names = r->Ok_0@;
    assert(crate::text::texts(names).len() == names.len());
    assert forall|m: int| 0 <= m < at.len() implies 0 <= #[trigger] at[m] < items.len()
        && items[at[m]].text_at("id"@) == Some(names[m]@) by {
        assert(crate::text::texts(names)[m] == names[m]@);
    }
    at
}

proof fn ids_come_from(items: Seq<Tree>, n: nat) -> (at: Seq<int>)
    requires
        n <= items.len(),
    ensures
        at.len() == model_ids(items, n).len(),
        forall|m: int|
            0 <= m < at.len() ==> 0 <= #[trigger] at[m] < n && items[at[m]].text_at("id"@) == Some(
                model_ids(items, n)[m],
            ),
        forall|m: int, k: int| 0 <= m < k < at.len() ==> #[trigger] at[m] < #[trigger] at[k],
        forall|i: int|
            0 <= i < n && (#[trigger] items[i]).text_at("id"@) is Some ==> at.contains(i),
    decreases n,
{
    if n == 0 {
        Seq::empty()
    } else {
        let before = ids_come_from(items, (n - 1) as nat);
        if items[n - 1].text_at("id"@) is Some {
            let at = before.push(n - 1);
            assert forall|i: int|
                0 <= i < n && (#[trigger] items[i]).text_at("id"@) is Some implies at.contains(
                i,
            ) by {
                if i == n - 1 {
                    assert(at[at.len() - 1] == i);
                } else {
                    let m = choose|m: int| 0 <= m < before.len() && before[m] == i;
                    assert(at[m] == i);
                }
            }
            assert forall|m: int| 0 <= m < at.len() implies 0 <= #[trigger] at[m] < n
                && items[at[m]].text_at("id"@) == Some(model_ids(items, n)[m]) by {
                if m < before.len() {
                    assert(at[m] == before[m]);
                }
            }
            at
        } else {
            before
        }
    }
}

/// A server that answers nothing can do nothing; one that lists its slots can be asked for
/// them; and one that reports a ring of checkpoints can save and restore.
pub proof fn a_probe_tells_what_a_server_can_do(
    backend: &mut LlamaCppBackend,
    replies: &ProbeReplies,
    r: CapabilitySet,
)
    requires
        call_ensures(LlamaCppBackend::probe, (backend, replies), r),
    ensures
        final(backend).caps() == r,
        !replies.health && replies.props is None && replies.slots is None ==> !r.reachable,
        replies.health || replies.props is Some ==> r.reachable,
        !r.reachable ==> !r.slots && !r.slot_save && !r.slot_restore && !r.tokenize && !r.metrics,
        r.slots ==> (replies.slots matches Some(j) && j.tree() is List),
        (replies.slots matches Some(j) && j.tree() is List) ==> r.reachable && r.slots
            && r.slot_erase,
        r.slot_save == r.checkpoint_ring && r.slot_restore == r.checkpoint_ring,
        r.checkpoint_ring ==> r.slots,
        r.reachable ==> r.metrics == replies.metrics,
        !r.reachable ==> final(backend).window() == old(backend).window(),
{
}

} // verus!
