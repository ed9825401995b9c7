//! The anchor set: what was pinned, shown verbatim in every prompt and exempt from eviction.

use crate::error::Error;
use crate::ids::{new_id, now_rfc3339};
use crate::memory::episodic::{copy_opt, Role};
use crate::order::{stable_sort, stably_sorted, Ranked};
use crate::text::{
    ascii_lower_chars, blank_trims_to_nothing, byte_count, bytes_of, chars_of, comes_before,
    contains_text, digits, find_text, first_match, is_blank, lowered_ascii, push_nat, same,
    stands_at, string_of, text_before, text_order, trim, trimmed,
};
use crate::tokens::TokenCounter;
use vstd::prelude::*;
use vstd::string::*;

verus! {

/// Why something was pinned.
#[derive(Debug, Clone, Copy, PartialEq, Eq, Structural)]
pub enum AnchorKind {
    /// The user said that the agent was wrong about something.
    UserCorrection,
    /// A rule of safety or policy.
    SafetyConstraint,
    /// A requirement or an acceptance criterion.
    TaskContract,
}

impl AnchorKind {
    /// The stored name.
    pub open spec fn name(self) -> Seq<char> {
        match self {
            AnchorKind::UserCorrection => "user_correction"@,
            AnchorKind::SafetyConstraint => "safety_constraint"@,
            AnchorKind::TaskContract => "task_contract"@,
        }
    }

    /// The place among the anchors: safety first, then corrections, then contracts.
    pub open spec fn place(self) -> u8 {
        match self {
            AnchorKind::SafetyConstraint => 0,
            AnchorKind::UserCorrection => 1,
            AnchorKind::TaskContract => 2,
        }
    }

    /// The label shown in the prompt.
    pub open spec fn title(self) -> Seq<char> {
        match self {
            AnchorKind::SafetyConstraint => "SAFETY CONSTRAINT"@,
            AnchorKind::UserCorrection => "USER CORRECTION"@,
            AnchorKind::TaskContract => "TASK CONTRACT"@,
        }
    }

    /// The stored name.
    pub fn as_str(self) -> (r: &'static str)
        ensures
            r@ == self.name(),
    {
        match self {
            AnchorKind::UserCorrection => "user_correction",
            AnchorKind::SafetyConstraint => "safety_constraint",
            AnchorKind::TaskContract => "task_contract",
        }
    }

    /// Reads a stored name; any other text is invalid.
    pub fn parse(s: &str) -> (r: Result<Self, Error>)
        ensures
            match r {
                Ok(v) => v.name() == s@,
                Err(e) => {
                    &&& forall|v: AnchorKind| #[trigger] v.name() != s@
                    &&& e matches Error::Invalid(m) && m@ == "unknown anchor kind: "@ + s@
                },
            },
    {
        if same(s, "user_correction") {
            Ok(AnchorKind::UserCorrection)
        } else if same(s, "safety_constraint") {
            Ok(AnchorKind::SafetyConstraint)
        } else if same(s, "task_contract") {
            Ok(AnchorKind::TaskContract)
        } else {
            assert forall|v: AnchorKind| #[trigger] v.name() != s@ by {
                match v {
                    AnchorKind::UserCorrection => {},
                    AnchorKind::SafetyConstraint => {},
                    AnchorKind::TaskContract => {},
                }
            }
            Err(Error::Invalid(String::from_str("unknown anchor kind: ").concat(s)))
        }
    }

    /// The place among the anchors.
    pub fn priority(self) -> (r: u8)
        ensures
            r == self.place(),
    {
        match self {
            AnchorKind::SafetyConstraint => 0,
            AnchorKind::UserCorrection => 1,
            AnchorKind::TaskContract => 2,
        }
    }

    /// The label shown in the prompt.
    pub fn label(self) -> (r: &'static str)
        ensures
            r@ == self.title(),
    {
        match self {
            AnchorKind::SafetyConstraint => "SAFETY CONSTRAINT",
            AnchorKind::UserCorrection => "USER CORRECTION",
            AnchorKind::TaskContract => "TASK CONTRACT",
        }
    }
}

/// No two kinds share a stored name, so a stored kind reads back as itself.
pub proof fn anchor_kind_names_are_distinct(a: AnchorKind, b: AnchorKind)
    requires
        a.name() == b.name(),
    ensures
        a == b,
{
    reveal_strlit("user_correction");
    reveal_strlit("safety_constraint");
    reveal_strlit("task_contract");
    assert("user_correction"@.len() == 15 && "safety_constraint"@.len() == 17
        && "task_contract"@.len() == 13);
}

/// A pinned entry.
#[derive(Debug)]
pub struct AnchorRow {
    pub anchor_id: String,
    pub content: String,
    pub kind: AnchorKind,
    pub session_id: Option<String>,
    pub project_id: Option<String>,
    pub pinned_by: String,
    pub created_at: String,
}

impl Clone for AnchorRow {
    fn clone(&self) -> (r: Self)
        ensures
            r == *self,
    {
        AnchorRow {
            anchor_id: self.anchor_id.clone(),
            content: self.content.clone(),
            kind: self.kind,
            session_id: copy_opt(&self.session_id),
            project_id: copy_opt(&self.project_id),
            pinned_by: self.pinned_by.clone(),
            created_at: self.created_at.clone(),
        }
    }
}

impl Ranked for AnchorRow {
    /// By kind, then by time of pinning, then by id.
    open spec fn precedes(&self, other: &Self) -> bool {
        if self.kind.place() != other.kind.place() {
            self.kind.place() < other.kind.place()
        } else if self.created_at@ != other.created_at@ {
            text_before(self.created_at@, other.created_at@)
        } else {
            text_before(self.anchor_id@, other.anchor_id@)
        }
    }

    fn before(&self, other: &Self) -> (r: bool) {
        if self.kind.priority() != other.kind.priority() {
            self.kind.priority() < other.kind.priority()
        } else if !same(self.created_at.as_str(), other.created_at.as_str()) {
            comes_before(self.created_at.as_str(), other.created_at.as_str())
        } else {
            comes_before(self.anchor_id.as_str(), other.anchor_id.as_str())
        }
    }

    proof fn ordering(a: Self, b: Self, c: Self) {
        text_order(a.created_at@, b.created_at@, c.created_at@);
        text_order(b.created_at@, c.created_at@, a.created_at@);
        text_order(c.created_at@, a.created_at@, b.created_at@);
        text_order(a.created_at@, c.created_at@, b.created_at@);
        text_order(c.created_at@, b.created_at@, a.created_at@);
        text_order(b.created_at@, a.created_at@, c.created_at@);
        text_order(a.anchor_id@, b.anchor_id@, c.anchor_id@);
        text_order(b.anchor_id@, c.anchor_id@, a.anchor_id@);
        text_order(c.anchor_id@, a.anchor_id@, b.anchor_id@);
        text_order(a.anchor_id@, c.anchor_id@, b.anchor_id@);
        text_order(c.anchor_id@, b.anchor_id@, a.anchor_id@);
        text_order(b.anchor_id@, a.anchor_id@, c.anchor_id@);
    }
}

impl AnchorRow {
    /// The line the anchor adds to every prompt.
    pub open spec fn shown(self) -> Seq<char> {
        "["@ + self.kind.title() + "] "@ + self.content@
    }

    /// The line the anchor adds to every prompt.
    pub fn render(&self) -> (r: String)
        ensures
            r@ == self.shown(),
    {
        let mut out = String::from_str("[");
        out.append(self.kind.label());
        out.append("] ");
        out.append(self.content.as_str());
        out
    }

    /// The tokens of that line.
    pub fn token_cost(&self, counter: &TokenCounter) -> (r: usize)
        ensures
            r == counter.of(self.shown()),
    {
        counter.count(self.render().as_str()).get()
    }
}

/// A request to pin.
#[derive(Debug, Clone)]
pub struct PinRequest {
    pub content: String,
    pub kind: AnchorKind,
    pub session_id: Option<String>,
    pub project_id: Option<String>,
    /// Who asks: `user`, `agent`, or `auto:` and a rule.
    pub pinned_by: String,
}

impl PinRequest {
    /// A request by the user, for every session.
    pub fn new(kind: AnchorKind, content: &str) -> (r: Self)
        ensures
            r.kind == kind,
            r.content@ == content@,
            r.session_id is None,
            r.project_id is None,
            r.pinned_by@ == "user"@,
    {
        PinRequest {
            content: content.to_owned(),
            kind,
            session_id: None,
            project_id: None,
            pinned_by: "user".to_owned(),
        }
    }

    /// Limits the request to a session.
    pub fn in_session(self, session: &str) -> (r: Self)
        ensures
            r.session_id matches Some(s) && s@ == session@,
            r == (PinRequest { session_id: r.session_id, ..self }),
    {
        PinRequest { session_id: Some(session.to_owned()), ..self }
    }

    /// Says who asks.
    pub fn by_whom(self, who: &str) -> (r: Self)
        ensures
            r.pinned_by@ == who@,
            r == (PinRequest { pinned_by: r.pinned_by, ..self }),
    {
        PinRequest { pinned_by: who.to_owned(), ..self }
    }

    /// Turns the request into a row with a fresh id. Blank content is refused: such an anchor
    /// would protect nothing.
    pub fn into_row(self) -> (r: Result<AnchorRow, Error>)
        ensures
            match r {
                Ok(row) => {
                    &&& !is_blank(self.content@)
                    &&& row.content@ == trimmed(self.content@)
                    &&& row.content@.len() > 0
                    &&& row.kind == self.kind
                    &&& row.session_id == self.session_id
                    &&& row.project_id == self.project_id
                    &&& row.pinned_by == self.pinned_by
                    &&& row.anchor_id@.len() == 36
                    &&& row.anchor_id@.take(3) == "anc"@ && row.anchor_id@[3] == '_'
                    &&& row.created_at@.len() >= 24 && row.created_at@.last() == 'Z'
                },
                Err(e) => {
                    &&& is_blank(self.content@)
                    &&& e matches Error::Invalid(m) && m@ == "an anchor must have content"@
                },
            },
    {
        let content = trim(self.content.as_str());
        proof {
            blank_trims_to_nothing(self.content@);
            reveal_strlit("anc");
            assert("anc"@.len() == 3);
        }
        if content.as_str().is_empty() {
            return Err(Error::Invalid("an anchor must have content".to_owned()));
        }
        Ok(
            AnchorRow {
                anchor_id: new_id("anc"),
                content,
                kind: self.kind,
                session_id: self.session_id,
                project_id: self.project_id,
                pinned_by: self.pinned_by,
                created_at: now_rfc3339(),
            },
        )
    }
}

/// The lines of a list of anchors.
pub open spec fn anchor_lines(anchors: Seq<AnchorRow>) -> Seq<char>
    decreases anchors.len(),
{
    if anchors.len() == 0 {
        Seq::empty()
    } else {
        anchor_lines(anchors.drop_last()) + anchors.last().shown().push('\n')
    }
}

/// The block that shows the anchors in the prompt.
pub open spec fn anchor_block(anchors: Seq<AnchorRow>) -> Seq<char> {
    "=== PINNED ANCHORS (verbatim, exempt from all compaction) ===\nThese were pinned by the user or the agent and must be honoured for the entire session.\n"@
        + anchor_lines(stably_sorted(anchors))
}

/// The text of the error for anchors that do not fit.
pub open spec fn overflow_text(used: nat, budget: nat) -> Seq<char> {
    "the Anchor Set alone needs "@ + digits(used)
        + " tokens but the configured budget for anchors is "@ + digits(budget)
        + ". Sakur4 will not silently drop a pinned constraint; raise the budget, unpin an anchor, or shorten the longest one."@
}

/// Renders the anchors into the block that precedes everything else. Where they do not fit
/// the budget this is an error, never a shorter block.
pub fn render_anchor_block(anchors: &[AnchorRow], counter: &TokenCounter, budget_tokens: usize) -> (r:
    Result<(String, usize), Error>)
    ensures
        if anchors@.len() == 0 {
            r matches Ok((body, used)) && body@.len() == 0 && used == 0
        } else {
            let needed = counter.of(anchor_block(anchors@));
            match r {
                Ok((body, used)) => needed <= budget_tokens && body@ == anchor_block(anchors@)
                    && used == needed,
                Err(e) => {
                    &&& needed > budget_tokens
                    &&& e matches Error::BudgetOverflow(m) && m@ == overflow_text(
                        needed,
                        budget_tokens as nat,
                    )
                },
            }
        },
{
    if anchors.len() == 0 {
        return Ok((String::new(), 0));
    }
    let mut copies: Vec<AnchorRow> = Vec::new();
    for i in 0..anchors.len()
        invariant
            copies@ == anchors@.take(i as int),
    {
        copies.push(anchors[i].clone());
    }
    assert(anchors@.take(anchors@.len() as int) =~= anchors@);
    let ordered = stable_sort(copies);
    let mut body = String::from_str(
        "=== PINNED ANCHORS (verbatim, exempt from all compaction) ===\nThese were pinned by the user or the agent and must be honoured for the entire session.\n",
    );
    let ghost head = body@;
    assert(head + anchor_lines(ordered@.take(0)) =~= head);
    for i in 0..ordered.len()
        invariant
            body@ == head + anchor_lines(ordered@.take(i as int)),
    {
        assert(ordered@.take(i as int + 1).drop_last() =~= ordered@.take(i as int));
        let line = ordered[i].render();
        body.append(line.as_str());
        body.push('\n');
        assert(body@ =~= head + anchor_lines(ordered@.take(i as int + 1)));
    }
    assert(ordered@.take(ordered@.len() as int) =~= ordered@);
    let used: usize = counter.count(body.as_str()).get();
    if used > budget_tokens {
        let mut m = String::from_str("the Anchor Set alone needs ");
        push_nat(&mut m, used as u64);
        m.append(" tokens but the configured budget for anchors is ");
        push_nat(&mut m, budget_tokens as u64);
        m.append(
            ". Sakur4 will not silently drop a pinned constraint; raise the budget, unpin an anchor, or shorten the longest one.",
        );
        return Err(Error::BudgetOverflow(m));
    }
    Ok((body, used))
}

/// Every anchor of a list has its line among the lines.
proof fn lines_hold_every_anchor(anchors: Seq<AnchorRow>, i: int)
    requires
        0 <= i < anchors.len(),
    ensures
        contains_text(anchor_lines(anchors), anchors[i].shown().push('\n')),
    decreases anchors.len(),
{
    let before = anchor_lines(anchors.drop_last());
    let line = anchors[i].shown().push('\n');
    let all = anchor_lines(anchors);
    if i == anchors.len() - 1 {
        let start = before.len() as int;
        assert(all.subrange(start, start + line.len()) =~= line);
        assert(stands_at(all, line, start));
    } else {
        lines_hold_every_anchor(anchors.drop_last(), i);
        let k = choose|k: int| stands_at(before, line, k);
        assert(all.subrange(k, k + line.len()) =~= before.subrange(k, k + line.len()));
        assert(stands_at(all, line, k));
    }
}

/// Whatever was pinned stands verbatim in the block, behind its kind and on a line of its own,
/// however many anchors there are.
pub proof fn every_anchor_stands_verbatim(anchors: Seq<AnchorRow>, a: AnchorRow)
    requires
        anchors.len() <= usize::MAX,
        anchors.contains(a),
    ensures
        contains_text(
            anchor_block(anchors),
            ("["@ + a.kind.title() + "] "@ + a.content@).push('\n'),
        ),
        contains_text(anchor_block(anchors), a.content@),
{
    let sorted = stably_sorted(anchors);
    let order = crate::order::sorting_rearranges(anchors);
    crate::order::a_stable_order_sorts(anchors, order);
    assert(sorted.contains(a));
    let i = choose|i: int| 0 <= i < sorted.len() && sorted[i] == a;
    lines_hold_every_anchor(sorted, i);
    let lines = anchor_lines(sorted);
    let block = anchor_block(anchors);
    let head = block.len() - lines.len();
    let line = a.shown().push('\n');
    let k = choose|k: int| stands_at(lines, line, k);
    assert(block.subrange(head + k, head + k + line.len()) =~= lines.subrange(k, k + line.len()));
    assert(stands_at(block, line, head + k));
    let label = ("["@ + a.kind.title() + "] "@).len() as int;
    let at = head + k + label;
    assert(line.subrange(label, label + a.content@.len()) =~= a.content@);
    assert(block.subrange(at, at + a.content@.len()) =~= block.subrange(
        head + k,
        head + k + line.len(),
    ).subrange(label, label + a.content@.len()));
    assert(stands_at(block, a.content@, at));
}

/// Whether no two anchors of a list have one id.
pub open spec fn ids_differ(anchors: Seq<AnchorRow>) -> bool {
    forall|i: int, j: int|
        #![trigger anchors[i], anchors[j]]
        0 <= i < j < anchors.len() ==> anchors[i].anchor_id@ != anchors[j].anchor_id@
}

/// Anchors with ids of their own are sorted strictly.
proof fn anchors_are_sorted_strictly(anchors: Seq<AnchorRow>)
    requires
        anchors.len() <= usize::MAX,
        ids_differ(anchors),
    ensures
        forall|i: int, j: int|
            #![trigger stably_sorted(anchors)[i], stably_sorted(anchors)[j]]
            0 <= i < j < stably_sorted(anchors).len() ==> stably_sorted(anchors)[i].precedes(
                &stably_sorted(anchors)[j],
            ),
        forall|x: AnchorRow| #[trigger] stably_sorted(anchors).contains(x) <==> anchors.contains(x),
{
    let order = crate::order::sorting_rearranges(anchors);
    crate::order::a_stable_order_sorts(anchors, order);
    let sorted = stably_sorted(anchors);
    assert forall|i: int, j: int|
        #![trigger sorted[i], sorted[j]]
        0 <= i < j < sorted.len() implies sorted[i].precedes(&sorted[j]) by {
        let p = order[i] as int;
        let q = order[j] as int;
        let a = anchors[p];
        let b = anchors[q];
        assert(sorted[i] == a && sorted[j] == b && p != q);
        assert(!b.precedes(&a));
        assert(a.anchor_id@ != b.anchor_id@) by {
            if p < q {
                assert(anchors[p].anchor_id@ != anchors[q].anchor_id@);
            } else {
                assert(anchors[q].anchor_id@ != anchors[p].anchor_id@);
            }
        }
        text_order(a.created_at@, b.created_at@, a.created_at@);
        text_order(a.anchor_id@, b.anchor_id@, a.anchor_id@);
    }
    assert forall|x: AnchorRow| #[trigger] sorted.contains(x) <==> anchors.contains(x) by {
        assert(anchors.contains(x) <==> crate::order::arranged(anchors, order).contains(x));
    }
}

/// The block does not depend on the order in which the store lists the anchors.
pub proof fn the_block_does_not_depend_on_the_order(a: Seq<AnchorRow>, b: Seq<AnchorRow>)
    requires
        a.len() <= usize::MAX,
        b.len() <= usize::MAX,
        ids_differ(a),
        ids_differ(b),
        forall|x: AnchorRow| #[trigger] a.contains(x) <==> b.contains(x),
    ensures
        anchor_block(a) == anchor_block(b),
{
    anchors_are_sorted_strictly(a);
    anchors_are_sorted_strictly(b);
    let x = stably_sorted(a);
    let y = stably_sorted(b);
    assert forall|r: AnchorRow| x.contains(r) <==> #[trigger] y.contains(r) by {
        assert(x.contains(r) <==> a.contains(r));
    }
    crate::order::strict_sortings_agree(x, y);
}

/// A phrase that gives away a constraint, and the rule it belongs to.
pub struct Needle {
    pub rule: Seq<char>,
    pub kind: AnchorKind,
    pub words: Seq<char>,
}

/// The phrases, in the order in which they are tried.
pub open spec fn needles() -> Seq<Needle> {
    seq![
        Needle { rule: "explicit_never"@, kind: AnchorKind::SafetyConstraint, words: "never "@ },
        Needle { rule: "explicit_never"@, kind: AnchorKind::SafetyConstraint, words: "do not ever"@ },
        Needle { rule: "explicit_never"@, kind: AnchorKind::SafetyConstraint, words: "don't ever"@ },
        Needle { rule: "explicit_never"@, kind: AnchorKind::SafetyConstraint, words: "under no circumstances"@ },
        Needle { rule: "explicit_never"@, kind: AnchorKind::SafetyConstraint, words: "at no point"@ },
        Needle { rule: "prohibition"@, kind: AnchorKind::SafetyConstraint, words: "must not "@ },
        Needle { rule: "prohibition"@, kind: AnchorKind::SafetyConstraint, words: "may not "@ },
        Needle { rule: "prohibition"@, kind: AnchorKind::SafetyConstraint, words: "should not "@ },
        Needle { rule: "prohibition"@, kind: AnchorKind::SafetyConstraint, words: "cannot "@ },
        Needle { rule: "prohibition"@, kind: AnchorKind::SafetyConstraint, words: "forbidden"@ },
        Needle { rule: "prohibition"@, kind: AnchorKind::SafetyConstraint, words: "prohibited"@ },
        Needle { rule: "prohibition"@, kind: AnchorKind::SafetyConstraint, words: "not allowed to"@ },
        Needle { rule: "secrets_policy"@, kind: AnchorKind::SafetyConstraint, words: "do not commit"@ },
        Needle { rule: "secrets_policy"@, kind: AnchorKind::SafetyConstraint, words: "don't commit"@ },
        Needle { rule: "secrets_policy"@, kind: AnchorKind::SafetyConstraint, words: "no secrets"@ },
        Needle { rule: "secrets_policy"@, kind: AnchorKind::SafetyConstraint, words: "never push"@ },
        Needle { rule: "secrets_policy"@, kind: AnchorKind::SafetyConstraint, words: "do not push"@ },
        Needle { rule: "secrets_policy"@, kind: AnchorKind::SafetyConstraint, words: "don't push"@ },
        Needle { rule: "secrets_policy"@, kind: AnchorKind::SafetyConstraint, words: "not to production"@ },
        Needle { rule: "secrets_policy"@, kind: AnchorKind::SafetyConstraint, words: "without asking"@ },
        Needle { rule: "correction"@, kind: AnchorKind::UserCorrection, words: "that's wrong"@ },
        Needle { rule: "correction"@, kind: AnchorKind::UserCorrection, words: "thats wrong"@ },
        Needle { rule: "correction"@, kind: AnchorKind::UserCorrection, words: "that is wrong"@ },
        Needle { rule: "correction"@, kind: AnchorKind::UserCorrection, words: "you are wrong"@ },
        Needle { rule: "correction"@, kind: AnchorKind::UserCorrection, words: "incorrect:"@ },
        Needle { rule: "correction"@, kind: AnchorKind::UserCorrection, words: "actually it"@ },
        Needle { rule: "correction"@, kind: AnchorKind::UserCorrection, words: "no, "@ },
        Needle { rule: "correction"@, kind: AnchorKind::UserCorrection, words: "i said "@ },
        Needle { rule: "correction"@, kind: AnchorKind::UserCorrection, words: "not what i asked"@ },
        Needle { rule: "correction"@, kind: AnchorKind::UserCorrection, words: "stop doing"@ },
        Needle { rule: "task_contract"@, kind: AnchorKind::TaskContract, words: "always "@ },
        Needle { rule: "task_contract"@, kind: AnchorKind::TaskContract, words: "make sure to"@ },
        Needle { rule: "task_contract"@, kind: AnchorKind::TaskContract, words: "be sure to"@ },
        Needle { rule: "task_contract"@, kind: AnchorKind::TaskContract, words: "requirement:"@ },
        Needle { rule: "task_contract"@, kind: AnchorKind::TaskContract, words: "must always"@ },
        Needle { rule: "task_contract"@, kind: AnchorKind::TaskContract, words: "the goal is"@ },
        Needle { rule: "task_contract"@, kind: AnchorKind::TaskContract, words: "acceptance criteria"@ },
        Needle { rule: "task_contract"@, kind: AnchorKind::TaskContract, words: "constraint:"@ },
    ]
}

/// The phrases, in the order in which they are tried.
fn phrases() -> (r: Vec<(&'static str, AnchorKind, &'static str)>)
    ensures
        r@.len() == needles().len(),
        forall|i: int|
            0 <= i < r@.len() ==> {
                &&& (#[trigger] r@[i]).0@ == needles()[i].rule
                &&& r@[i].1 == needles()[i].kind
                &&& r@[i].2@ == needles()[i].words
            },
{
    vec![
        ("explicit_never", AnchorKind::SafetyConstraint, "never "),
        ("explicit_never", AnchorKind::SafetyConstraint, "do not ever"),
        ("explicit_never", AnchorKind::SafetyConstraint, "don't ever"),
        ("explicit_never", AnchorKind::SafetyConstraint, "under no circumstances"),
        ("explicit_never", AnchorKind::SafetyConstraint, "at no point"),
        ("prohibition", AnchorKind::SafetyConstraint, "must not "),
        ("prohibition", AnchorKind::SafetyConstraint, "may not "),
        ("prohibition", AnchorKind::SafetyConstraint, "should not "),
        ("prohibition", AnchorKind::SafetyConstraint, "cannot "),
        ("prohibition", AnchorKind::SafetyConstraint, "forbidden"),
        ("prohibition", AnchorKind::SafetyConstraint, "prohibited"),
        ("prohibition", AnchorKind::SafetyConstraint, "not allowed to"),
        ("secrets_policy", AnchorKind::SafetyConstraint, "do not commit"),
        ("secrets_policy", AnchorKind::SafetyConstraint, "don't commit"),
        ("secrets_policy", AnchorKind::SafetyConstraint, "no secrets"),
        ("secrets_policy", AnchorKind::SafetyConstraint, "never push"),
        ("secrets_policy", AnchorKind::SafetyConstraint, "do not push"),
        ("secrets_policy", AnchorKind::SafetyConstraint, "don't push"),
        ("secrets_policy", AnchorKind::SafetyConstraint, "not to production"),
        ("secrets_policy", AnchorKind::SafetyConstraint, "without asking"),
        ("correction", AnchorKind::UserCorrection, "that's wrong"),
        ("correction", AnchorKind::UserCorrection, "thats wrong"),
        ("correction", AnchorKind::UserCorrection, "that is wrong"),
        ("correction", AnchorKind::UserCorrection, "you are wrong"),
        ("correction", AnchorKind::UserCorrection, "incorrect:"),
        ("correction", AnchorKind::UserCorrection, "actually it"),
        ("correction", AnchorKind::UserCorrection, "no, "),
        ("correction", AnchorKind::UserCorrection, "i said "),
        ("correction", AnchorKind::UserCorrection, "not what i asked"),
        ("correction", AnchorKind::UserCorrection, "stop doing"),
        ("task_contract", AnchorKind::TaskContract, "always "),
        ("task_contract", AnchorKind::TaskContract, "make sure to"),
        ("task_contract", AnchorKind::TaskContract, "be sure to"),
        ("task_contract", AnchorKind::TaskContract, "requirement:"),
        ("task_contract", AnchorKind::TaskContract, "must always"),
        ("task_contract", AnchorKind::TaskContract, "the goal is"),
        ("task_contract", AnchorKind::TaskContract, "acceptance criteria"),
        ("task_contract", AnchorKind::TaskContract, "constraint:"),
    ]
}

/// A pin that the detector proposes.
#[derive(Debug, Clone)]
pub struct AnchorProposal {
    /// The episode that held the constraint.
    pub episode_id: String,
    pub seq: i64,
    pub role: Role,
    pub kind: AnchorKind,
    pub excerpt: String,
    /// The rule that fired.
    pub rule: &'static str,
    /// How sure the detector is, in hundredths.
    pub confidence: u8,
}

/// Finds constraints by fixed phrases, without any model.
pub struct ConstraintDetector;

/// How sure a phrase at byte `at` of a text of `size` bytes makes the detector: one in the
/// second half is more likely an aside.
pub open spec fn confidence_at(at: nat, size: nat) -> u8 {
    if at < size / 2 {
        70
    } else {
        45
    }
}

/// The character where a phrase first stands in the text, whatever the case of its letters.
pub open spec fn phrase_index(content: Seq<char>, words: Seq<char>) -> Option<int> {
    first_match(lowered_ascii(content), words)
}

/// The byte where a phrase first stands in the text.
pub open spec fn phrase_at(content: Seq<char>, words: Seq<char>) -> Option<nat> {
    match phrase_index(content, words) {
        Some(k) => Some(bytes_of(content.take(k))),
        None => None,
    }
}

/// Which of the first `n` phrases is proposed: the surest, the earliest among equals.
pub open spec fn best_phrase(content: Seq<char>, n: int) -> Option<int>
    decreases n,
{
    if n <= 0 {
        None
    } else {
        let before = best_phrase(content, n - 1);
        match phrase_at(content, needles()[n - 1].words) {
            None => before,
            Some(at) => match before {
                None => Some(n - 1),
                Some(b) => if confidence_at(at, bytes_of(content)) > confidence_at(
                    phrase_at(content, needles()[b].words)->0,
                    bytes_of(content),
                ) {
                    Some(n - 1)
                } else {
                    Some(b)
                },
            },
        }
    }
}

/// What stands around the phrase of `words` characters at character `at`, with marks where
/// something was left out.
pub open spec fn excerpt_of(content: Seq<char>, at: int, words: nat) -> Seq<char> {
    let n = content.len() as int;
    let from = if at < 48 {
        0
    } else if at - 48 < n {
        at - 48
    } else {
        n
    };
    let to = if at + words + 96 < n {
        at + words + 96
    } else {
        n
    };
    (if from > 0 {
        "… "@
    } else {
        ""@
    }) + trimmed(content.subrange(from, to)) + (if to < n {
        " …"@
    } else {
        ""@
    })
}

/// The phrase proposed for a turn: none for turns of the assistant or of tools, nor for very
/// short or very long ones.
pub open spec fn proposed(role: Role, content: Seq<char>) -> Option<int> {
    if !(role is User || role is System) || bytes_of(content) < 8 || bytes_of(content) > 8000 {
        None
    } else {
        best_phrase(content, needles().len() as int)
    }
}

/// Whether `p` is the proposal made for this turn by phrase `k`.
pub open spec fn is_proposal(
    p: AnchorProposal,
    episode_id: Seq<char>,
    seq: i64,
    role: Role,
    content: Seq<char>,
    k: int,
) -> bool {
    let needle = needles()[k];
    let at = phrase_at(content, needle.words)->0;
    &&& p.episode_id@ == episode_id
    &&& p.seq == seq
    &&& p.role == role
    &&& p.kind == needle.kind
    &&& p.rule@ == needle.rule
    &&& p.excerpt@ == excerpt_of(
        content,
        phrase_index(content, needle.words)->0,
        needle.words.len(),
    )
    &&& p.confidence == confidence_at(at, bytes_of(content))
}

/// Whether `list` holds exactly the proposals for the turns that are sure enough, in order.
pub open spec fn are_proposals(
    list: Seq<AnchorProposal>,
    turns: Seq<(&str, i64, Role, &str)>,
    min_confidence: u8,
) -> bool
    decreases turns.len(),
{
    if turns.len() == 0 {
        list.len() == 0
    } else {
        let (id, seq, role, content) = turns.last();
        match proposed(role, content@) {
            Some(k) => if confidence_at(
                phrase_at(content@, needles()[k].words)->0,
                bytes_of(content@),
            ) >= min_confidence {
                &&& list.len() > 0
                &&& is_proposal(list.last(), id@, seq, role, content@, k)
                &&& are_proposals(list.drop_last(), turns.drop_last(), min_confidence)
            } else {
                are_proposals(list, turns.drop_last(), min_confidence)
            },
            None => are_proposals(list, turns.drop_last(), min_confidence),
        }
    }
}

impl ConstraintDetector {
    /// Looks through one turn and proposes at most one pin.
    pub fn detect(episode_id: &str, seq: i64, role: Role, content: &str) -> (r: Option<
        AnchorProposal,
    >)
        ensures
            match proposed(role, content@) {
                Some(k) => r matches Some(p) && is_proposal(
                    p,
                    episode_id@,
                    seq,
                    role,
                    content@,
                    k,
                ),
                None => r is None,
            },
    {
        if !matches!(role, Role::User | Role::System) {
            return None;
        }
        let size: usize = byte_count(content);
        if size < 8 || size > 8000 {
            return None;
        }
        let lower = ascii_lower_chars(content);
        let table = phrases();
        let mut best: Option<(usize, usize, usize)> = None;
        for i in 0..table.len()
            invariant
                size == bytes_of(content@),
                lower@ == lowered_ascii(content@),
                table@.len() == needles().len(),
                forall|j: int|
                    0 <= j < table@.len() ==> {
                        &&& (#[trigger] table@[j]).0@ == needles()[j].rule
                        &&& table@[j].1 == needles()[j].kind
                        &&& table@[j].2@ == needles()[j].words
                    },
                match best {
                    Some((b, k, at)) => b < i && best_phrase(content@, i as int) == Some(b as int)
                        && phrase_index(content@, needles()[b as int].words) == Some(k as int)
                        && phrase_at(content@, needles()[b as int].words) == Some(at as nat) && at
                        <= size && k <= content@.len(),
                    None => best_phrase(content@, i as int) is None,
                },
        {
            let words = chars_of(table[i].2);
            match find_text(lower.as_slice(), words.as_slice()) {
                Some(k) => {
                    let at: usize = bytes_before(content, k);
                    let better = match best {
                        Some((_, _, best_at)) => at < size / 2 && best_at >= size / 2,
                        None => true,
                    };
                    if better {
                        best = Some((i, k, at));
                    }
                },
                None => {},
            }
        }
        match best {
            Some((b, k, at)) => {
                let (rule, kind, words) = table[b];
                let width: usize = crate::text::char_count(words);
                proof {
                    crate::text::match_from_is_first(lowered_ascii(content@), words@, 0);
                    crate::text::no_more_characters_than_bytes(content@);
                }
                Some(
                    AnchorProposal {
                        episode_id: episode_id.to_owned(),
                        seq,
                        role,
                        kind,
                        excerpt: excerpt_around(content, k, width),
                        rule,
                        confidence: if at < size / 2 {
                            70
                        } else {
                            45
                        },
                    },
                )
            },
            None => None,
        }
    }

    /// Looks through a batch of turns and keeps the proposals that are sure enough.
    pub fn detect_all(turns: &[(&str, i64, Role, &str)], min_confidence: u8) -> (r: Vec<
        AnchorProposal,
    >)
        ensures
            are_proposals(r@, turns@, min_confidence),
    {
        let mut out: Vec<AnchorProposal> = Vec::new();
        for i in 0..turns.len()
            invariant
                are_proposals(out@, turns@.take(i as int), min_confidence),
        {
            let (id, seq, role, content) = turns[i];
            assert(turns@.take(i as int + 1).drop_last() =~= turns@.take(i as int));
            let ghost before = out@;
            match Self::detect(id, seq, role, content) {
                Some(p) => {
                    if p.confidence >= min_confidence {
                        out.push(p);
                        assert(out@.drop_last() =~= before);
                    }
                },
                None => {},
            }
        }
        assert(turns@.take(turns@.len() as int) =~= turns@);
        out
    }
}

/// The bytes taken by the first `n` characters.
fn bytes_before(s: &str, n: usize) -> (r: usize)
    requires
        n <= s@.len(),
    ensures
        r == bytes_of(s@.take(n as int)),
        r <= bytes_of(s@),
{
    let cs = chars_of(s);
    let head = string_of(cs.as_slice(), 0, n);
    proof {
        assert(head@ =~= s@.take(n as int));
        assert(s@ =~= s@.take(n as int) + s@.skip(n as int));
        crate::text::bytes_add_up(s@.take(n as int), s@.skip(n as int));
    }
    byte_count(head.as_str())
}

fn excerpt_around(content: &str, at: usize, words: usize) -> (r: String)
    requires
        at <= 8000,
        words <= 8000,
    ensures
        r@ == excerpt_of(content@, at as int, words as nat),
{
    let cs = chars_of(content);
    let n: usize = cs.len();
    let from: usize = if at < 48 {
        0
    } else if at - 48 < n {
        at - 48
    } else {
        n
    };
    let to: usize = if at + words + 96 < n {
        at + words + 96
    } else {
        n
    };
    let middle = trim(string_of(cs.as_slice(), from, to).as_str());
    let mut out = String::from_str(
        if from > 0 {
            "… "
        } else {
            ""
        },
    );
    out.append(middle.as_str());
    out.append(
        if to < n {
            " …"
        } else {
            ""
        },
    );
    out
}

/// Nothing is proposed for what the assistant or a tool said.
pub proof fn only_users_and_systems_set_rules(role: Role, content: Seq<char>)
    requires
        !(role is User || role is System),
    ensures
        proposed(role, content) is None,
{
}

/// The phrase that is proposed stands in the turn, and no phrase in it is surer.
pub proof fn the_surest_phrase_is_proposed(content: Seq<char>, n: int)
    requires
        0 <= n <= needles().len(),
    ensures
        match best_phrase(content, n) {
            Some(b) => {
                &&& 0 <= b < n
                &&& phrase_at(content, needles()[b].words) is Some
                &&& forall|i: int|
                    0 <= i < n && #[trigger] phrase_at(content, needles()[i].words) is Some
                        ==> confidence_at(
                        phrase_at(content, needles()[i].words)->0,
                        bytes_of(content),
                    ) <= confidence_at(
                        phrase_at(content, needles()[b].words)->0,
                        bytes_of(content),
                    )
            },
            None => forall|i: int|
                0 <= i < n ==> #[trigger] phrase_at(content, needles()[i].words) is None,
        },
    decreases n,
{
    if n > 0 {
        the_surest_phrase_is_proposed(content, n - 1);
    }
}

/// Whether a text in small letters forbids something.
pub open spec fn forbids(lower: Seq<char>) -> bool {
    ||| contains_text(lower, "never "@)
    ||| contains_text(lower, "do not ever"@)
    ||| contains_text(lower, "don't ever"@)
    ||| contains_text(lower, "under no circumstances"@)
    ||| contains_text(lower, "at no point"@)
    ||| contains_text(lower, "must not "@)
    ||| contains_text(lower, "may not "@)
    ||| contains_text(lower, "should not "@)
    ||| contains_text(lower, "cannot "@)
    ||| contains_text(lower, "forbidden"@)
    ||| contains_text(lower, "prohibited"@)
    ||| contains_text(lower, "not allowed to"@)
    ||| contains_text(lower, "do not commit"@)
    ||| contains_text(lower, "don't commit"@)
    ||| contains_text(lower, "no secrets"@)
    ||| contains_text(lower, "never push"@)
    ||| contains_text(lower, "do not push"@)
    ||| contains_text(lower, "don't push"@)
    ||| contains_text(lower, "not to production"@)
    ||| contains_text(lower, "without asking"@)
}

/// Whether a text in small letters corrects something.
pub open spec fn corrects(lower: Seq<char>) -> bool {
    ||| contains_text(lower, "that's wrong"@)
    ||| contains_text(lower, "thats wrong"@)
    ||| contains_text(lower, "that is wrong"@)
    ||| contains_text(lower, "you are wrong"@)
    ||| contains_text(lower, "incorrect:"@)
    ||| contains_text(lower, "actually it"@)
    ||| contains_text(lower, "no, "@)
    ||| contains_text(lower, "i said "@)
    ||| contains_text(lower, "not what i asked"@)
    ||| contains_text(lower, "stop doing"@)
}

/// Whether a text in small letters sets a requirement.
pub open spec fn requires_something(lower: Seq<char>) -> bool {
    ||| contains_text(lower, "always "@)
    ||| contains_text(lower, "make sure to"@)
    ||| contains_text(lower, "be sure to"@)
    ||| contains_text(lower, "requirement:"@)
    ||| contains_text(lower, "must always"@)
    ||| contains_text(lower, "the goal is"@)
    ||| contains_text(lower, "acceptance criteria"@)
    ||| contains_text(lower, "constraint:"@)
}

/// A phrase stands in the text exactly where it is found.
proof fn phrases_are_found(content: Seq<char>, k: int)
    requires
        0 <= k < needles().len(),
    ensures
        phrase_at(content, needles()[k].words) is Some <==> contains_text(
            lowered_ascii(content),
            needles()[k].words,
        ),
{
    let lower = lowered_ascii(content);
    let words = needles()[k].words;
    crate::text::match_from_is_first(lower, words, 0);
    if contains_text(lower, words) {
        let at = choose|at: int| stands_at(lower, words, at);
        assert(stands_at(lower, words, at));
    }
}

/// The phrases that forbid, correct and require are those that are looked for, in this order.
proof fn phrases_by_kind(lower: Seq<char>)
    ensures
        needles().len() == 38,
        forbids(lower) <==> exists|k: int|
            0 <= k < 20 && contains_text(lower, (#[trigger] needles()[k]).words),
        corrects(lower) <==> exists|k: int|
            20 <= k < 30 && contains_text(lower, (#[trigger] needles()[k]).words),
        requires_something(lower) <==> exists|k: int|
            30 <= k < 38 && contains_text(lower, (#[trigger] needles()[k]).words),
        forall|k: int|
            0 <= k < 20 ==> (#[trigger] needles()[k]).kind is SafetyConstraint,
        forall|k: int|
            20 <= k < 30 ==> (#[trigger] needles()[k]).kind is UserCorrection,
        forall|k: int| 30 <= k < 38 ==> (#[trigger] needles()[k]).kind is TaskContract,
{
    assert(needles()[0].words == "never "@);
    assert(needles()[1].words == "do not ever"@);
    assert(needles()[2].words == "don't ever"@);
    assert(needles()[3].words == "under no circumstances"@);
    assert(needles()[4].words == "at no point"@);
    assert(needles()[5].words == "must not "@);
    assert(needles()[6].words == "may not "@);
    assert(needles()[7].words == "should not "@);
    assert(needles()[8].words == "cannot "@);
    assert(needles()[9].words == "forbidden"@);
    assert(needles()[10].words == "prohibited"@);
    assert(needles()[11].words == "not allowed to"@);
    assert(needles()[12].words == "do not commit"@);
    assert(needles()[13].words == "don't commit"@);
    assert(needles()[14].words == "no secrets"@);
    assert(needles()[15].words == "never push"@);
    assert(needles()[16].words == "do not push"@);
    assert(needles()[17].words == "don't push"@);
    assert(needles()[18].words == "not to production"@);
    assert(needles()[19].words == "without asking"@);
    assert(needles()[20].words == "that's wrong"@);
    assert(needles()[21].words == "thats wrong"@);
    assert(needles()[22].words == "that is wrong"@);
    assert(needles()[23].words == "you are wrong"@);
    assert(needles()[24].words == "incorrect:"@);
    assert(needles()[25].words == "actually it"@);
    assert(needles()[26].words == "no, "@);
    assert(needles()[27].words == "i said "@);
    assert(needles()[28].words == "not what i asked"@);
    assert(needles()[29].words == "stop doing"@);
    assert(needles()[30].words == "always "@);
    assert(needles()[31].words == "make sure to"@);
    assert(needles()[32].words == "be sure to"@);
    assert(needles()[33].words == "requirement:"@);
    assert(needles()[34].words == "must always"@);
    assert(needles()[35].words == "the goal is"@);
    assert(needles()[36].words == "acceptance criteria"@);
    assert(needles()[37].words == "constraint:"@);
}

/// A turn of the user or the system that forbids, corrects or requires something is proposed,
/// unless it is very short or very long, and nothing else is. What is proposed is of the kind of
/// a phrase that stands in the turn, and it is more certain where that phrase first stands in
/// the first half.
pub proof fn what_forbids_corrects_or_requires_is_proposed(
    episode_id: &str,
    seq: i64,
    role: Role,
    content: &str,
    r: Option<AnchorProposal>,
)
    requires
        call_ensures(ConstraintDetector::detect, (episode_id, seq, role, content), r),
    ensures
        ({
            let lower = lowered_ascii(content@);
            &&& r is Some <==> (role is User || role is System) && 8 <= bytes_of(content@) <= 8000
                && (forbids(lower) || corrects(lower) || requires_something(lower))
            &&& r matches Some(p) ==> {
                &&& p.episode_id@ == episode_id@ && p.seq == seq && p.role == role
                &&& p.kind is SafetyConstraint ==> forbids(lower)
                &&& p.kind is UserCorrection ==> corrects(lower)
                &&& p.kind is TaskContract ==> requires_something(lower)
                &&& p.confidence == 70 || p.confidence == 45
            }
        }),
{
    let lower = lowered_ascii(content@);
    phrases_by_kind(lower);
    the_surest_phrase_is_proposed(content@, needles().len() as int);
    assert forall|k: int| 0 <= k < needles().len() implies (phrase_at(
        content@,
        (#[trigger] needles()[k]).words,
    ) is Some <==> contains_text(lower, needles()[k].words)) by {
        phrases_are_found(content@, k);
    }
    match best_phrase(content@, needles().len() as int) {
        Some(b) => {
            assert(contains_text(lower, needles()[b].words));
        },
        None => {
            assert forall|k: int| 0 <= k < needles().len() implies !contains_text(
                lower,
                (#[trigger] needles()[k]).words,
            ) by {
                assert(phrase_at(content@, needles()[k].words) is None);
            }
        },
    }
}

/// A proposal is certain where some phrase first stands in the first half of the turn, and
/// uncertain where none does.
pub proof fn an_early_phrase_makes_it_certain(
    episode_id: &str,
    seq: i64,
    role: Role,
    content: &str,
    p: AnchorProposal,
    k: int,
    at: int,
)
    requires
        call_ensures(ConstraintDetector::detect, (episode_id, seq, role, content), Some(p)),
        0 <= k < needles().len(),
        stands_at(lowered_ascii(content@), needles()[k].words, at),
        forall|j: int| 0 <= j < at ==> !#[trigger] stands_at(
            lowered_ascii(content@),
            needles()[k].words,
            j,
        ),
        bytes_of(content@.take(at)) < bytes_of(content@) / 2,
    ensures
        p.confidence == 70,
{
    the_surest_phrase_is_proposed(content@, needles().len() as int);
    let lower = lowered_ascii(content@);
    let words = needles()[k].words;
    crate::text::match_from_is_first(lower, words, 0);
    phrases_are_found(content@, k);
    assert(phrase_at(content@, words) is Some);
    let m = phrase_index(content@, words)->0;
    if m < at {
        assert(stands_at(lower, words, m));
    } else if at < m {
        assert(stands_at(lower, words, at));
    }
    assert(confidence_at(phrase_at(content@, words)->0, bytes_of(content@)) == 70);
}

/// The excerpt of a proposal is taken from the turn around a phrase that stands in it: up to 48
/// characters before it and 96 after it, without the white space at its ends.
pub proof fn the_excerpt_surrounds_the_phrase(
    episode_id: &str,
    seq: i64,
    role: Role,
    content: &str,
    p: AnchorProposal,
) -> (r: (int, int, int))
    requires
        call_ensures(ConstraintDetector::detect, (episode_id, seq, role, content), Some(p)),
    ensures
        ({
            let (from, to, k) = r;
            let lower = lowered_ascii(content@);
            &&& 0 <= from <= to <= content@.len()
            &&& 0 <= k < needles().len()
            &&& p.rule@ == needles()[k].rule && p.kind == needles()[k].kind
            &&& exists|at: int|
                #![trigger stands_at(lower, needles()[k].words, at)]
                stands_at(lower, needles()[k].words, at) && from <= at && at
                    + needles()[k].words.len() <= to && (from == 0 || from == at - 48) && (to
                    == content@.len() || to == at + needles()[k].words.len() + 96)
            &&& contains_text(p.excerpt@, trimmed(content@.subrange(from, to)))
        }),
{
    let lower = lowered_ascii(content@);
    the_surest_phrase_is_proposed(content@, needles().len() as int);
    let k = best_phrase(content@, needles().len() as int)->0;
    let words = needles()[k].words;
    phrases_are_found(content@, k);
    crate::text::match_from_is_first(lower, words, 0);
    let at = phrase_index(content@, words)->0;
    let n = content@.len() as int;
    assert(lower.len() == n);
    let from = if at < 48 {
        0
    } else {
        at - 48
    };
    let to = if at + words.len() + 96 < n {
        at + words.len() + 96
    } else {
        n
    };
    let middle = trimmed(content@.subrange(from, to));
    let head = if from > 0 {
        "… "@
    } else {
        ""@
    };
    let tail = if to < n {
        " …"@
    } else {
        ""@
    };
    assert(p.excerpt@ =~= head + middle + tail);
    let h = head.len() as int;
    assert(p.excerpt@.subrange(h, h + middle.len()) =~= middle);
    assert(stands_at(p.excerpt@, middle, head.len() as int));
    (from, to, k)
}

/// Whether one anchor may stand before another: safety constraints come first, then
/// corrections, then contracts, and within a kind what was pinned earlier.
pub open spec fn may_stand_before(a: AnchorRow, b: AnchorRow) -> bool {
    &&& b.kind is SafetyConstraint ==> a.kind is SafetyConstraint
    &&& b.kind is UserCorrection ==> !(a.kind is TaskContract)
    &&& a.kind == b.kind ==> !text_before(b.created_at@, a.created_at@)
}

/// The block of the anchors shows each of them, in the order of their kinds and then of their
/// pinning. `ordered` is that order, and `at` tells where the line of each stands.
pub proof fn the_block_shows_safety_first(
    anchors: &[AnchorRow],
    counter: &TokenCounter,
    budget: usize,
    r: Result<(String, usize), Error>,
) -> (shown: (Seq<AnchorRow>, Seq<int>))
    requires
        call_ensures(render_anchor_block, (anchors, counter, budget), r),
    ensures
        shown.0.len() == anchors@.len(),
        shown.1.len() == anchors@.len(),
        forall|x: AnchorRow| #[trigger] shown.0.contains(x) <==> anchors@.contains(x),
        forall|i: int, j: int|
            #![trigger shown.0[i], shown.0[j]]
            0 <= i < j < shown.0.len() ==> may_stand_before(shown.0[i], shown.0[j]),
        r matches Ok((body, used)) ==> {
            &&& used == counter.of(body@)
            &&& used <= budget
            &&& anchors@.len() == 0 ==> body@.len() == 0
            &&& forall|i: int|
                0 <= i < shown.0.len() ==> stands_at(
                    body@,
                    ("["@ + (#[trigger] shown.0[i]).kind.title() + "] "@
                        + shown.0[i].content@).push('\n'),
                    shown.1[i],
                )
            &&& forall|i: int, j: int|
                #![trigger shown.1[i], shown.1[j]]
                0 <= i < j < shown.1.len() ==> shown.1[i] < shown.1[j]
        },
        r is Err ==> anchors@.len() > 0,
{
    assert(anchors.len() == anchors@.len());
    let order = crate::order::sorting_rearranges(anchors@);
    crate::order::a_stable_order_sorts(anchors@, order);
    let sorted = stably_sorted(anchors@);
    assert forall|i: int, j: int|
        #![trigger sorted[i], sorted[j]]
        0 <= i < j < sorted.len() implies may_stand_before(sorted[i], sorted[j]) by {
        assert(!sorted[j].precedes(&sorted[i]));
        text_order(sorted[i].created_at@, sorted[j].created_at@, sorted[i].created_at@);
    }
    let lines = anchor_lines(sorted);
    let block = anchor_block(anchors@);
    let head = block.len() - lines.len();
    let within = line_places(sorted);
    let at = Seq::new(within.len(), |i: int| head + within[i]);
    assert forall|i: int| 0 <= i < sorted.len() implies stands_at(
        block,
        ("["@ + (#[trigger] sorted[i]).kind.title() + "] "@ + sorted[i].content@).push('\n'),
        at[i],
    ) by {
        let line = sorted[i].shown().push('\n');
        let k = within[i];
        assert(stands_at(lines, line, k));
        assert(block.subrange(head + k, head + k + line.len()) =~= lines.subrange(
            k,
            k + line.len(),
        ));
    }
    if anchors@.len() == 0 {
        crate::tokens::only_nothing_is_free(*counter, Seq::empty());
        if r is Ok {
            assert(r->Ok_0.0@ =~= Seq::empty());
        }
    }
    (sorted, at)
}

/// Where the line of each anchor begins among the lines.
proof fn line_places(anchors: Seq<AnchorRow>) -> (at: Seq<int>)
    ensures
        at.len() == anchors.len(),
        forall|i: int|
            0 <= i < at.len() ==> stands_at(
                anchor_lines(anchors),
                anchors[i].shown().push('\n'),
                #[trigger] at[i],
            ),
        forall|i: int, j: int|
            #![trigger at[i], at[j]]
            0 <= i < j < at.len() ==> at[i] < at[j],
    decreases anchors.len(),
{
    if anchors.len() == 0 {
        Seq::empty()
    } else {
        let rest = anchors.drop_last();
        let before = line_places(rest);
        let old = anchor_lines(rest);
        let all = anchor_lines(anchors);
        let at = before.push(old.len() as int);
        assert forall|i: int| 0 <= i < at.len() implies stands_at(
            all,
            anchors[i].shown().push('\n'),
            #[trigger] at[i],
        ) by {
            let line = anchors[i].shown().push('\n');
            if i < rest.len() {
                assert(at[i] == before[i] && rest[i] == anchors[i]);
                assert(stands_at(old, line, before[i]));
                assert(all.subrange(at[i], at[i] + line.len()) =~= old.subrange(
                    at[i],
                    at[i] + line.len(),
                ));
            } else {
                assert(all.subrange(at[i], at[i] + line.len()) =~= line);
            }
        }
        assert forall|i: int, j: int|
            #![trigger at[i], at[j]]
            0 <= i < j < at.len() implies at[i] < at[j] by {
            assert(at[i] == before[i]);
            if j < rest.len() {
                assert(at[j] == before[j]);
            } else {
                assert(stands_at(old, rest[i].shown().push('\n'), before[i]));
            }
        }
        at
    }
}

/// What is pinned is kept word for word, but for the white space around it; only what holds
/// nothing else is refused.
pub proof fn what_is_pinned_is_kept(request: PinRequest, r: Result<AnchorRow, Error>)
    requires
        call_ensures(PinRequest::into_row, (request,), r),
    ensures
        r is Err <==> is_blank(request.content@),
        r matches Ok(row) ==> row.content@ == trimmed(request.content@) && row.kind == request.kind
            && row.session_id == request.session_id && row.pinned_by == request.pinned_by,
{
}

/// The proposals for a batch of turns are those for its turns that are sure enough, in order:
/// one more turn adds its own proposal, or nothing.
pub proof fn a_batch_is_looked_through_turn_by_turn(
    list: Seq<AnchorProposal>,
    turns: Seq<(&str, i64, Role, &str)>,
    least: u8,
    p: Option<AnchorProposal>,
)
    requires
        turns.len() > 0,
        call_ensures(
            ConstraintDetector::detect,
            (turns.last().0, turns.last().1, turns.last().2, turns.last().3),
            p,
        ),
        are_proposals(list, turns, least),
    ensures
        p matches Some(found) && found.confidence >= least ==> list.len() > 0
            && are_proposals(list.drop_last(), turns.drop_last(), least) && list.last().kind
            == p->0.kind && list.last().excerpt@ == p->0.excerpt@ && list.last().confidence
            == p->0.confidence && list.last().seq == p->0.seq,
        !(p matches Some(found) && found.confidence >= least) ==> are_proposals(
            list,
            turns.drop_last(),
            least,
        ),
{
}

} // verus!
