//! Prompt assembly, and the coordinates that eviction and caching both reason in.
//!
//! There is exactly one assembler. [`PromptParts`] holds each category apart, and the
//! breakdown of a receipt is counted from the same pieces that the prompt was made of.

use crate::ids::{all_hex, short_hash_of_text, short_hash_str};
use crate::text::{
    blank, byte_count, bytes_add_up, bytes_of, ends_with_char, is_blank, stands_at, take_bytes,
    trimmed, width_of, within_bytes, within_bytes_is_monotonic,
    within_bytes_is_the_longest_prefix,
};
use crate::tokens::TokenCounter;
use vstd::prelude::*;
use vstd::string::*;

verus! {

/// One category of the prompt.
#[derive(Debug, Clone, Copy, PartialEq, Eq, Hash, Structural)]
pub enum RenderedPart {
    /// The system prompt.
    System,
    /// The pinned anchors.
    Anchors,
    /// The rendered timeline of episodes.
    Timeline,
    /// The map of the repository.
    RepoMap,
    /// Retrieved memory.
    Recall,
    /// The tool schemas.
    ToolSchemas,
    /// Summaries of folded subtasks.
    Folds,
    /// Anything else.
    Extra,
}

impl RenderedPart {
    /// The name shown in a receipt.
    pub open spec fn title(self) -> Seq<char> {
        match self {
            RenderedPart::System => "system prompt"@,
            RenderedPart::Anchors => "pinned anchors"@,
            RenderedPart::Timeline => "raw recent history"@,
            RenderedPart::RepoMap => "repo map"@,
            RenderedPart::Recall => "retrieved memory"@,
            RenderedPart::ToolSchemas => "tool schemas"@,
            RenderedPart::Folds => "fold summaries"@,
            RenderedPart::Extra => "other"@,
        }
    }

    /// The place in the prompt.
    pub open spec fn place(self) -> u8 {
        match self {
            RenderedPart::System => 0,
            RenderedPart::Anchors => 1,
            RenderedPart::Folds => 2,
            RenderedPart::Recall => 3,
            RenderedPart::RepoMap => 4,
            RenderedPart::Timeline => 5,
            RenderedPart::ToolSchemas => 6,
            RenderedPart::Extra => 7,
        }
    }

    /// The name shown in a receipt.
    pub fn label(self) -> (r: &'static str)
        ensures
            r@ == self.title(),
    {
        match self {
            RenderedPart::System => "system prompt",
            RenderedPart::Anchors => "pinned anchors",
            RenderedPart::Timeline => "raw recent history",
            RenderedPart::RepoMap => "repo map",
            RenderedPart::Recall => "retrieved memory",
            RenderedPart::ToolSchemas => "tool schemas",
            RenderedPart::Folds => "fold summaries",
            RenderedPart::Extra => "other",
        }
    }

    /// The place in the prompt. Anchors come right after the system prompt.
    pub fn order(self) -> (r: u8)
        ensures
            r == self.place(),
    {
        match self {
            RenderedPart::System => 0,
            RenderedPart::Anchors => 1,
            RenderedPart::Folds => 2,
            RenderedPart::Recall => 3,
            RenderedPart::RepoMap => 4,
            RenderedPart::Timeline => 5,
            RenderedPart::ToolSchemas => 6,
            RenderedPart::Extra => 7,
        }
    }

    /// Whether eviction can shrink the part: only the timeline.
    pub fn is_evictable(self) -> (r: bool)
        ensures
            r == (self is Timeline),
    {
        matches!(self, RenderedPart::Timeline)
    }

    /// Whether the part is there whatever the budget.
    pub fn is_mandatory(self) -> (r: bool)
        ensures
            r == (self is System || self is Anchors),
    {
        matches!(self, RenderedPart::System | RenderedPart::Anchors)
    }
}

/// The prompt in pieces.
#[derive(Debug, Clone)]
pub struct PromptParts {
    pub system: String,
    pub anchors: String,
    pub timeline: String,
    pub repo_map: String,
    pub recall: String,
    pub tool_schemas: String,
    pub folds: String,
    /// Named sections of the caller's own.
    pub extra: Vec<(String, String)>,
}

/// A part that carries text: its header, empty for the system prompt, and the text.
pub struct Section {
    pub part: RenderedPart,
    pub header: Seq<char>,
    pub text: Seq<char>,
}

/// The section of a part, left out where its text is blank.
pub open spec fn section_of(part: RenderedPart, header: Seq<char>, text: Seq<char>) -> Seq<
    Section,
> {
    if is_blank(text) {
        Seq::empty()
    } else {
        seq![Section { part, header, text }]
    }
}

/// The header line of a section.
pub open spec fn header_line(s: Section) -> Seq<char> {
    if s.header.len() > 0 {
        s.header.push('\n')
    } else {
        Seq::empty()
    }
}

/// A section as it stands in the prompt: its header line, its text, and a line end.
pub open spec fn block(s: Section) -> Seq<char> {
    header_line(s) + s.text + (if s.text.len() > 0 && s.text.last() == '\n' {
        Seq::empty()
    } else {
        seq!['\n']
    })
}

/// Sections one after the other.
pub open spec fn blocks(list: Seq<Section>) -> Seq<char>
    decreases list.len(),
{
    if list.len() == 0 {
        Seq::empty()
    } else {
        blocks(list.drop_last()) + block(list.last())
    }
}

/// A named section of the caller's own.
pub open spec fn extra_block(name: Seq<char>, text: Seq<char>) -> Seq<char> {
    "--- "@ + name + " ---\n"@ + text + "\n"@
}

/// The caller's own sections, the blank ones left out.
pub open spec fn extra_blocks(extra: Seq<(String, String)>) -> Seq<char>
    decreases extra.len(),
{
    if extra.len() == 0 {
        Seq::empty()
    } else if is_blank(extra.last().1@) {
        extra_blocks(extra.drop_last())
    } else {
        extra_blocks(extra.drop_last()) + extra_block(extra.last().0@, extra.last().1@)
    }
}

/// The tokens of the caller's own sections, the blank ones left out.
pub open spec fn extra_tokens(extra: Seq<(String, String)>, counter: TokenCounter) -> nat
    decreases extra.len(),
{
    if extra.len() == 0 {
        0
    } else if is_blank(extra.last().1@) {
        extra_tokens(extra.drop_last(), counter)
    } else {
        extra_tokens(extra.drop_last(), counter) + counter.of(
            extra_block(extra.last().0@, extra.last().1@),
        )
    }
}

/// The tokens of a list of counted parts, those of `skip` left out.
pub open spec fn tokens_but(counts: Seq<(RenderedPart, usize)>, skip: Option<RenderedPart>) -> nat
    decreases counts.len(),
{
    if counts.len() == 0 {
        0
    } else {
        tokens_but(counts.drop_last(), skip) + (if skip == Some(counts.last().0) {
            0
        } else {
            counts.last().1 as nat
        })
    }
}

/// The exec sections by their texts.
pub open spec fn sections_view(v: Seq<(RenderedPart, &str, &str)>) -> Seq<Section> {
    Seq::new(v.len(), |i: int| Section { part: v[i].0, header: v[i].1@, text: v[i].2@ })
}

fn push_section<'a>(
    out: &mut Vec<(RenderedPart, &'a str, &'a str)>,
    part: RenderedPart,
    header: &'a str,
    text: &'a str,
)
    ensures
        sections_view(final(out)@) == sections_view(old(out)@) + section_of(part, header@, text@),
{
    if !blank(text) {
        out.push((part, header, text));
    }
    assert(sections_view(out@) =~= sections_view(old(out)@) + section_of(part, header@, text@));
}

impl Default for PromptParts {
    fn default() -> (r: Self)
        ensures
            r.system@.len() == 0,
            r.anchors@.len() == 0,
            r.timeline@.len() == 0,
            r.repo_map@.len() == 0,
            r.recall@.len() == 0,
            r.tool_schemas@.len() == 0,
            r.folds@.len() == 0,
            r.extra@.len() == 0,
    {
        PromptParts {
            system: String::new(),
            anchors: String::new(),
            timeline: String::new(),
            repo_map: String::new(),
            recall: String::new(),
            tool_schemas: String::new(),
            folds: String::new(),
            extra: Vec::new(),
        }
    }
}

impl PromptParts {
    /// The sections of the prompt, in their order.
    pub open spec fn section_list(self) -> Seq<Section> {
        section_of(RenderedPart::System, ""@, self.system@) + section_of(
            RenderedPart::Anchors,
            "--- pinned anchors ---"@,
            self.anchors@,
        ) + section_of(RenderedPart::Folds, "--- folded subtasks ---"@, self.folds@) + section_of(
            RenderedPart::Recall,
            "--- retrieved memory ---"@,
            self.recall@,
        ) + section_of(RenderedPart::RepoMap, "--- repository map ---"@, self.repo_map@)
            + section_of(RenderedPart::Timeline, "--- recent history ---"@, self.timeline@)
            + section_of(
            RenderedPart::ToolSchemas,
            "--- tool schemas ---"@,
            self.tool_schemas@,
        )
    }

    /// The assembled prompt.
    pub open spec fn rendered(self) -> Seq<char> {
        blocks(self.section_list()) + extra_blocks(self.extra@)
    }

    /// The text of one part.
    pub open spec fn text_of(self, which: RenderedPart) -> Seq<char> {
        match which {
            RenderedPart::System => self.system@,
            RenderedPart::Anchors => self.anchors@,
            RenderedPart::Timeline => self.timeline@,
            RenderedPart::RepoMap => self.repo_map@,
            RenderedPart::Recall => self.recall@,
            RenderedPart::ToolSchemas => self.tool_schemas@,
            RenderedPart::Folds => self.folds@,
            RenderedPart::Extra => ""@,
        }
    }

    /// Whether `counts` gives each section's tokens in order, and those of the caller's own
    /// sections last where there are any.
    pub open spec fn is_breakdown(
        self,
        counts: Seq<(RenderedPart, usize)>,
        counter: TokenCounter,
    ) -> bool {
        let list = self.section_list();
        let own = extra_tokens(self.extra@, counter);
        &&& counts.len() == list.len() + (if own > 0 {
            1nat
        } else {
            0
        })
        &&& forall|i: int|
            0 <= i < list.len() ==> (#[trigger] counts[i]).0 == list[i].part && counts[i].1
                == counter.of(header_line(list[i]) + list[i].text)
        &&& own > 0 ==> counts.last().0 == RenderedPart::Extra && counts.last().1 == own
    }

    /// The tokens of all sections together, those of `skip` left out.
    pub open spec fn section_tokens(
        list: Seq<Section>,
        counter: TokenCounter,
        skip: Option<RenderedPart>,
    ) -> nat
        decreases list.len(),
    {
        if list.len() == 0 {
            0
        } else {
            Self::section_tokens(list.drop_last(), counter, skip) + (if skip == Some(
                list.last().part,
            ) {
                0
            } else {
                counter.of(header_line(list.last()) + list.last().text)
            })
        }
    }

    /// The tokens of everything but `skip`.
    pub open spec fn tokens_without(
        self,
        counter: TokenCounter,
        skip: Option<RenderedPart>,
    ) -> nat {
        Self::section_tokens(self.section_list(), counter, skip) + extra_tokens(
            self.extra@,
            counter,
        )
    }

    /// Whether the tokens of all parts can be added up.
    pub open spec fn countable(self, counter: TokenCounter) -> bool {
        self.tokens_without(counter, None) <= usize::MAX
    }

    /// An empty prompt.
    pub fn new() -> (r: Self)
        ensures
            r.section_list().len() == 0,
            r.extra@.len() == 0,
            r.system@.len() == 0,
            r.anchors@.len() == 0,
            r.timeline@.len() == 0,
            r.repo_map@.len() == 0,
            r.recall@.len() == 0,
            r.tool_schemas@.len() == 0,
            r.folds@.len() == 0,
    {
        Self::default()
    }

    pub fn with_system(self, s: &str) -> (r: Self)
        ensures
            r.system@ == s@,
            r == (PromptParts { system: r.system, ..self }),
    {
        PromptParts { system: s.to_owned(), ..self }
    }

    pub fn with_anchors(self, s: &str) -> (r: Self)
        ensures
            r.anchors@ == s@,
            r == (PromptParts { anchors: r.anchors, ..self }),
    {
        PromptParts { anchors: s.to_owned(), ..self }
    }

    pub fn with_timeline(self, s: &str) -> (r: Self)
        ensures
            r.timeline@ == s@,
            r == (PromptParts { timeline: r.timeline, ..self }),
    {
        PromptParts { timeline: s.to_owned(), ..self }
    }

    pub fn with_repo_map(self, s: &str) -> (r: Self)
        ensures
            r.repo_map@ == s@,
            r == (PromptParts { repo_map: r.repo_map, ..self }),
    {
        PromptParts { repo_map: s.to_owned(), ..self }
    }

    pub fn with_recall(self, s: &str) -> (r: Self)
        ensures
            r.recall@ == s@,
            r == (PromptParts { recall: r.recall, ..self }),
    {
        PromptParts { recall: s.to_owned(), ..self }
    }

    pub fn with_tool_schemas(self, s: &str) -> (r: Self)
        ensures
            r.tool_schemas@ == s@,
            r == (PromptParts { tool_schemas: r.tool_schemas, ..self }),
    {
        PromptParts { tool_schemas: s.to_owned(), ..self }
    }

    pub fn with_folds(self, s: &str) -> (r: Self)
        ensures
            r.folds@ == s@,
            r == (PromptParts { folds: r.folds, ..self }),
    {
        PromptParts { folds: s.to_owned(), ..self }
    }

    /// The text of one part; the caller's own sections have none.
    pub fn part(&self, which: RenderedPart) -> (r: &str)
        ensures
            r@ == self.text_of(which),
    {
        match which {
            RenderedPart::System => self.system.as_str(),
            RenderedPart::Anchors => self.anchors.as_str(),
            RenderedPart::Timeline => self.timeline.as_str(),
            RenderedPart::RepoMap => self.repo_map.as_str(),
            RenderedPart::Recall => self.recall.as_str(),
            RenderedPart::ToolSchemas => self.tool_schemas.as_str(),
            RenderedPart::Folds => self.folds.as_str(),
            RenderedPart::Extra => "",
        }
    }

    /// Every part that carries text, with its header, in the order of the prompt.
    pub fn sections(&self) -> (r: Vec<(RenderedPart, &str, &str)>)
        ensures
            sections_view(r@) == self.section_list(),
    {
        let mut out: Vec<(RenderedPart, &str, &str)> = Vec::new();
        push_section(&mut out, RenderedPart::System, "", self.system.as_str());
        push_section(
            &mut out,
            RenderedPart::Anchors,
            "--- pinned anchors ---",
            self.anchors.as_str(),
        );
        push_section(
            &mut out,
            RenderedPart::Folds,
            "--- folded subtasks ---",
            self.folds.as_str(),
        );
        push_section(
            &mut out,
            RenderedPart::Recall,
            "--- retrieved memory ---",
            self.recall.as_str(),
        );
        push_section(
            &mut out,
            RenderedPart::RepoMap,
            "--- repository map ---",
            self.repo_map.as_str(),
        );
        push_section(
            &mut out,
            RenderedPart::Timeline,
            "--- recent history ---",
            self.timeline.as_str(),
        );
        push_section(
            &mut out,
            RenderedPart::ToolSchemas,
            "--- tool schemas ---",
            self.tool_schemas.as_str(),
        );
        assert(sections_view(out@) =~= self.section_list());
        out
    }

    /// The assembled prompt, exactly as it would be sent.
    pub fn render(&self) -> (r: String)
        ensures
            r@ == self.rendered(),
    {
        let mut out = String::new();
        let list = self.sections();
        let ghost all = self.section_list();
        for i in 0..list.len()
            invariant
                sections_view(list@) == all,
                out@ == blocks(all.take(i as int)),
        {
            let (part, header, text) = list[i];
            let ghost s = all[i as int];
            assert(s == sections_view(list@)[i as int]);
            assert(all.take(i as int + 1).drop_last() =~= all.take(i as int));
            push_block(&mut out, header, text);
        }
        assert(all.take(all.len() as int) =~= all);
        let ghost head = out@;
        for i in 0..self.extra.len()
            invariant
                out@ == head + extra_blocks(self.extra@.take(i as int)),
        {
            let ghost done = self.extra@.take(i as int + 1);
            assert(done.drop_last() =~= self.extra@.take(i as int));
            if !blank(self.extra[i].1.as_str()) {
                let ghost before = out@;
                out.append("--- ");
                out.append(self.extra[i].0.as_str());
                out.append(" ---\n");
                out.append(self.extra[i].1.as_str());
                out.append("\n");
                assert(out@ =~= before + extra_block(self.extra@[i as int].0@, self.extra@[i as int].1@));
                assert(out@ =~= head + extra_blocks(done));
            }
        }
        assert(self.extra@.take(self.extra@.len() as int) =~= self.extra@);
        out
    }

    /// The tokens of the assembled prompt.
    pub fn total_tokens(&self, counter: &TokenCounter) -> (r: usize)
        ensures
            r == counter.of(self.rendered()),
    {
        counter.count(self.render().as_str()).get()
    }

    /// The tokens of the assembled prompt.
    pub fn count(&self, counter: &TokenCounter) -> (r: usize)
        ensures
            r == counter.of(self.rendered()),
    {
        counter.count(self.render().as_str()).get()
    }

    /// The tokens of each category.
    pub fn breakdown(&self, counter: &TokenCounter) -> (r: Vec<(RenderedPart, usize)>)
        requires
            self.countable(*counter),
        ensures
            self.is_breakdown(r@, *counter),
    {
        let mut out: Vec<(RenderedPart, usize)> = Vec::new();
        let list = self.sections();
        let ghost all = self.section_list();
        for i in 0..list.len()
            invariant
                sections_view(list@) == all,
                out@.len() == i,
                forall|k: int|
                    0 <= k < i ==> (#[trigger] out@[k]).0 == all[k].part && out@[k].1
                        == counter.of(header_line(all[k]) + all[k].text),
        {
            let (part, header, text) = list[i];
            assert(all[i as int] == sections_view(list@)[i as int]);
            let mut owned = String::new();
            push_header(&mut owned, header);
            owned.append(text);
            assert(owned@ =~= header_line(all[i as int]) + all[i as int].text);
            out.push((part, counter.count(owned.as_str()).get()));
        }
        let own: usize = self.own_tokens(counter);
        if own > 0 {
            out.push((RenderedPart::Extra, own));
        }
        out
    }

    /// The tokens of the caller's own sections.
    fn own_tokens(&self, counter: &TokenCounter) -> (r: usize)
        requires
            extra_tokens(self.extra@, *counter) <= usize::MAX,
        ensures
            r == extra_tokens(self.extra@, *counter),
    {
        let mut sum: usize = 0;
        for i in 0..self.extra.len()
            invariant
                extra_tokens(self.extra@, *counter) <= usize::MAX,
                sum == extra_tokens(self.extra@.take(i as int), *counter),
        {
            let ghost done = self.extra@.take(i as int + 1);
            assert(done.drop_last() =~= self.extra@.take(i as int));
            if !blank(self.extra[i].1.as_str()) {
                let mut owned = String::from_str("--- ");
                owned.append(self.extra[i].0.as_str());
                owned.append(" ---\n");
                owned.append(self.extra[i].1.as_str());
                owned.append("\n");
                let n: usize = counter.count(owned.as_str()).get();
                proof {
                    extra_tokens_grow(self.extra@, i as int + 1, *counter);
                }
                sum = sum + n;
            }
        }
        assert(self.extra@.take(self.extra@.len() as int) =~= self.extra@);
        sum
    }

    /// The tokens of everything that eviction cannot touch.
    pub fn fixed_tokens(&self, counter: &TokenCounter) -> (r: usize)
        requires
            self.countable(*counter),
        ensures
            r == self.tokens_without(*counter, Some(RenderedPart::Timeline)),
    {
        let counts = self.breakdown(counter);
        proof {
            breakdown_adds_up(*self, counts@, *counter, Some(RenderedPart::Timeline));
            breakdown_adds_up(*self, counts@, *counter, None);
            skipping_lowers(counts@, Some(RenderedPart::Timeline));
        }
        let mut sum: usize = 0;
        for i in 0..counts.len()
            invariant
                tokens_but(counts@, Some(RenderedPart::Timeline)) <= usize::MAX,
                sum == tokens_but(counts@.take(i as int), Some(RenderedPart::Timeline)),
        {
            assert(counts@.take(i as int + 1).drop_last() =~= counts@.take(i as int));
            proof {
                tokens_but_grow(counts@, i as int + 1, Some(RenderedPart::Timeline));
            }
            let (part, n) = counts[i];
            if !part.is_evictable() {
                sum = sum + n;
            }
        }
        assert(counts@.take(counts@.len() as int) =~= counts@);
        sum
    }

    /// The tokens of the timeline.
    pub fn timeline_tokens(&self, counter: &TokenCounter) -> (r: usize)
        ensures
            r == counter.of(self.timeline@),
    {
        counter.count(self.timeline.as_str()).get()
    }

    /// The byte range of each section in the rendered prompt.
    pub fn part_offsets(&self) -> (r: Vec<(RenderedPart, usize, usize)>)
        requires
            bytes_of(blocks(self.section_list())) <= usize::MAX,
        ensures
            r@.len() == self.section_list().len(),
            forall|i: int|
                0 <= i < r@.len() ==> {
                    &&& (#[trigger] r@[i]).0 == self.section_list()[i].part
                    &&& r@[i].1 == bytes_of(blocks(self.section_list().take(i)))
                    &&& r@[i].2 == bytes_of(blocks(self.section_list().take(i + 1)))
                },
    {
        let mut out: Vec<(RenderedPart, usize, usize)> = Vec::new();
        let list = self.sections();
        let ghost all = self.section_list();
        let mut cursor: usize = 0;
        assert(all.take(0) =~= Seq::empty());
        assert(bytes_of(Seq::<char>::empty()) == 0);
        for i in 0..list.len()
            invariant
                sections_view(list@) == all,
                bytes_of(blocks(all)) <= usize::MAX,
                out@.len() == i,
                cursor == bytes_of(blocks(all.take(i as int))),
                forall|k: int|
                    0 <= k < i ==> {
                        &&& (#[trigger] out@[k]).0 == all[k].part
                        &&& out@[k].1 == bytes_of(blocks(all.take(k)))
                        &&& out@[k].2 == bytes_of(blocks(all.take(k + 1)))
                    },
        {
            let (part, header, text) = list[i];
            assert(all[i as int] == sections_view(list@)[i as int]);
            let start: usize = cursor;
            proof {
                assert(all.take(i as int + 1).drop_last() =~= all.take(i as int));
                bytes_add_up(blocks(all.take(i as int)), block(all[i as int]));
                blocks_grow(all, i as int + 1);
                block_bytes(all[i as int]);
            }
            if byte_count(header) > 0 {
                proof {
                    crate::text::no_more_characters_than_bytes(header@);
                }
                cursor = cursor + byte_count(header) + 1;
            }
            cursor = cursor + byte_count(text);
            if !ends_with_char(text, '\n') {
                cursor = cursor + 1;
            }
            out.push((part, start, cursor));
        }
        out
    }

    /// The text that a cut after `timeline_tokens` tokens of the timeline retains: the
    /// sections before the timeline, and of the timeline as many whole characters as four
    /// bytes a token allow.
    pub open spec fn retained(self, list: Seq<Section>, timeline_tokens: int) -> Seq<char>
        decreases list.len(),
    {
        if list.len() == 0 {
            Seq::empty()
        } else {
            let s = list.last();
            self.retained(list.drop_last(), timeline_tokens) + (if s.part is Timeline {
                within_bytes(s.text, timeline_tokens * 4)
            } else if s.part.place() < RenderedPart::Timeline.place() {
                s.text
            } else {
                Seq::empty()
            })
        }
    }

    /// The text that a cut after `timeline_tokens` tokens of the timeline retains.
    pub fn retained_prefix_text(&self, timeline_tokens: usize) -> (r: String)
        ensures
            r@ == self.retained(self.section_list(), timeline_tokens as int),
    {
        let mut out = String::new();
        let list = self.sections();
        let ghost all = self.section_list();
        for i in 0..list.len()
            invariant
                sections_view(list@) == all,
                out@ == self.retained(all.take(i as int), timeline_tokens as int),
        {
            let (part, header, text) = list[i];
            assert(all[i as int] == sections_view(list@)[i as int]);
            assert(all.take(i as int + 1).drop_last() =~= all.take(i as int));
            let ghost before = out@;
            if part.is_evictable() {
                let n: usize = byte_count(text);
                let limit: usize = if timeline_tokens > usize::MAX / 4 {
                    n
                } else {
                    timeline_tokens * 4
                };
                proof {
                    if timeline_tokens > usize::MAX / 4 {
                        everything_fits(text@, n as int);
                        everything_fits(text@, timeline_tokens * 4);
                    }
                }
                let kept = take_bytes(text, limit);
                out.append(kept.as_str());
            } else if part.order() < RenderedPart::Timeline.order() {
                out.append(text);
            } else {
                assert(before + Seq::<char>::empty() =~= before);
            }
        }
        assert(all.take(all.len() as int) =~= all);
        out
    }

    /// The hash of the assembled prompt.
    pub fn prefix_hash(&self) -> (r: String)
        ensures
            r@ == short_hash_of_text(self.rendered()),
            r@.len() == 16,
            all_hex(r@),
    {
        short_hash_str(self.render().as_str())
    }

    /// Whether nothing has been assembled.
    pub fn is_empty(&self) -> (r: bool)
        ensures
            r == (trimmed(self.rendered()).len() == 0),
    {
        proof {
            crate::text::blank_trims_to_nothing(self.rendered());
        }
        blank(self.render().as_str())
    }
}

fn push_header(out: &mut String, header: &str)
    ensures
        final(out)@ == old(out)@ + (if header@.len() > 0 {
            header@.push('\n')
        } else {
            Seq::empty()
        }),
{
    if !header.is_empty() {
        out.append(header);
        out.push('\n');
        assert(out@ =~= old(out)@ + header@.push('\n'));
    } else {
        assert(out@ =~= old(out)@ + Seq::<char>::empty());
    }
}

fn push_block(out: &mut String, header: &str, text: &str)
    ensures
        forall|part: RenderedPart|
            final(out)@ == old(out)@ + #[trigger] block(
                Section { part, header: header@, text: text@ },
            ),
{
    push_header(out, header);
    out.append(text);
    if !ends_with_char(text, '\n') {
        out.push('\n');
    }
    assert forall|part: RenderedPart|
        out@ == old(out)@ + #[trigger] block(Section { part, header: header@, text: text@ }) by {
        assert(out@ =~= old(out)@ + block(Section { part, header: header@, text: text@ }));
    }
}

proof fn extra_tokens_grow(extra: Seq<(String, String)>, n: int, counter: TokenCounter)
    requires
        0 <= n <= extra.len(),
    ensures
        extra_tokens(extra.take(n), counter) <= extra_tokens(extra, counter),
    decreases extra.len() - n,
{
    if n < extra.len() {
        assert(extra.take(n + 1).drop_last() =~= extra.take(n));
        extra_tokens_grow(extra, n + 1, counter);
    } else {
        assert(extra.take(n) =~= extra);
    }
}

proof fn tokens_but_grow(counts: Seq<(RenderedPart, usize)>, n: int, skip: Option<RenderedPart>)
    requires
        0 <= n <= counts.len(),
    ensures
        tokens_but(counts.take(n), skip) <= tokens_but(counts, skip),
    decreases counts.len() - n,
{
    if n < counts.len() {
        assert(counts.take(n + 1).drop_last() =~= counts.take(n));
        tokens_but_grow(counts, n + 1, skip);
    } else {
        assert(counts.take(n) =~= counts);
    }
}

proof fn skipping_lowers(counts: Seq<(RenderedPart, usize)>, skip: Option<RenderedPart>)
    ensures
        tokens_but(counts, skip) <= tokens_but(counts, None),
    decreases counts.len(),
{
    if counts.len() > 0 {
        skipping_lowers(counts.drop_last(), skip);
    }
}

/// The counted parts of a prompt add up to its tokens.
pub proof fn breakdown_adds_up(
    parts: PromptParts,
    counts: Seq<(RenderedPart, usize)>,
    counter: TokenCounter,
    skip: Option<RenderedPart>,
)
    requires
        parts.is_breakdown(counts, counter),
        skip != Some(RenderedPart::Extra),
    ensures
        tokens_but(counts, skip) == parts.tokens_without(counter, skip),
{
    let list = parts.section_list();
    let n = list.len() as int;
    sections_add_up(list, counts, counter, skip, n);
    assert(list.take(n) =~= list);
    if extra_tokens(parts.extra@, counter) > 0 {
        assert(counts.drop_last() =~= counts.take(n));
    } else {
        assert(counts =~= counts.take(n));
    }
}

proof fn sections_add_up(
    list: Seq<Section>,
    counts: Seq<(RenderedPart, usize)>,
    counter: TokenCounter,
    skip: Option<RenderedPart>,
    n: int,
)
    requires
        0 <= n <= list.len() <= counts.len(),
        forall|i: int|
            0 <= i < list.len() ==> (#[trigger] counts[i]).0 == list[i].part && counts[i].1
                == counter.of(header_line(list[i]) + list[i].text),
    ensures
        tokens_but(counts.take(n), skip) == PromptParts::section_tokens(
            list.take(n),
            counter,
            skip,
        ),
    decreases n,
{
    if n > 0 {
        sections_add_up(list, counts, counter, skip, n - 1);
        assert(counts.take(n).drop_last() =~= counts.take(n - 1));
        assert(list.take(n).drop_last() =~= list.take(n - 1));
        assert(counts.take(n).last() == counts[n - 1]);
        assert(list.take(n).last() == list[n - 1]);
    }
}

proof fn blocks_grow(list: Seq<Section>, n: int)
    requires
        0 <= n <= list.len(),
    ensures
        bytes_of(blocks(list.take(n))) <= bytes_of(blocks(list)),
    decreases list.len() - n,
{
    if n < list.len() {
        assert(list.take(n + 1).drop_last() =~= list.take(n));
        bytes_add_up(blocks(list.take(n)), block(list[n]));
        blocks_grow(list, n + 1);
    } else {
        assert(list.take(n) =~= list);
    }
}

/// The bytes of a block are those of its header line, its text and its line end.
proof fn block_bytes(s: Section)
    ensures
        bytes_of(block(s)) == (if s.header.len() > 0 {
            bytes_of(s.header) + 1
        } else {
            0
        }) + bytes_of(s.text) + (if s.text.len() > 0 && s.text.last() == '\n' {
            0int
        } else {
            1int
        }),
        s.header.len() == 0 <==> bytes_of(s.header) == 0,
{
    let nl = seq!['\n'];
    crate::text::bytes_of_first(nl);
    assert(nl.drop_first() =~= Seq::empty());
    assert(bytes_of(Seq::<char>::empty()) == 0);
    assert(bytes_of(nl) == 1);
    assert(s.header.push('\n') =~= s.header + nl);
    bytes_add_up(s.header, nl);
    bytes_add_up(header_line(s) + s.text, nl);
    bytes_add_up(header_line(s) + s.text, Seq::empty());
    bytes_add_up(header_line(s), s.text);
    crate::text::no_more_characters_than_bytes(s.header);
    if s.header.len() == 0 {
        assert(s.header =~= Seq::empty());
    }
}

/// A text fits whole within its own number of bytes, or more.
proof fn everything_fits(s: Seq<char>, limit: int)
    requires
        limit >= bytes_of(s),
    ensures
        within_bytes(s, limit) == s,
{
    within_bytes_is_the_longest_prefix(s, limit);
    let kept = within_bytes(s, limit);
    if kept.len() < s.len() {
        let rest = s.skip(kept.len() as int);
        assert(kept + rest =~= s);
        bytes_add_up(kept, rest);
        crate::text::bytes_of_first(rest);
    } else {
        assert(s.take(s.len() as int) =~= s);
    }
}

/// The sections of a prompt come in the order of their places, each place at most once: what
/// is pinned always comes before what can be evicted.
pub proof fn sections_are_in_order(parts: PromptParts)
    ensures
        forall|i: int, j: int|
            0 <= i < j < parts.section_list().len() ==> (#[trigger] parts.section_list()[i]).part.place()
                < (#[trigger] parts.section_list()[j]).part.place(),
        forall|i: int|
            0 <= i < parts.section_list().len() ==> {
                &&& !is_blank((#[trigger] parts.section_list()[i]).text)
                &&& parts.section_list()[i].text == parts.text_of(parts.section_list()[i].part)
            },
{
}

/// What is retained of two lists of sections is retained of each.
proof fn retained_adds_up(parts: PromptParts, a: Seq<Section>, b: Seq<Section>, n: int)
    ensures
        parts.retained(a + b, n) == parts.retained(a, n) + parts.retained(b, n),
    decreases b.len(),
{
    if b.len() == 0 {
        assert(a + b =~= a);
        assert(parts.retained(a, n) + parts.retained(b, n) =~= parts.retained(a, n));
    } else {
        retained_adds_up(parts, a, b.drop_last(), n);
        assert((a + b).drop_last() =~= a + b.drop_last());
        assert((a + b).last() == b.last());
        assert(parts.retained(a + b, n) =~= parts.retained(a, n) + parts.retained(b, n));
    }
}

/// Of sections other than the timeline the same is retained, however much of the timeline is.
proof fn other_sections_are_retained_alike(
    parts: PromptParts,
    list: Seq<Section>,
    small: int,
    large: int,
)
    requires
        forall|i: int| 0 <= i < list.len() ==> !((#[trigger] list[i]).part is Timeline),
    ensures
        parts.retained(list, small) == parts.retained(list, large),
    decreases list.len(),
{
    if list.len() > 0 {
        assert(!(list[list.len() - 1].part is Timeline));
        assert forall|i: int| 0 <= i < list.drop_last().len() implies !((
        #[trigger] list.drop_last()[i]).part is Timeline) by {
            assert(!(list[i].part is Timeline));
        }
        other_sections_are_retained_alike(parts, list.drop_last(), small, large);
    }
}

/// What is retained with less of the timeline is a prefix of what is retained with more of it.
pub proof fn retained_prefix_is_monotonic(parts: PromptParts, small: int, large: int)
    requires
        0 <= small <= large,
    ensures
        parts.retained(parts.section_list(), small).is_prefix_of(
            parts.retained(parts.section_list(), large),
        ),
{
    let head = section_of(RenderedPart::System, ""@, parts.system@) + section_of(
        RenderedPart::Anchors,
        "--- pinned anchors ---"@,
        parts.anchors@,
    ) + section_of(RenderedPart::Folds, "--- folded subtasks ---"@, parts.folds@) + section_of(
        RenderedPart::Recall,
        "--- retrieved memory ---"@,
        parts.recall@,
    ) + section_of(RenderedPart::RepoMap, "--- repository map ---"@, parts.repo_map@);
    let middle = section_of(RenderedPart::Timeline, "--- recent history ---"@, parts.timeline@);
    let tail = section_of(
        RenderedPart::ToolSchemas,
        "--- tool schemas ---"@,
        parts.tool_schemas@,
    );
    assert(parts.section_list() == head + middle + tail);
    retained_adds_up(parts, head + middle, tail, small);
    retained_adds_up(parts, head + middle, tail, large);
    retained_adds_up(parts, head, middle, small);
    retained_adds_up(parts, head, middle, large);
    other_sections_are_retained_alike(parts, head, small, large);
    within_bytes_is_monotonic(parts.timeline@, small * 4, large * 4);
    assert(parts.retained(Seq::empty(), small) =~= Seq::<char>::empty());
    assert(parts.retained(Seq::empty(), large) =~= Seq::<char>::empty());
    let before = parts.retained(head, small);
    let less = parts.retained(middle, small);
    let more = parts.retained(middle, large);
    if middle.len() > 0 {
        assert(middle.drop_last() =~= Seq::<Section>::empty());
        assert(less =~= within_bytes(parts.timeline@, small * 4));
        assert(more =~= within_bytes(parts.timeline@, large * 4));
    }
    assert(less =~= more.subrange(0, less.len() as int));
    if tail.len() > 0 {
        assert(tail.drop_last() =~= Seq::<Section>::empty());
    }
    assert(parts.retained(tail, small) =~= Seq::empty());
    assert(parts.retained(tail, large) =~= Seq::empty());
    let whole = parts.retained(parts.section_list(), large);
    assert(parts.retained(parts.section_list(), small) =~= before + less);
    assert(whole =~= before + more);
    assert(before + less =~= whole.subrange(0, (before + less).len() as int));
}

/// Whether one part comes before another in a prompt: the system prompt, the anchors, the
/// folds, what was recalled, the map, the history, the schemas.
pub open spec fn comes_first(a: RenderedPart, b: RenderedPart) -> bool {
    match a {
        RenderedPart::System => !(b is System),
        RenderedPart::Anchors => !(b is System || b is Anchors),
        RenderedPart::Folds => b is Recall || b is RepoMap || b is Timeline || b is ToolSchemas
            || b is Extra,
        RenderedPart::Recall => b is RepoMap || b is Timeline || b is ToolSchemas || b is Extra,
        RenderedPart::RepoMap => b is Timeline || b is ToolSchemas || b is Extra,
        RenderedPart::Timeline => b is ToolSchemas || b is Extra,
        RenderedPart::ToolSchemas => b is Extra,
        RenderedPart::Extra => false,
    }
}

/// The text that a prompt holds for a part.
pub open spec fn text_for(parts: PromptParts, part: RenderedPart) -> Seq<char> {
    match part {
        RenderedPart::System => parts.system@,
        RenderedPart::Anchors => parts.anchors@,
        RenderedPart::Folds => parts.folds@,
        RenderedPart::Recall => parts.recall@,
        RenderedPart::RepoMap => parts.repo_map@,
        RenderedPart::Timeline => parts.timeline@,
        RenderedPart::ToolSchemas => parts.tool_schemas@,
        RenderedPart::Extra => Seq::empty(),
    }
}

/// Where the text of each section stands among the blocks.
proof fn text_places(list: Seq<Section>) -> (at: Seq<int>)
    ensures
        at.len() == list.len(),
        forall|i: int|
            0 <= i < at.len() ==> stands_at(blocks(list), list[i].text, #[trigger] at[i]),
        forall|i: int, j: int|
            #![trigger at[i], at[j]]
            0 <= i < j < at.len() ==> at[i] + list[i].text.len() <= at[j],
    decreases list.len(),
{
    if list.len() == 0 {
        Seq::empty()
    } else {
        let rest = list.drop_last();
        let before = text_places(rest);
        let old = blocks(rest);
        let all = blocks(list);
        let last = list.last();
        let p = old.len() + header_line(last).len();
        let at = before.push(p as int);
        assert forall|i: int| 0 <= i < at.len() implies stands_at(
            all,
            list[i].text,
            #[trigger] at[i],
        ) by {
            let text = list[i].text;
            if i < rest.len() {
                assert(at[i] == before[i] && rest[i] == list[i]);
                assert(stands_at(old, text, before[i]));
                assert(all.subrange(at[i], at[i] + text.len()) =~= old.subrange(
                    at[i],
                    at[i] + text.len(),
                ));
            } else {
                assert(all.subrange(at[i], at[i] + text.len()) =~= text);
            }
        }
        assert forall|i: int, j: int|
            #![trigger at[i], at[j]]
            0 <= i < j < at.len() implies at[i] + list[i].text.len() <= at[j] by {
            assert(at[i] == before[i] && rest[i] == list[i]);
            if j < rest.len() {
                assert(at[j] == before[j] && rest[j] == list[j]);
            } else {
                assert(stands_at(old, rest[i].text, before[i]));
            }
        }
        at
    }
}

/// A part that says something has its section.
proof fn every_part_has_its_section(parts: PromptParts, part: RenderedPart) -> (i: int)
    requires
        !is_blank(text_for(parts, part)),
    ensures
        0 <= i < parts.section_list().len(),
        parts.section_list()[i].part == part,
        parts.section_list()[i].text == text_for(parts, part),
{
    let list = parts.section_list();
    let a = section_of(RenderedPart::System, ""@, parts.system@);
    let b = section_of(RenderedPart::Anchors, "--- pinned anchors ---"@, parts.anchors@);
    let c = section_of(RenderedPart::Folds, "--- folded subtasks ---"@, parts.folds@);
    let d = section_of(RenderedPart::Recall, "--- retrieved memory ---"@, parts.recall@);
    let e = section_of(RenderedPart::RepoMap, "--- repository map ---"@, parts.repo_map@);
    let f = section_of(RenderedPart::Timeline, "--- recent history ---"@, parts.timeline@);
    let g = section_of(RenderedPart::ToolSchemas, "--- tool schemas ---"@, parts.tool_schemas@);
    assert(list =~= a + b + c + d + e + f + g);
    match part {
        RenderedPart::System => 0,
        RenderedPart::Anchors => a.len() as int,
        RenderedPart::Folds => (a + b).len() as int,
        RenderedPart::Recall => (a + b + c).len() as int,
        RenderedPart::RepoMap => (a + b + c + d).len() as int,
        RenderedPart::Timeline => (a + b + c + d + e).len() as int,
        RenderedPart::ToolSchemas => (a + b + c + d + e + f).len() as int,
        RenderedPart::Extra => {
            assert(false);
            0
        },
    }
}

/// A prompt holds the text of each part that says something, word for word, and the parts stand
/// in their order: what is pinned before what can be evicted.
pub proof fn a_prompt_holds_its_parts_in_order(
    parts: &PromptParts,
    r: String,
    a: RenderedPart,
    b: RenderedPart,
) -> (at: (int, int))
    requires
        call_ensures(PromptParts::render, (parts,), r),
        !is_blank(text_for(*parts, a)),
        !is_blank(text_for(*parts, b)),
    ensures
        stands_at(r@, text_for(*parts, a), at.0),
        stands_at(r@, text_for(*parts, b), at.1),
        comes_first(a, b) ==> at.0 + text_for(*parts, a).len() <= at.1,
{
    let list = parts.section_list();
    let i = every_part_has_its_section(*parts, a);
    let j = every_part_has_its_section(*parts, b);
    let places = text_places(list);
    let head = blocks(list);
    assert(stands_at(head, list[i].text, places[i]));
    assert(stands_at(head, list[j].text, places[j]));
    assert(r@.subrange(places[i], places[i] + list[i].text.len()) =~= head.subrange(
        places[i],
        places[i] + list[i].text.len(),
    ));
    assert(r@.subrange(places[j], places[j] + list[j].text.len()) =~= head.subrange(
        places[j],
        places[j] + list[j].text.len(),
    ));
    sections_are_in_order(*parts);
    if comes_first(a, b) {
        assert(a.place() < b.place());
        if j <= i {
            assert(list[j].part.place() <= list[i].part.place());
        }
        assert(i < j);
    }
    (places[i], places[j])
}

/// A section of the caller's own that says something stands in the prompt under its name.
pub proof fn a_prompt_holds_the_callers_sections(parts: &PromptParts, r: String, i: int) -> (at: int)
    requires
        call_ensures(PromptParts::render, (parts,), r),
        0 <= i < parts.extra@.len(),
        !is_blank(parts.extra@[i].1@),
    ensures
        stands_at(
            r@,
            "--- "@ + parts.extra@[i].0@ + " ---\n"@ + parts.extra@[i].1@ + "\n"@,
            at,
        ),
{
    let wanted = extra_block(parts.extra@[i].0@, parts.extra@[i].1@);
    let p = own_section_place(parts.extra@, i);
    let head = blocks(parts.section_list());
    let own = extra_blocks(parts.extra@);
    assert(r@.subrange(head.len() + p, head.len() + p + wanted.len()) =~= own.subrange(
        p,
        p + wanted.len(),
    ));
    head.len() + p
}

proof fn own_section_place(extra: Seq<(String, String)>, i: int) -> (p: int)
    requires
        0 <= i < extra.len(),
        !is_blank(extra[i].1@),
    ensures
        stands_at(extra_blocks(extra), extra_block(extra[i].0@, extra[i].1@), p),
    decreases extra.len(),
{
    let all = extra_blocks(extra);
    let before = extra_blocks(extra.drop_last());
    let wanted = extra_block(extra[i].0@, extra[i].1@);
    if i == extra.len() - 1 {
        let p = before.len() as int;
        assert(all.subrange(p, p + wanted.len()) =~= wanted);
        p
    } else {
        assert(extra.drop_last()[i] == extra[i]);
        let p = own_section_place(extra.drop_last(), i);
        assert(all.subrange(p, p + wanted.len()) =~= before.subrange(p, p + wanted.len()));
        p
    }
}

/// What cannot be evicted is everything that was counted but the history, and the whole prompt
/// counts for what its text counts for.
pub proof fn fixed_tokens_leave_out_the_history(
    parts: &PromptParts,
    counter: &TokenCounter,
    counts: Vec<(RenderedPart, usize)>,
    fixed: usize,
    rendered: String,
    total: usize,
)
    requires
        call_ensures(PromptParts::breakdown, (parts, counter), counts),
        call_ensures(PromptParts::fixed_tokens, (parts, counter), fixed),
        call_ensures(PromptParts::render, (parts,), rendered),
        call_ensures(PromptParts::total_tokens, (parts, counter), total),
    ensures
        fixed == tokens_but(counts@, Some(RenderedPart::Timeline)),
        total == counter.of(rendered@),
{
    breakdown_adds_up(*parts, counts@, *counter, Some(RenderedPart::Timeline));
}

/// Every part that says something is counted once, for its text and its header at least; blank
/// ones are not counted.
pub proof fn every_part_is_counted(
    parts: &PromptParts,
    counter: &TokenCounter,
    counts: Vec<(RenderedPart, usize)>,
    part: RenderedPart,
)
    requires
        call_ensures(PromptParts::breakdown, (parts, counter), counts),
        !(part is Extra),
    ensures
        !is_blank(text_for(*parts, part)) <==> exists|i: int|
            0 <= i < counts@.len() && (#[trigger] counts@[i]).0 == part,
        forall|i: int|
            0 <= i < counts@.len() && (#[trigger] counts@[i]).0 == part ==> counts@[i].1
                >= counter.of(text_for(*parts, part)),
        part is System ==> forall|i: int|
            0 <= i < counts@.len() && (#[trigger] counts@[i]).0 == part ==> counts@[i].1
                == counter.of(parts.system@),
{
    let list = parts.section_list();
    sections_are_in_order(*parts);
    if !is_blank(text_for(*parts, part)) {
        let i = every_part_has_its_section(*parts, part);
        assert(counts@[i].0 == part);
    }
    assert forall|i: int| 0 <= i < counts@.len() && (#[trigger] counts@[i]).0 == part implies
        counts@[i].1 >= counter.of(text_for(*parts, part)) && !is_blank(text_for(*parts, part))
        && (part is System ==> counts@[i].1 == counter.of(parts.system@)) by {
        assert(i < list.len());
        let s = list[i];
        assert(s.part == part);
        assert(s.text == parts.text_of(part));
        crate::tokens::count_is_monotonic(*counter, s.text, header_line(s) + s.text);
        if part is System {
            reveal_strlit("");
            assert(header_line(s) + s.text =~= s.text);
        }
    }
}

/// What a cut of the history retains is what stands before the history, whatever the cut, and
/// then as much of the history as four bytes for each retained token hold.
pub proof fn a_cut_retains_the_beginning_of_the_history(
    parts: &PromptParts,
    tokens: usize,
    none: String,
    r: String,
)
    requires
        call_ensures(PromptParts::retained_prefix_text, (parts, 0), none),
        call_ensures(PromptParts::retained_prefix_text, (parts, tokens), r),
    ensures
        none@.is_prefix_of(r@),
        ({
            let kept = r@.skip(none@.len() as int);
            &&& kept.is_prefix_of(parts.timeline@)
            &&& bytes_of(kept) <= 4 * tokens
            &&& !is_blank(parts.timeline@) && kept.len() < parts.timeline@.len() ==> bytes_of(kept)
                + width_of(parts.timeline@[kept.len() as int]) > 4 * tokens
        }),
{
    let head = section_of(RenderedPart::System, ""@, parts.system@) + section_of(
        RenderedPart::Anchors,
        "--- pinned anchors ---"@,
        parts.anchors@,
    ) + section_of(RenderedPart::Folds, "--- folded subtasks ---"@, parts.folds@) + section_of(
        RenderedPart::Recall,
        "--- retrieved memory ---"@,
        parts.recall@,
    ) + section_of(RenderedPart::RepoMap, "--- repository map ---"@, parts.repo_map@);
    let middle = section_of(RenderedPart::Timeline, "--- recent history ---"@, parts.timeline@);
    let tail = section_of(
        RenderedPart::ToolSchemas,
        "--- tool schemas ---"@,
        parts.tool_schemas@,
    );
    let n = tokens as int;
    assert(parts.section_list() == head + middle + tail);
    retained_adds_up(*parts, head + middle, tail, 0);
    retained_adds_up(*parts, head + middle, tail, n);
    retained_adds_up(*parts, head, middle, 0);
    retained_adds_up(*parts, head, middle, n);
    other_sections_are_retained_alike(*parts, head, 0, n);
    assert(parts.retained(Seq::empty(), 0) =~= Seq::<char>::empty());
    assert(parts.retained(Seq::empty(), n) =~= Seq::<char>::empty());
    if tail.len() > 0 {
        assert(tail.drop_last() =~= Seq::<Section>::empty());
    }
    assert(parts.retained(tail, 0) =~= Seq::empty());
    assert(parts.retained(tail, n) =~= Seq::empty());
    let before = parts.retained(head, 0);
    let kept = parts.retained(middle, n);
    within_bytes_is_the_longest_prefix(parts.timeline@, 0);
    within_bytes_is_the_longest_prefix(parts.timeline@, n * 4);
    if middle.len() > 0 {
        assert(middle.drop_last() =~= Seq::<Section>::empty());
        assert(kept =~= within_bytes(parts.timeline@, n * 4));
        let nothing = within_bytes(parts.timeline@, 0);
        crate::text::no_more_characters_than_bytes(nothing);
        assert(parts.retained(middle, 0) =~= nothing);
        assert(nothing =~= Seq::empty());
    } else {
        assert(kept =~= Seq::empty());
        assert(bytes_of(Seq::<char>::empty()) == 0);
    }
    assert(none@ =~= before);
    assert(r@ =~= before + kept);
    assert(r@.skip(none@.len() as int) =~= kept);
    assert(none@ =~= r@.subrange(0, none@.len() as int));
    assert(kept =~= parts.timeline@.subrange(0, kept.len() as int));
}

/// The ranges of the sections follow one another without a gap, from the start of the prompt to
/// where the caller's own sections begin, each as long as its block.
pub proof fn ranges_follow_one_another(
    parts: &PromptParts,
    r: Vec<(RenderedPart, usize, usize)>,
    whole: String,
    i: int,
)
    requires
        call_ensures(PromptParts::part_offsets, (parts,), r),
        call_ensures(PromptParts::render, (parts,), whole),
        0 <= i < r@.len(),
    ensures
        r@[0].1 == 0,
        i > 0 ==> r@[i].1 == r@[i - 1].2,
        r@[i].1 <= r@[i].2,
        r@.last().2 + bytes_of(extra_blocks(parts.extra@)) == bytes_of(whole@),
{
    let all = parts.section_list();
    assert(all.take(0) =~= Seq::empty());
    assert(bytes_of(Seq::<char>::empty()) == 0);
    assert(all.take(all.len() as int) =~= all);
    assert(all.take(i + 1).drop_last() =~= all.take(i));
    bytes_add_up(blocks(all.take(i)), block(all.take(i + 1).last()));
    bytes_add_up(blocks(all), extra_blocks(parts.extra@));
}

} // verus!
